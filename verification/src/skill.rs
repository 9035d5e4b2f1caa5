use vstd::prelude::*;
use bevy::time::Stopwatch;
use crate::clock::{
    stopwatch_elapsed, stopwatch_is_paused, stopwatch_new, stopwatch_pause, stopwatch_paused,
    stopwatch_read, stopwatch_reset, stopwatch_set_elapsed, stopwatch_tick, stopwatch_unpause,
};
use crate::components::Ratio;

verus! {

/// The skills an entity can select.
#[derive(Clone, Copy, Debug, PartialEq, Eq, Structural)]
pub enum SkillCode {
    BaseAttack,
    FireBall,
}

/// A named skill.
pub struct Skill {
    pub id: SkillCode,
    pub name: String,
}

/// What a `SkillInfo` stands for: the selected skill, the cast window and
/// the cooldown clock. Times are microseconds.
pub struct CastModel {
    pub skill: Option<SkillCode>,
    /// Time counted inside the current cast window.
    pub elapsed: nat,
    /// Whether the cast clock is stopped.
    pub paused: bool,
    /// Length of the current cast window; zero when there is none.
    pub duration: nat,
    /// Time that the cooldown clock has counted.
    pub cooldown: nat,
}

/// A clock that has reached this count stays there.
pub open spec fn clock_limit() -> nat {
    u64::MAX as nat
}

/// `a + b`, held at `clock_limit()`.
pub open spec fn clock_add(a: nat, b: nat) -> nat {
    if a + b <= clock_limit() {
        a + b
    } else {
        clock_limit()
    }
}

impl CastModel {
    /// A cast window is open and its clock runs.
    pub open spec fn casting(self) -> bool {
        !self.paused && self.duration > 0
    }

    /// The cast clock has reached the length of the window.
    pub open spec fn done(self) -> bool {
        self.elapsed >= self.duration
    }

    /// A new window of `duration` opens, from zero.
    pub open spec fn begin(self, duration: nat) -> CastModel {
        CastModel { elapsed: 0, paused: false, duration, ..self }
    }

    /// The window is dropped without resolving; the cooldown stays.
    pub open spec fn broken(self) -> CastModel {
        CastModel { elapsed: 0, paused: true, duration: 0, ..self }
    }

    /// Both clocks advance by `delta`; a paused cast clock stays.
    pub open spec fn ticked(self, delta: nat) -> CastModel {
        CastModel {
            elapsed: if self.paused {
                self.elapsed
            } else {
                clock_add(self.elapsed, delta)
            },
            cooldown: clock_add(self.cooldown, delta),
            ..self
        }
    }

    /// The state before the resolution test of `cast`: a new window when
    /// none was open, else the open one advanced by `delta`.
    pub open spec fn advanced(self, duration: nat, delta: nat) -> CastModel {
        if self.casting() {
            self.ticked(delta)
        } else {
            self.begin(duration)
        }
    }

    /// Whether `cast` resolves on this call.
    pub open spec fn resolves(self, duration: nat, delta: nat) -> bool {
        self.advanced(duration, delta).done()
    }

    /// The state that `cast` leaves.
    pub open spec fn after_cast(self, duration: nat, delta: nat) -> CastModel {
        if self.resolves(duration, delta) {
            self.advanced(duration, delta).broken()
        } else {
            self.advanced(duration, delta)
        }
    }

    /// Cast progress as elapsed over duration; zero over one without a window.
    pub open spec fn ratio(self) -> Ratio {
        if self.duration == 0 {
            Ratio { numerator: 0, denominator: 1 }
        } else {
            Ratio { numerator: self.elapsed as i128, denominator: self.duration as i128 }
        }
    }
}

/// Per-entity casting state: the selected skill, one cast window and the
/// global cooldown clock.
pub struct SkillInfo {
    current_skill: Option<SkillCode>,
    casting_time: Stopwatch,
    global_cooltime: Stopwatch,
    cast_time: u64,
}

impl View for SkillInfo {
    type V = CastModel;

    closed spec fn view(&self) -> CastModel {
        CastModel {
            skill: self.current_skill,
            elapsed: stopwatch_elapsed(self.casting_time),
            paused: stopwatch_paused(self.casting_time),
            duration: self.cast_time as nat,
            cooldown: stopwatch_elapsed(self.global_cooltime),
        }
    }
}

/// Advances a clock by `delta`, holding it at `clock_limit()`.
fn advance_clock(sw: &mut Stopwatch, delta: u64)
    requires
        stopwatch_elapsed(*old(sw)) <= clock_limit(),
    ensures
        stopwatch_paused(*final(sw)) == stopwatch_paused(*old(sw)),
        stopwatch_elapsed(*final(sw)) == if stopwatch_paused(*old(sw)) {
            stopwatch_elapsed(*old(sw))
        } else {
            clock_add(stopwatch_elapsed(*old(sw)), delta as nat)
        },
    no_unwind
{
    let now: u128 = stopwatch_read(sw);
    if stopwatch_is_paused(sw) || now + (delta as u128) <= u64::MAX as u128 {
        stopwatch_tick(sw, delta);
    } else {
        stopwatch_set_elapsed(sw, u64::MAX);
    }
}

impl SkillInfo {
    #[verifier::type_invariant]
    spec fn inv(self) -> bool {
        &&& stopwatch_elapsed(self.casting_time) <= clock_limit()
        &&& stopwatch_elapsed(self.global_cooltime) <= clock_limit()
        &&& !stopwatch_paused(self.global_cooltime)
    }

    /// No skill selected, no cast window, both clocks at zero and running.
    pub fn new() -> (s: Self)
        ensures
            s@ == (CastModel { skill: None, elapsed: 0, paused: false, duration: 0, cooldown: 0 }),
    {
        Self {
            current_skill: None,
            casting_time: stopwatch_new(),
            global_cooltime: stopwatch_new(),
            cast_time: 0,
        }
    }

    pub fn current_skill(&self) -> (r: &Option<SkillCode>)
        ensures
            *r == self@.skill,
    {
        &self.current_skill
    }

    pub fn set_skill(&mut self, skill: SkillCode)
        ensures
            final(self)@ == (CastModel { skill: Some(skill), ..old(self)@ }),
    {
        proof {
            use_type_invariant(&*self);
        }
        self.current_skill = Some(skill);
    }

    /// Opens a cast window of `duration` microseconds, from zero.
    pub fn casting(&mut self, duration: u64)
        ensures
            final(self)@ == old(self)@.begin(duration as nat),
    {
        proof {
            use_type_invariant(&*self);
        }
        stopwatch_unpause(&mut self.casting_time);
        stopwatch_reset(&mut self.casting_time);
        self.cast_time = duration;
    }

    /// Drops the cast window without resolving it.
    pub fn break_casting(&mut self)
        ensures
            final(self)@ == old(self)@.broken(),
    {
        proof {
            use_type_invariant(&*self);
        }
        stopwatch_reset(&mut self.casting_time);
        stopwatch_set_elapsed(&mut self.casting_time, 0);
        stopwatch_pause(&mut self.casting_time);
        self.cast_time = 0;
    }

    pub fn is_cast_done(&self) -> (r: bool)
        ensures
            r == self@.done(),
    {
        stopwatch_read(&self.casting_time) >= self.cast_time as u128
    }

    /// Advances the cast clock and the cooldown clock by `delta` microseconds.
    pub fn tick(&mut self, delta: u64)
        ensures
            final(self)@ == old(self)@.ticked(delta as nat),
    {
        proof {
            use_type_invariant(&*self);
        }
        advance_clock(&mut self.casting_time, delta);
        advance_clock(&mut self.global_cooltime, delta);
    }

    pub fn is_casting(&self) -> (r: bool)
        ensures
            r == self@.casting(),
    {
        !stopwatch_is_paused(&self.casting_time) && self.cast_time > 0
    }

    /// One step of a cast of `duration` microseconds: opens the window when
    /// none is open, else advances it by `delta`. Returns true on the call
    /// on which the window's clock reaches `duration`, and closes the window.
    pub fn cast(&mut self, duration: u64, delta: u64) -> (resolved: bool)
        ensures
            resolved == old(self)@.resolves(duration as nat, delta as nat),
            final(self)@ == old(self)@.after_cast(duration as nat, delta as nat),
    {
        if !self.is_casting() {
            self.casting(duration);
        } else {
            self.tick(delta);
        }
        if self.is_cast_done() {
            self.break_casting();
        }
        self.is_cast_done()
    }

    /// Cast progress: elapsed over duration.
    pub fn ratio(&self) -> (r: Ratio)
        ensures
            r == self@.ratio(),
    {
        proof {
            use_type_invariant(self);
        }
        if self.cast_time == 0 {
            return Ratio { numerator: 0, denominator: 1 };
        }
        let elapsed: u128 = stopwatch_read(&self.casting_time);
        Ratio { numerator: elapsed as i128, denominator: self.cast_time as i128 }
    }
}

/// The sum of `deltas`.
pub open spec fn total(deltas: Seq<u64>) -> nat
    decreases deltas.len(),
{
    if deltas.len() == 0 {
        0
    } else {
        total(deltas.drop_last()) + deltas.last() as nat
    }
}

/// The state after `cast` was called once for each of `deltas`, in order,
/// always for a cast of `duration`.
pub open spec fn after_casts(m: CastModel, duration: u64, deltas: Seq<u64>) -> CastModel
    decreases deltas.len(),
{
    if deltas.len() == 0 {
        m
    } else {
        after_casts(m, duration, deltas.drop_last()).after_cast(
            duration as nat,
            deltas.last() as nat,
        )
    }
}

/// Whether the call number `k` of such a run of calls, counted from zero,
/// returns true.
pub open spec fn resolves_at(m: CastModel, duration: u64, deltas: Seq<u64>, k: int) -> bool {
    after_casts(m, duration, deltas.take(k)).resolves(duration as nat, deltas[k] as nat)
}

/// While the time counted stays below the duration, the window stays
/// open and no call resolves. The first call opens the window and counts
/// nothing.
proof fn lemma_window_stays_open(m: CastModel, duration: u64, deltas: Seq<u64>, k: int)
    requires
        !m.casting(),
        duration > 0,
        1 <= k <= deltas.len(),
        total(deltas.subrange(1, k)) < duration,
    ensures
        after_casts(m, duration, deltas.take(k)) == (CastModel {
            elapsed: total(deltas.subrange(1, k)),
            paused: false,
            duration: duration as nat,
            cooldown: after_casts(m, duration, deltas.take(k)).cooldown,
            skill: m.skill,
        }),
        forall|j: int| 0 <= j < k ==> !resolves_at(m, duration, deltas, j),
    decreases k,
{
    let run = deltas.take(k);
    assert(run.drop_last() =~= deltas.take(k - 1));
    assert(run.last() == deltas[k - 1]);
    if k == 1 {
        assert(deltas.take(0) =~= Seq::<u64>::empty());
        assert(deltas.subrange(1, 1) =~= Seq::<u64>::empty());
        assert(total(deltas.subrange(1, 1)) == 0);
        assert(after_casts(m, duration, deltas.take(0)) == m);
    } else {
        assert(deltas.subrange(1, k).drop_last() =~= deltas.subrange(1, k - 1));
        assert(deltas.subrange(1, k).last() == deltas[k - 1]);
        lemma_window_stays_open(m, duration, deltas, k - 1);
        assert forall|j: int| 0 <= j < k implies !resolves_at(m, duration, deltas, j) by {
            if j < k - 1 {
            } else {
                assert(deltas.take(j) =~= deltas.take(k - 1));
            }
        }
    }
}

/// Called again and again for a cast of `duration`, from a state in
/// which no window is open, `cast` returns true exactly once: on the call
/// on which the time counted since the window was opened first reaches
/// `duration`. That call closes the window, so the progress is back at zero.
pub proof fn law_cast_resolves_exactly_once(m: CastModel, duration: u64, deltas: Seq<u64>)
    requires
        !m.casting(),
        duration > 0,
        deltas.len() >= 2,
        total(deltas.subrange(1, deltas.len() - 1)) < duration,
        duration <= total(deltas.subrange(1, deltas.len() as int)),
    ensures
        forall|k: int| 0 <= k < deltas.len() - 1 ==> !resolves_at(m, duration, deltas, k),
        resolves_at(m, duration, deltas, deltas.len() - 1),
        !after_casts(m, duration, deltas).casting(),
        after_casts(m, duration, deltas).ratio() == (Ratio { numerator: 0, denominator: 1 }),
{
    let n = deltas.len() as int;
    lemma_window_stays_open(m, duration, deltas, n - 1);
    assert(deltas.subrange(1, n).drop_last() =~= deltas.subrange(1, n - 1));
    assert(deltas.subrange(1, n).last() == deltas[n - 1]);
    assert(deltas.take(n) =~= deltas);
    assert(deltas.drop_last() =~= deltas.take(n - 1));
}

/// After `break_casting`, the next call of `cast` opens a fresh window:
/// it does not resolve, and the progress is zero out of the new duration.
pub proof fn law_break_then_cast_is_fresh(m: CastModel, duration: u64, delta: u64)
    requires
        duration > 0,
    ensures
        !m.broken().casting(),
        !m.broken().resolves(duration as nat, delta as nat),
        m.broken().after_cast(duration as nat, delta as nat) == m.broken().begin(duration as nat),
        m.broken().after_cast(duration as nat, delta as nat).casting(),
        m.broken().after_cast(duration as nat, delta as nat).ratio() == (Ratio {
            numerator: 0,
            denominator: duration as i128,
        }),
        m.broken().cooldown == m.cooldown,
{
}

} // verus!

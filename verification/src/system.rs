use vstd::prelude::*;
use bevy::time::Timer;
use crate::battle::Stat;
use crate::clock::{
    timer_duration, timer_elapsed, timer_is_finished, timer_paused,
    timer_repeating, timer_repeats, timer_tick,
};
use crate::components::{CastingBar, CastingBarType, EntityId, HealthBar, HealthBarType};
use crate::geometry::Position;
use crate::monster::{spawn_monster, spawn_monster_model};
use crate::tree::AnimationIndices;
use crate::world::{World, WorldModel};

verus! {

/// The three layers of the health bar of the entity `id`.
pub open spec fn health_bars_of(id: EntityId) -> Seq<HealthBar> {
    seq![
        HealthBar { bar_type: HealthBarType::FRONT, target: Some(id) },
        HealthBar { bar_type: HealthBarType::ANIMATION, target: Some(id) },
        HealthBar { bar_type: HealthBarType::BACKGROUND, target: Some(id) },
    ]
}

/// The casting bar of the entity `id`.
pub open spec fn casting_bar_of(id: EntityId) -> CastingBar {
    CastingBar { bar_type: CastingBarType::FRONT, target: Some(id) }
}

/// Binds a health bar of three layers to the entity `id`.
pub fn spawn_healthbar(world: &mut World, id: EntityId)
    ensures
        old(world)@.wf() ==> final(world)@.wf(),
        final(world)@ == (WorldModel {
            health_bars: old(world)@.health_bars + health_bars_of(id),
            ..old(world)@
        }),
        final(world).entities == old(world).entities,
{
    world.health_bars.push(HealthBar { bar_type: HealthBarType::FRONT, target: Some(id) });
    world.health_bars.push(HealthBar { bar_type: HealthBarType::ANIMATION, target: Some(id) });
    world.health_bars.push(HealthBar { bar_type: HealthBarType::BACKGROUND, target: Some(id) });
    assert(final(world)@.health_bars =~= old(world)@.health_bars + health_bars_of(id));
}

/// Binds a casting bar to the entity `id`.
pub fn spawn_castingbar(world: &mut World, id: EntityId)
    ensures
        old(world)@.wf() ==> final(world)@.wf(),
        final(world)@ == (WorldModel {
            casting_bars: old(world)@.casting_bars.push(casting_bar_of(id)),
            ..old(world)@
        }),
        final(world).entities == old(world).entities,
{
    world.casting_bars.push(CastingBar { bar_type: CastingBarType::FRONT, target: Some(id) });
}

/// The longest round of a timer, in microseconds.
pub open spec fn longest_round() -> u64 {
    (u64::MAX / 1000) as u64
}

/// What ticking does to the time counted in a round of `period`: it grows
/// by `step` while it stays below `period`, and wraps round when it gets
/// there.
pub open spec fn wrapped(elapsed: nat, step: nat, period: nat) -> nat {
    if elapsed + step < period {
        elapsed + step
    } else if period == 0 {
        0
    } else {
        (elapsed + step) % period
    }
}

/// A repeating timer is sound: it runs, and it has counted no more than its
/// round is long.
spec fn timer_sound(t: Timer) -> bool {
    &&& timer_repeats(t)
    &&& !timer_paused(t)
    &&& timer_elapsed(t) <= timer_duration(t) <= u64::MAX
}

/// Ticks a sound repeating timer and says whether it finished a round.
fn tick_round(t: &mut Timer, delta: u64) -> (fired: bool)
    requires
        timer_sound(*old(t)),
    ensures
        timer_sound(*final(t)),
        timer_duration(*final(t)) == timer_duration(*old(t)),
        fired == (timer_elapsed(*old(t)) + delta * 1000 >= timer_duration(*old(t))),
        timer_elapsed(*final(t)) == wrapped(
            timer_elapsed(*old(t)),
            (delta * 1000) as nat,
            timer_duration(*old(t)),
        ),
    no_unwind
{
    proof {
        let sum = timer_elapsed(*t) + delta * 1000;
        let period = timer_duration(*t) as int;
        if sum >= period && period > 0 {
            assert(0 <= sum % period < period) by (nonlinear_arith)
                requires
                    period > 0,
            ;
        }
    }
    timer_tick(t, delta);
    timer_is_finished(t)
}

/// The timer that paces the spawning of monsters. Times are nanoseconds.
pub struct SpawnTimer(Timer);

impl SpawnTimer {
    #[verifier::type_invariant]
    spec fn inv(self) -> bool {
        timer_sound(self.0)
    }

    /// The length of a round.
    pub closed spec fn period(self) -> nat {
        timer_duration(self.0)
    }

    /// The time counted in the current round.
    pub closed spec fn elapsed(self) -> nat {
        timer_elapsed(self.0)
    }

    /// A tick of `delta` microseconds finishes a round.
    pub open spec fn fires(self, delta: u64) -> bool {
        self.elapsed() + delta * 1000 >= self.period()
    }

    /// Ticks the timer by `delta` microseconds; true when a round is
    /// finished by this tick.
    pub fn tick(&mut self, delta: u64) -> (fired: bool)
        ensures
            fired == old(self).fires(delta),
            final(self).period() == old(self).period(),
            final(self).elapsed() == wrapped(
                old(self).elapsed(),
                (delta * 1000) as nat,
                old(self).period(),
            ),
    {
        proof {
            use_type_invariant(&*self);
        }
        tick_round(&mut self.0, delta)
    }
}

/// A timer that fires every `micros` microseconds, counted from now.
pub fn spawn_timer(micros: u64) -> (t: SpawnTimer)
    requires
        micros <= longest_round(),
    ensures
        t.period() == micros * 1000,
        t.elapsed() == 0,
{
    SpawnTimer(timer_repeating(micros))
}

/// The timer that paces an animation. Times are nanoseconds.
pub struct AnimationTimer(Timer);

impl AnimationTimer {
    #[verifier::type_invariant]
    spec fn inv(self) -> bool {
        timer_sound(self.0)
    }

    /// The length of a round.
    pub closed spec fn period(self) -> nat {
        timer_duration(self.0)
    }

    /// The time counted in the current round.
    pub closed spec fn elapsed(self) -> nat {
        timer_elapsed(self.0)
    }

    /// A tick of `delta` microseconds finishes a round.
    pub open spec fn fires(self, delta: u64) -> bool {
        self.elapsed() + delta * 1000 >= self.period()
    }

    /// A timer that fires every `micros` microseconds, counted from now.
    pub fn new(micros: u64) -> (t: Self)
        requires
            micros <= longest_round(),
        ensures
            t.period() == micros * 1000,
            t.elapsed() == 0,
    {
        AnimationTimer(timer_repeating(micros))
    }

    /// Ticks the timer by `delta` microseconds; true when a round is
    /// finished by this tick.
    pub fn tick(&mut self, delta: u64) -> (fired: bool)
        ensures
            fired == old(self).fires(delta),
            final(self).period() == old(self).period(),
            final(self).elapsed() == wrapped(
                old(self).elapsed(),
                (delta * 1000) as nat,
                old(self).period(),
            ),
    {
        proof {
            use_type_invariant(&*self);
        }
        tick_round(&mut self.0, delta)
    }
}

/// Advances an animation by `delta` microseconds: the frame after `index`
/// when the timer finishes a round, else `index`.
pub fn animate_sprite(
    indices: &AnimationIndices,
    timer: &mut AnimationTimer,
    index: usize,
    delta: u64,
) -> (frame: usize)
    ensures
        frame == if old(timer).fires(delta) {
            indices.following(index)
        } else {
            index
        },
        final(timer).period() == old(timer).period(),
        final(timer).elapsed() == wrapped(
            old(timer).elapsed(),
            (delta * 1000) as nat,
            old(timer).period(),
        ),
{
    if timer.tick(delta) {
        indices.next(index)
    } else {
        index
    }
}

/// A number from the generator of the running thread, which the system
/// seeds: `Rng::gen` on `rand::thread_rng()`. Nothing is known of it.
#[verifier::external_body]
fn random_number() -> (r: u32) {
    rand::Rng::gen::<u32>(&mut rand::thread_rng())
}

/// The stat block of a monster that spawns by itself: twenty units a
/// second, thirty points of health, a detect range of five thousand units
/// and an attack range of fifty.
pub open spec fn wild_stat() -> Stat {
    Stat {
        speed: 20_000,
        hp: crate::battle::Health { current: 30, max: 30 },
        level: 1,
        detect_range: 5_000_000,
        attack_range: 50_000,
    }
}

/// Where a monster spawns for the two drawn numbers: inside the square of
/// five hundred units that begins four hundred units along the x axis.
pub open spec fn wild_position(rx: u32, ry: u32) -> Position {
    Position { x: (400_000 + rx % 500_000) as i32, y: (ry % 500_000) as i32 }
}

/// The name of a monster that spawns by itself.
pub open spec fn wild_name() -> Seq<char> {
    "Devil Cruise"@
}

/// Puts a monster into the arena at the place that the drawn numbers `rx`
/// and `ry` stand for.
pub fn spawn_wild_monster(world: &mut World, rx: u32, ry: u32) -> (id: EntityId)
    requires
        old(world).next_id < u64::MAX,
    ensures
        id == old(world).next_id,
        exists|name: String|
            name@ == wild_name() && final(world)@ == spawn_monster_model(
                old(world)@,
                name,
                wild_stat(),
                wild_position(rx, ry),
            ),
        old(world)@.wf() ==> final(world)@.wf() && !old(world)@.contains(id),
        final(world)@.contains(id),
        forall|other: EntityId|
            other != id ==> final(world)@.contains(other) == old(world)@.contains(other),
{
    let name = "Devil Cruise".to_owned();
    let stat = Stat::new(20_000, 30, 1, 5_000_000, 50_000);
    let position = Position { x: (400_000 + rx % 500_000) as i32, y: (ry % 500_000) as i32 };
    let ghost given = name;
    let id = spawn_monster(world, name, stat, position);
    assert(given@ == wild_name() && world@ == spawn_monster_model(
        old(world)@,
        given,
        wild_stat(),
        wild_position(rx, ry),
    ));
    id
}

/// Ticks the spawn timer by `delta` microseconds and, when it fires, puts
/// a monster into the arena at a place drawn at random. Nothing is spawned
/// when the arena has no identifier left to hand out.
pub fn random_spawn_monster(world: &mut World, timer: &mut SpawnTimer, delta: u64) -> (spawned:
    Option<EntityId>)
    ensures
        spawned.is_some() == (old(timer).fires(delta) && old(world).next_id < u64::MAX),
        spawned.is_some() ==> spawned == Some(old(world).next_id) && exists|
            name: String,
            rx: u32,
            ry: u32,
        |
            name@ == wild_name() && final(world)@ == spawn_monster_model(
                old(world)@,
                name,
                wild_stat(),
                wild_position(rx, ry),
            ),
        spawned.is_none() ==> *final(world) == *old(world),
        old(world)@.wf() ==> final(world)@.wf(),
        final(timer).period() == old(timer).period(),
        final(timer).elapsed() == wrapped(
            old(timer).elapsed(),
            (delta * 1000) as nat,
            old(timer).period(),
        ),
{
    if timer.tick(delta) && world.next_id < u64::MAX {
        let rx = random_number();
        let ry = random_number();
        Some(spawn_wild_monster(world, rx, ry))
    } else {
        None
    }
}

} // verus!

use vstd::prelude::*;

verus! {

/// `bevy::time::Stopwatch`, taken as it is: a count of time and a pause flag.
#[verifier::external_type_specification]
#[verifier::external_body]
pub struct ExStopwatch(bevy::time::Stopwatch);

/// The time a stopwatch has counted, in whole microseconds.
pub uninterp spec fn stopwatch_elapsed(sw: bevy::time::Stopwatch) -> nat;

/// Whether a stopwatch is paused.
pub uninterp spec fn stopwatch_paused(sw: bevy::time::Stopwatch) -> bool;

/// `Stopwatch::new`: a running stopwatch that has counted nothing.
#[verifier::external_body]
pub(crate) fn stopwatch_new() -> (sw: bevy::time::Stopwatch)
    ensures
        stopwatch_elapsed(sw) == 0,
        !stopwatch_paused(sw),
{
    bevy::time::Stopwatch::new()
}

/// `Stopwatch::elapsed`, read in whole microseconds.
#[verifier::external_body]
pub(crate) fn stopwatch_read(sw: &bevy::time::Stopwatch) -> (micros: u128)
    ensures
        micros == stopwatch_elapsed(*sw),
    no_unwind
{
    sw.elapsed().as_micros()
}

/// `Stopwatch::paused`.
#[verifier::external_body]
pub(crate) fn stopwatch_is_paused(sw: &bevy::time::Stopwatch) -> (paused: bool)
    ensures
        paused == stopwatch_paused(*sw),
    no_unwind
{
    sw.paused()
}

/// `Stopwatch::tick`: a running stopwatch counts `delta` microseconds more, a
/// paused one stays as it is. The addition panics past the largest duration,
/// so the sum is kept within 64 bits of microseconds.
#[verifier::external_body]
pub(crate) fn stopwatch_tick(sw: &mut bevy::time::Stopwatch, delta: u64)
    requires
        stopwatch_paused(*old(sw)) || stopwatch_elapsed(*old(sw)) + delta <= u64::MAX,
    ensures
        stopwatch_paused(*final(sw)) == stopwatch_paused(*old(sw)),
        stopwatch_paused(*old(sw)) ==> stopwatch_elapsed(*final(sw)) == stopwatch_elapsed(
            *old(sw),
        ),
        !stopwatch_paused(*old(sw)) ==> stopwatch_elapsed(*final(sw)) == stopwatch_elapsed(
            *old(sw),
        ) + delta,
    no_unwind
{
    sw.tick(std::time::Duration::from_micros(delta));
}

/// `Stopwatch::set_elapsed`: the count becomes `micros`, the pause flag stays.
#[verifier::external_body]
pub(crate) fn stopwatch_set_elapsed(sw: &mut bevy::time::Stopwatch, micros: u64)
    ensures
        stopwatch_paused(*final(sw)) == stopwatch_paused(*old(sw)),
        stopwatch_elapsed(*final(sw)) == micros,
    no_unwind
{
    sw.set_elapsed(std::time::Duration::from_micros(micros));
}

/// `Stopwatch::reset`: the count becomes zero, the pause flag stays.
#[verifier::external_body]
pub(crate) fn stopwatch_reset(sw: &mut bevy::time::Stopwatch)
    ensures
        stopwatch_paused(*final(sw)) == stopwatch_paused(*old(sw)),
        stopwatch_elapsed(*final(sw)) == 0,
    no_unwind
{
    sw.reset();
}

/// `Stopwatch::pause`: the stopwatch is paused, the count stays.
#[verifier::external_body]
pub(crate) fn stopwatch_pause(sw: &mut bevy::time::Stopwatch)
    ensures
        stopwatch_paused(*final(sw)),
        stopwatch_elapsed(*final(sw)) == stopwatch_elapsed(*old(sw)),
    no_unwind
{
    sw.pause();
}

/// `Stopwatch::unpause`: the stopwatch runs, the count stays.
#[verifier::external_body]
pub(crate) fn stopwatch_unpause(sw: &mut bevy::time::Stopwatch)
    ensures
        !stopwatch_paused(*final(sw)),
        stopwatch_elapsed(*final(sw)) == stopwatch_elapsed(*old(sw)),
    no_unwind
{
    sw.unpause();
}

/// `bevy::time::Timer`, taken as it is: a stopwatch with a round to count.
#[verifier::external_type_specification]
#[verifier::external_body]
pub struct ExTimer(bevy::time::Timer);

/// The time a timer has counted in its current round, in nanoseconds.
pub uninterp spec fn timer_elapsed(t: bevy::time::Timer) -> nat;

/// The length of a timer's round, in nanoseconds.
pub uninterp spec fn timer_duration(t: bevy::time::Timer) -> nat;

/// Whether a timer finished a round on its last tick.
pub uninterp spec fn timer_finished(t: bevy::time::Timer) -> bool;

/// Whether a timer is paused.
pub uninterp spec fn timer_paused(t: bevy::time::Timer) -> bool;

/// Whether a timer starts a new round when one is finished.
pub uninterp spec fn timer_repeats(t: bevy::time::Timer) -> bool;

/// `Timer::new` in the repeating mode, for rounds of `micros` microseconds:
/// a running timer that has counted nothing and finished nothing.
#[verifier::external_body]
pub(crate) fn timer_repeating(micros: u64) -> (t: bevy::time::Timer)
    ensures
        timer_elapsed(t) == 0,
        timer_duration(t) == micros * 1000,
        !timer_finished(t),
        !timer_paused(t),
        timer_repeats(t),
{
    bevy::time::Timer::new(
        std::time::Duration::from_micros(micros),
        bevy::time::TimerMode::Repeating,
    )
}

/// `Timer::tick` on a running, repeating timer, by `delta` microseconds.
/// The timer is finished when the time counted, with `delta` added, reaches
/// the length of the round; it then keeps what is left over after whole
/// rounds, and nothing when the round has no length. The left-over is cut
/// to 64 bits of nanoseconds, so the round is kept within them.
#[verifier::external_body]
pub(crate) fn timer_tick(t: &mut bevy::time::Timer, delta: u64)
    requires
        timer_repeats(*old(t)),
        !timer_paused(*old(t)),
        timer_elapsed(*old(t)) <= u64::MAX,
        timer_duration(*old(t)) <= u64::MAX,
    ensures
        timer_repeats(*final(t)),
        !timer_paused(*final(t)),
        timer_duration(*final(t)) == timer_duration(*old(t)),
        timer_finished(*final(t)) == (timer_elapsed(*old(t)) + delta * 1000 >= timer_duration(
            *old(t),
        )),
        timer_elapsed(*final(t)) == if timer_elapsed(*old(t)) + delta * 1000 < timer_duration(
            *old(t),
        ) {
            timer_elapsed(*old(t)) + delta * 1000
        } else if timer_duration(*old(t)) == 0 {
            0
        } else {
            (timer_elapsed(*old(t)) + delta * 1000) % (timer_duration(*old(t)) as int)
        },
    no_unwind
{
    t.tick(std::time::Duration::from_micros(delta));
}

/// `Timer::finished`.
#[verifier::external_body]
pub(crate) fn timer_is_finished(t: &bevy::time::Timer) -> (finished: bool)
    ensures
        finished == timer_finished(*t),
    no_unwind
{
    t.finished()
}

} // verus!

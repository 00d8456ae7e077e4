use vstd::prelude::*;
use crate::timer::TimerQueue;

verus! {

/// Timer deadlines count milliseconds.
pub const MILLIS_PER_SEC: u64 = 1000;

/// A random sleep lasts a whole number of seconds below this bound.
pub const RANDOM_SLEEP_SECS: u64 = 5;

/// Relies on rand::Rng::gen_range on rand::thread_rng(): a value drawn from
/// `0..bound`. It panics on an empty range, which `requires` rules out.
#[verifier::external_body]
fn draw_below(bound: u64) -> (r: u64)
    requires
        bound >= 1,
    ensures
        r < bound,
{
    rand::Rng::gen_range(&mut rand::thread_rng(), 0..bound)
}

/// Arms a timer so that `task` sleeps `secs` seconds from `now` (in
/// milliseconds); returns the deadline.
pub fn sleep_for_secs(timers: &mut TimerQueue, task: u64, now: u64, secs: u64) -> (r: u64)
    requires
        old(timers).wf(),
        now + secs * MILLIS_PER_SEC <= u64::MAX,
    ensures
        r == now + secs * MILLIS_PER_SEC,
        final(timers).wf(),
        final(timers).tick_spec() == old(timers).tick_spec(),
        final(timers).entries() == old(timers).entries().push((r, task)),
{
    let deadline = now + secs * MILLIS_PER_SEC;
    timers.register(deadline, task);
    deadline
}

/// Makes `task` sleep a random whole number of seconds below
/// `RANDOM_SLEEP_SECS`, starting at `now`; returns the deadline.
pub fn sleep_random(timers: &mut TimerQueue, task: u64, now: u64) -> (r: u64)
    requires
        old(timers).wf(),
        now + (RANDOM_SLEEP_SECS - 1) * MILLIS_PER_SEC <= u64::MAX,
    ensures
        now <= r <= now + (RANDOM_SLEEP_SECS - 1) * MILLIS_PER_SEC,
        (r - now) % (MILLIS_PER_SEC as int) == 0,
        final(timers).wf(),
        final(timers).tick_spec() == old(timers).tick_spec(),
        final(timers).entries() == old(timers).entries().push((r, task)),
{
    let secs = draw_below(RANDOM_SLEEP_SECS);
    let r = sleep_for_secs(timers, task, now, secs);
    assert((secs * MILLIS_PER_SEC) % (MILLIS_PER_SEC as int) == 0) by (nonlinear_arith);
    r
}

} // verus!

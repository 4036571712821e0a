//! The arithmetic of the recurring maintenance tasks: when a task is due
//! and how long its runner sleeps.  The timers themselves run outside the
//! library.

use vstd::prelude::*;

verus! {

/// Milliseconds a runner sleeps at least, so that a clock hiccup cannot
/// spin it.
pub const MIN_SLEEP_MILLIS: u64 = 1000;

/// Whether a task that last ran at `last` is due again at `now`, with
/// `period` between runs.
pub fn task_due(now: u64, last: u64, period: u64) -> (r: bool)
    ensures
        r == (now >= last && now - last >= period),
{
    now >= last && now - last >= period
}

/// How long to sleep until the next run: the time to `last + period`, and
/// at least the minimum.
pub fn sleep_millis(now: u64, last: u64, period: u64) -> (r: u64)
    ensures
        ({
            let next = if last + period <= u64::MAX {
                last + period
            } else {
                u64::MAX as int
            };
            r as int == if next - now >= MIN_SLEEP_MILLIS {
                next - now
            } else {
                MIN_SLEEP_MILLIS as int
            }
        }),
{
    let next = if u64::MAX - last >= period {
        last + period
    } else {
        u64::MAX
    };
    if next >= now && next - now >= MIN_SLEEP_MILLIS {
        next - now
    } else {
        MIN_SLEEP_MILLIS
    }
}

} // verus!

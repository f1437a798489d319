//! Reconnect backoff for the watcher threads (clipboard and file).

use vstd::prelude::*;

verus! {

/// A span of time in nanoseconds.
pub type Nanos = u128;

/// One second.
pub const SECOND: Nanos = 1_000_000_000;

/// The longest span that a clock reports: a `u64` of seconds and a rest below one
/// second.
pub const LONGEST: Nanos = 18_446_744_073_709_551_615_999_999_999;

/// The shortest delay before a watcher is restarted.
pub const RESTART_MIN: Nanos = 1_000_000_000;

/// The longest delay before a watcher is restarted.
pub const RESTART_MAX: Nanos = 30_000_000_000;

/// A run shorter than this counts as a failure and escalates the backoff.
pub const RESTART_STABLE_AFTER: Nanos = 5_000_000_000;

/// The delay after a run: doubled up to `max` after a short one, back at `min`
/// after one of at least `stable_after`.
pub open spec fn delay_after(
    prev: nat,
    ran_for: nat,
    min: nat,
    max: nat,
    stable_after: nat,
) -> nat {
    if ran_for < stable_after {
        if prev * 2 <= max {
            prev * 2
        } else {
            max
        }
    } else {
        min
    }
}

/// [`next_delay`] under the shared watcher restart policy.
pub fn restart_delay(prev: Nanos, ran_for: Nanos) -> (r: Nanos)
    requires
        ran_for < RESTART_STABLE_AFTER ==> prev * 2 <= LONGEST,
    ensures
        r == delay_after(
            prev as nat,
            ran_for as nat,
            RESTART_MIN as nat,
            RESTART_MAX as nat,
            RESTART_STABLE_AFTER as nat,
        ),
{
    next_delay(prev, ran_for, RESTART_MIN, RESTART_MAX, RESTART_STABLE_AFTER)
}

/// Exponential backoff with a ceiling, reset to the minimum once a run lasted long
/// enough to look healthy. `prev` is the last delay, `ran_for` how long the
/// just-ended run lived.
pub fn next_delay(
    prev: Nanos,
    ran_for: Nanos,
    min: Nanos,
    max: Nanos,
    stable_after: Nanos,
) -> (r: Nanos)
    requires
        ran_for < stable_after ==> prev * 2 <= LONGEST,
    ensures
        r == delay_after(
            prev as nat,
            ran_for as nat,
            min as nat,
            max as nat,
            stable_after as nat,
        ),
{
    if ran_for < stable_after {
        let doubled: Nanos = prev * 2;
        if doubled <= max {
            doubled
        } else {
            max
        }
    } else {
        min
    }
}

/// The delay after `n` runs in a row that were all too short, from `start` on.
pub open spec fn delay_after_failures(start: nat, n: nat, min: nat, max: nat) -> nat
    decreases n,
{
    if n == 0 {
        start
    } else {
        delay_after(delay_after_failures(start, (n - 1) as nat, min, max), 0, min, max, 1)
    }
}

/// Delays stay between the minimum and the ceiling, however the runs go.
pub proof fn delay_stays_in_bounds(
    prev: nat,
    ran_for: nat,
    min: nat,
    max: nat,
    stable_after: nat,
)
    requires
        min <= prev <= max,
    ensures
        min <= delay_after(prev, ran_for, min, max, stable_after) <= max,
{
}

/// Short runs never shorten the delay.
pub proof fn failures_never_shorten_the_delay(start: nat, n: nat, min: nat, max: nat)
    requires
        min <= start <= max,
    ensures
        delay_after_failures(start, n, min, max) <= delay_after_failures(start, n + 1, min, max),
        delay_after_failures(start, n + 1, min, max) <= max,
    decreases n,
{
    if n > 0 {
        failures_never_shorten_the_delay(start, (n - 1) as nat, min, max);
    }
}

/// A run that lasted long enough resets the delay, whatever it was.
pub proof fn a_stable_run_resets_the_delay(
    prev: nat,
    ran_for: nat,
    min: nat,
    max: nat,
    stable_after: nat,
)
    requires
        ran_for >= stable_after,
    ensures
        delay_after(prev, ran_for, min, max, stable_after) == min,
{
}

} // verus!

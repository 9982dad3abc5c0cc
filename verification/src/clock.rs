//! Time, counted in nanoseconds from a fixed origin.

use vstd::prelude::*;

verus! {

/// One millisecond.
pub const MILLISECOND: u64 = 1_000_000;

/// One second.
pub const SECOND: u64 = 1_000_000_000;

/// One minute.
pub const MINUTE: u64 = 60_000_000_000;

/// How long an ephemeral root survives without activity.
pub const EPHEMERAL_ROOT_IDLE_TIMEOUT: u64 = 420_000_000_000;

/// How often idle ephemeral roots are swept.
pub const EPHEMERAL_ROOT_SWEEP_INTERVAL: u64 = 60_000_000_000;

/// How long a kept worktree stays mounted without activity.
pub const WORKTREE_KEPT_COUNTDOWN: u64 = 420_000_000_000;

/// How often the worktree roots are checked against the disk.
pub const WORKTREE_ROOT_GC_INTERVAL: u64 = 3_600_000_000_000;

/// How long the daemon waits for a client to come back after the last one left.
pub const DISCONNECT_GRACE: u64 = 60_000_000_000;

/// How long a staged handoff waits for its consumer.
pub const HANDOFF_TIMEOUT: u64 = 10_000_000_000;

/// The time from `last` to `now`, nothing where `last` is not in the past.
pub open spec fn elapsed(now: u64, last: u64) -> u64 {
    if now >= last {
        (now - last) as u64
    } else {
        0
    }
}

/// The time from `last` to `now`, nothing where `last` is not in the past.
pub fn elapsed_since(now: u64, last: u64) -> (r: u64)
    ensures
        r == elapsed(now, last),
{
    if now >= last {
        now - last
    } else {
        0
    }
}

} // verus!

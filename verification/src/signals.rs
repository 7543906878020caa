//! The decision half of signal handling: a host records arriving signals as
//! bits in a pending flag; the engine maps the swapped-out flag to the
//! signal number to act on. Blocking, unblocking and delivery stay with the
//! host.

use vstd::prelude::*;

verus! {

/// The pending-flag bit for an interrupt signal.
pub const SIGINT_BIT: u8 = 1;

/// The pending-flag bit for a hangup signal.
pub const SIGHUP_BIT: u8 = 2;

/// The pending-flag bit for a termination signal.
pub const SIGTERM_BIT: u8 = 4;

/// The operating system's number for an interrupt signal.
pub const SIGINT_NUM: i32 = 2;

/// The operating system's number for a hangup signal.
pub const SIGHUP_NUM: i32 = 1;

/// The operating system's number for a termination signal.
pub const SIGTERM_NUM: i32 = 15;

/// The signal number a swapped-out pending flag stands for: nothing when no
/// signal is pending, else the number of the one recorded bit. A flag
/// outside the recorded set — several signals racing in between two polls —
/// also answers nothing, deliberately: such a flag is reachable at run time,
/// so treating it as unreachable would let a race take the host down.
pub open spec fn spec_pending_signal(flag: u8) -> Option<i32> {
    if flag == 0 {
        None
    } else if flag == SIGINT_BIT {
        Some(SIGINT_NUM)
    } else if flag == SIGHUP_BIT {
        Some(SIGHUP_NUM)
    } else if flag == SIGTERM_BIT {
        Some(SIGTERM_NUM)
    } else {
        None
    }
}

/// Maps a swapped-out pending flag to the signal to act on, as
/// [`spec_pending_signal`] describes.
pub fn pending_signal(flag: u8) -> (r: Option<i32>)
    ensures
        r == spec_pending_signal(flag),
{
    if flag == 0 {
        None
    } else if flag == SIGINT_BIT {
        Some(SIGINT_NUM)
    } else if flag == SIGHUP_BIT {
        Some(SIGHUP_NUM)
    } else if flag == SIGTERM_BIT {
        Some(SIGTERM_NUM)
    } else {
        None
    }
}

} // verus!

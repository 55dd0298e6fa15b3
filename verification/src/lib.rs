//! A cron-style task dispatcher core: a time-ordered task queue keyed by
//! Unix-second firing times, a cron-to-next-firing resolver, and the
//! decision logic of the pull/dispatch loop, all with verified contracts.

use vstd::prelude::*;

pub mod channel;
pub mod codec;
pub mod errors;
pub mod queue;
pub mod schedule;
pub mod task;
pub mod worker;

verus! {

/// Upper bound on reference instants handed to the schedule resolver,
/// chosen so that the instant is representable as a calendar date
/// (9999-12-31T23:59:59Z).
pub const MAX_CRON_REFERENCE: i64 = 253402300799;

/// Brings a clock reading into the range the resolver accepts.
pub fn clamp_reference(reference: i64) -> (r: i64)
    ensures
        0 <= r <= MAX_CRON_REFERENCE,
        0 <= reference <= MAX_CRON_REFERENCE ==> r == reference,
        reference < 0 ==> r == 0,
        reference > MAX_CRON_REFERENCE ==> r == MAX_CRON_REFERENCE,
{
    if reference < 0 {
        0
    } else if reference > MAX_CRON_REFERENCE {
        MAX_CRON_REFERENCE
    } else {
        reference
    }
}

} // verus!

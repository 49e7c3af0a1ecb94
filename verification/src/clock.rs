//! Times and spans of time, as counts of nanoseconds.

use vstd::prelude::*;

verus! {

/// A point in time: nanoseconds since an origin that one process keeps to.
pub type Moment = u128;

/// A span of time in nanoseconds.
pub type Nanos = u128;

/// How long traffic is remembered.
pub const WINDOW: Nanos = 10_000_000_000;

/// How long one bucket of traffic stays open.
pub const BUCKET_SPAN: Nanos = 1_000_000_000;

/// How long an unanswered ping keeps the next one back.
pub const PING_INTERVAL: Nanos = 1_000_000_000;

/// How long a peer may leave pings unanswered before it counts as timed out.
pub const PING_TIMEOUT: Nanos = 5_000_000_000;

/// The time from `earlier` to `now`; none if `earlier` is the later of the two.
pub open spec fn elapsed(now: Moment, earlier: Moment) -> Nanos {
    if now >= earlier {
        (now - earlier) as Nanos
    } else {
        0
    }
}

/// Measures the time from `earlier` to `now`; none if `earlier` is the later of
/// the two.
pub fn duration_since(now: Moment, earlier: Moment) -> (span: Nanos)
    ensures
        span == elapsed(now, earlier),
        now >= earlier ==> span == now - earlier,
        now < earlier ==> span == 0,
{
    if now >= earlier {
        now - earlier
    } else {
        0
    }
}

/// The time from one moment to a later one is what has to be added to the first to come
/// to the second; the time to an earlier moment is none.
pub proof fn lemma_elapsed(now: Moment, earlier: Moment)
    ensures
        earlier <= now ==> earlier + elapsed(now, earlier) == now,
        now <= earlier ==> elapsed(now, earlier) == 0,
{
}

} // verus!

//! Series of calls on diagnostics, from the first one on.

use vstd::prelude::*;

use crate::clock::{elapsed, Moment, Nanos};
use crate::diagnostics::{fresh_diagnostics, DiagnosticsView};
use crate::message::{OmniPeerId, Reliability};
use crate::traffic::{has_room, Total};

verus! {

/// A call that may change diagnostics.
pub enum Call {
    /// A message is recorded.
    Record {
        now: Moment,
        peer: OmniPeerId,
        category: Seq<char>,
        reliability: Reliability,
        len: nat,
    },
    /// A report is made.
    Report { peer: OmniPeerId, now: Moment },
    /// A ping is begun, or refused.
    Ping { peer: OmniPeerId, now: Moment },
    /// A pong is taken in.
    Pong { peer: OmniPeerId, nonce: u64, now: Moment },
}

/// Diagnostics after one call.
pub open spec fn after_call(diagnostics: DiagnosticsView, call: Call) -> DiagnosticsView {
    match call {
        Call::Record { now, peer, category, reliability, len } => diagnostics.after_record(
            now,
            peer,
            category,
            reliability,
            len,
        ),
        Call::Report { peer, now } => diagnostics.after_report(peer, now),
        Call::Ping { peer, now } => diagnostics.after_begin_ping(peer, now),
        Call::Pong { peer, nonce, now } => diagnostics.after_pong(peer, nonce, now),
    }
}

/// Fresh diagnostics after a series of calls.
pub open spec fn after_calls(calls: Seq<Call>) -> DiagnosticsView
    decreases calls.len(),
{
    if calls.len() == 0 {
        fresh_diagnostics()
    } else {
        after_call(after_calls(calls.drop_last()), calls.last())
    }
}

/// What the call at position `i` finds.
pub open spec fn before(calls: Seq<Call>, i: int) -> DiagnosticsView {
    after_calls(calls.take(i))
}

/// When a call counts a message to `peer`, if it does.
pub open spec fn counts_at(call: Call, peer: OmniPeerId) -> Option<Moment> {
    match call {
        Call::Record { now, peer: to, reliability: Reliability::Reliable, .. } if to == peer => {
            Some(now)
        },
        _ => None,
    }
}

/// Whether a call counts a message to `peer` under `category`.
pub open spec fn counts_under(call: Call, peer: OmniPeerId, category: Seq<char>) -> bool {
    counts_at(call, peer) is Some && call->category == category
}

/// Whether no counter ever leaves its range.
pub open spec fn in_range(calls: Seq<Call>) -> bool {
    forall|i: int|
        0 <= i < calls.len() ==> (#[trigger] calls[i] matches Call::Record {
            now,
            peer,
            category,
            reliability,
            len,
        } ==> reliability is Reliable ==> has_room(
            before(calls, i).peer(peer).buckets,
            now,
            category,
            len,
        ))
}

/// The categories of the messages to `peer` that were counted, in their order.
pub open spec fn counted_categories(calls: Seq<Call>, peer: OmniPeerId) -> Seq<Seq<char>>
    decreases calls.len(),
{
    if calls.len() == 0 {
        seq![]
    } else {
        let earlier = counted_categories(calls.drop_last(), peer);
        if counts_at(calls.last(), peer) is Some {
            earlier.push(calls.last()->category)
        } else {
            earlier
        }
    }
}

/// How many messages to `peer` were counted under `category`, and how many bytes they
/// took together.
pub open spec fn tally(calls: Seq<Call>, peer: OmniPeerId, category: Seq<char>) -> Total
    decreases calls.len(),
{
    if calls.len() == 0 {
        Total { messages: 0, bytes: 0 }
    } else {
        let earlier = tally(calls.drop_last(), peer, category);
        if counts_under(calls.last(), peer, category) {
            Total { messages: earlier.messages + 1, bytes: earlier.bytes + calls.last()->len }
        } else {
            earlier
        }
    }
}

/// The tally of every category that a message to `peer` was counted under.
pub open spec fn tallies(calls: Seq<Call>, peer: OmniPeerId) -> Map<Seq<char>, Total> {
    Map::new(
        |category: Seq<char>| counted_categories(calls, peer).contains(category),
        |category: Seq<char>| tally(calls, peer, category),
    )
}

/// The nonce that the call at position `i` gives out, if it begins a ping.
pub open spec fn ping_begun(calls: Seq<Call>, i: int) -> Option<u64> {
    match calls[i] {
        Call::Ping { peer, now } => before(calls, i).ping_outcome(peer, now),
        _ => None,
    }
}

/// How many pings were begun, to whichever peers.
pub open spec fn pings_begun(calls: Seq<Call>) -> nat
    decreases calls.len(),
{
    if calls.len() == 0 {
        0
    } else {
        pings_begun(calls.drop_last()) + if ping_begun(calls, calls.len() - 1) is Some {
            1nat
        } else {
            0nat
        }
    }
}

/// Whether the call at position `i` begins a ping to `peer`.
pub open spec fn begins_ping(calls: Seq<Call>, i: int, peer: OmniPeerId) -> bool {
    (calls[i] matches Call::Ping { peer: to, .. } && to == peer) && ping_begun(calls, i) is Some
}

/// Whether a call is a pong of `peer` with `nonce`.
pub open spec fn is_pong(call: Call, peer: OmniPeerId, nonce: u64) -> bool {
    call matches Call::Pong { peer: from, nonce: answered, .. } && from == peer && answered == nonce
}

/// Whether the call at position `i` begins the latest ping to `peer`, and no pong since has
/// answered it.
pub open spec fn unanswered_since(calls: Seq<Call>, i: int, peer: OmniPeerId) -> bool {
    &&& 0 <= i < calls.len()
    &&& begins_ping(calls, i, peer)
    &&& forall|j: int|
        i < j < calls.len() ==> !begins_ping(calls, j, peer) && !is_pong(
            #[trigger] calls[j],
            peer,
            ping_begun(calls, i)->0,
        )
}

/// Whether the call at position `i` is a pong of `peer` that answers the pending ping.
pub open spec fn is_answer(calls: Seq<Call>, i: int, peer: OmniPeerId) -> bool {
    &&& 0 <= i < calls.len()
    &&& calls[i] matches Call::Pong { peer: from, nonce, .. } && from == peer && before(
        calls,
        i,
    ).answers(peer, nonce)
}

/// How long the ping took that the answer at position `i` is to.
pub open spec fn answer_took(calls: Seq<Call>, i: int, peer: OmniPeerId) -> Nanos {
    elapsed(calls[i]->Pong_now, before(calls, i).peer(peer).pending_ping->0.sent_at)
}

/// Of the messages to `peer` that were recorded as sent reliably under `category`, not
/// before `from`: how many there were, and how many bytes they took together.
pub open spec fn tally_since(
    calls: Seq<Call>,
    peer: OmniPeerId,
    category: Seq<char>,
    from: int,
) -> Total
    decreases calls.len(),
{
    if calls.len() == 0 {
        Total { messages: 0, bytes: 0 }
    } else {
        let earlier = tally_since(calls.drop_last(), peer, category, from);
        match calls.last() {
            Call::Record { now, peer: to, category: under, reliability, len } => if to == peer
                && under == category && reliability is Reliable && from <= now {
                Total { messages: earlier.messages + 1, bytes: earlier.bytes + len }
            } else {
                earlier
            },
            _ => earlier,
        }
    }
}

/// Whether the clock did not go back between messages to `peer` that were recorded as sent
/// reliably, and neither they nor a report on `peer` came after `now`.
pub open spec fn clock_keeps_on(calls: Seq<Call>, peer: OmniPeerId, now: Moment) -> bool {
    &&& forall|i: int, j: int|
        0 <= i < j < calls.len() ==> (counts_at(#[trigger] calls[i], peer) matches Some(first)
            ==> counts_at(#[trigger] calls[j], peer) matches Some(second) ==> first <= second)
    &&& forall|i: int|
        0 <= i < calls.len() ==> (counts_at(#[trigger] calls[i], peer) matches Some(then)
            ==> then <= now)
    &&& forall|i: int|
        0 <= i < calls.len() ==> (#[trigger] calls[i] matches Call::Report { peer: on, now: then }
            ==> on == peer ==> then <= now)
}

/// Whether the call at position `at` is a pong of `peer` with the nonce of the latest ping to
/// it, begun at position `i`, which no pong before has answered.
pub open spec fn answers_ping(calls: Seq<Call>, at: int, i: int, peer: OmniPeerId) -> bool {
    &&& 0 <= at < calls.len()
    &&& unanswered_since(calls.take(at), i, peer)
    &&& is_pong(calls[at], peer, ping_begun(calls.take(at), i)->0)
}

} // verus!

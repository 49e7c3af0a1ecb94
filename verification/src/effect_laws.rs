//! What every call does to what is known, said of the values themselves: of times, counts,
//! bytes and nonces, and of what stays as it was.

use vstd::prelude::*;

use crate::clock::{Moment, BUCKET_SPAN, PING_INTERVAL, WINDOW};
use crate::diagnostics::{fresh_diagnostics, DiagnosticsView, PendingPing};
use crate::message::{OmniPeerId, Reliability};
use crate::ranking::{
    first_entries, lemma_ranked_falls, lemma_ranked_stable, ranked, TrafficSummary,
};
use crate::traffic::{
    counter_in, has_room, pruned, recorded, seen, total, totals_fit, BucketView, Counter, Total,
};
use crate::traffic_laws::lemma_pruned_is_suffix;

verus! {

/// Pruning takes buckets from the front, as long as they were opened more than the window
/// ago, and touches no other.
pub proof fn lemma_pruned_from_the_front(buckets: Seq<BucketView>, now: Moment) -> (dropped: int)
    ensures
        0 <= dropped <= buckets.len(),
        forall|i: int| 0 <= i < dropped ==> now - (#[trigger] buckets[i]).at > WINDOW,
        dropped < buckets.len() ==> now - buckets[dropped].at <= WINDOW,
        pruned(buckets, now).len() == buckets.len() - dropped,
        forall|i: int|
            0 <= i < buckets.len() - dropped ==> #[trigger] pruned(buckets, now)[i] == buckets[i
                + dropped],
{
    lemma_pruned_is_suffix(buckets, now)
}

/// Recording changes no bucket but the last, and of no bucket that was there when it was
/// opened. A bucket stays open for its span: within it, the message goes into the last
/// bucket; later, or where there is none, it goes into a new one that is opened with it.
pub proof fn lemma_recorded_in_last_bucket(
    buckets: Seq<BucketView>,
    now: Moment,
    category: Seq<char>,
    len: nat,
)
    ensures
        ({
            let kept = pruned(buckets, now);
            let after = recorded(buckets, now, category, len);
            &&& forall|i: int| 0 <= i < kept.len() ==> (#[trigger] after[i]).at == kept[i].at
            &&& forall|i: int|
                0 <= i < kept.len() && i < after.len() - 1 ==> #[trigger] after[i] == kept[i]
            &&& kept.len() > 0 && now - kept.last().at < BUCKET_SPAN ==> after.len()
                == kept.len()
            &&& kept.len() == 0 || now - kept.last().at >= BUCKET_SPAN ==> after.len()
                == kept.len() + 1 && after.last().at == now
        }),
{
    let kept = pruned(buckets, now);
    let after = recorded(buckets, now, category, len);
    assert forall|i: int| 0 <= i < kept.len() implies (#[trigger] after[i]).at == kept[i].at by {}
}

/// Recording counts one message more, and its bytes, under its category in the bucket that
/// it goes into, and touches no other category. A new bucket starts with that message.
pub proof fn lemma_recorded_counts_one(
    buckets: Seq<BucketView>,
    now: Moment,
    category: Seq<char>,
    len: nat,
)
    requires
        has_room(buckets, now, category, len),
    ensures
        ({
            let kept = pruned(buckets, now);
            let after = recorded(buckets, now, category, len).last().reliable;
            let found = kept.last().reliable;
            let joins = kept.len() > 0 && now - kept.last().at < BUCKET_SPAN;
            &&& after.contains_key(category)
            &&& joins && found.contains_key(category) ==> after[category].messages
                == found[category].messages + 1 && after[category].bytes == found[category].bytes
                + len
            &&& !joins || !found.contains_key(category) ==> after[category].messages == 1
                && after[category].bytes == len
            &&& forall|other: Seq<char>|
                other != category ==> (#[trigger] after.contains_key(other) <==> joins
                    && found.contains_key(other))
            &&& forall|other: Seq<char>|
                other != category && joins && #[trigger] found.contains_key(other)
                    ==> after[other] == found[other]
        }),
{
}

/// There is room for a message unless the counter that it goes to is used up, or would not
/// hold its bytes as well.
pub proof fn lemma_room(buckets: Seq<BucketView>, now: Moment, category: Seq<char>, len: nat)
    ensures
        ({
            let kept = pruned(buckets, now);
            let found = kept.last().reliable;
            let joins = kept.len() > 0 && now - kept.last().at < BUCKET_SPAN;
            &&& joins && found.contains_key(category) ==> (has_room(buckets, now, category, len)
                <==> found[category].messages + 1 <= u64::MAX && found[category].bytes + len
                <= u64::MAX)
            &&& !joins || !found.contains_key(category) ==> (has_room(buckets, now, category, len)
                <==> len <= u64::MAX)
        }),
{
}

/// The total over no buckets is nothing, and each bucket adds what it has counted.
pub proof fn lemma_total_adds_up(
    buckets: Seq<BucketView>,
    bucket: BucketView,
    category: Seq<char>,
)
    ensures
        total(seq![], category) == (Total { messages: 0, bytes: 0 }),
        bucket.reliable.contains_key(category) ==> total(buckets.push(bucket), category).messages
            == total(buckets, category).messages + bucket.reliable[category].messages && total(
            buckets.push(bucket),
            category,
        ).bytes == total(buckets, category).bytes + bucket.reliable[category].bytes,
        !bucket.reliable.contains_key(category) ==> total(buckets.push(bucket), category)
            == total(buckets, category),
        seen(buckets, category) <==> exists|i: int|
            0 <= i < buckets.len() && #[trigger] buckets[i].reliable.contains_key(category),
{
    assert(buckets.push(bucket).drop_last() =~= buckets);
}

/// A report can be made exactly where no total is more than a counter holds.
pub proof fn lemma_totals_fit(buckets: Seq<BucketView>)
    ensures
        totals_fit(buckets) <==> forall|category: Seq<char>|
            (#[trigger] total(buckets, category)).messages <= u64::MAX && total(
                buckets,
                category,
            ).bytes <= u64::MAX,
{
    if totals_fit(buckets) {
        assert forall|category: Seq<char>|
            (#[trigger] total(buckets, category)).messages <= u64::MAX && total(
                buckets,
                category,
            ).bytes <= u64::MAX by {}
    }
}

/// A counter that is not there yet stands at nothing; one that is there stands as it is.
pub proof fn lemma_counter_found(counters: Map<Seq<char>, Counter>, category: Seq<char>)
    ensures
        counters.contains_key(category) ==> counter_in(counters, category) == counters[category],
        !counters.contains_key(category) ==> counter_in(counters, category).messages == 0
            && counter_in(counters, category).bytes == 0,
{
}

/// A ranking has the summaries it was made of and no others, by falling number of bytes;
/// and of a ranking, the first entries are kept, as many as the limit allows.
pub proof fn lemma_ranking(summaries: Seq<TrafficSummary>, limit: nat)
    ensures
        ({
            let ranking = ranked(summaries);
            let top = first_entries(ranking, limit);
            &&& ranking.to_multiset() == summaries.to_multiset()
            &&& forall|i: int, j: int|
                0 <= i < j < ranking.len() ==> (#[trigger] ranking[i]).bytes >= (
                #[trigger] ranking[j]).bytes
            &&& limit < summaries.len() ==> top.len() == limit
            &&& limit >= summaries.len() ==> top.len() == summaries.len()
            &&& forall|i: int| 0 <= i < top.len() ==> #[trigger] top[i] == ranking[i]
        }),
{
    lemma_ranked_falls(summaries);
}

/// Of two summaries with the same number of bytes, the one that is listed first is ranked
/// first.
pub proof fn lemma_ranking_keeps_order(summaries: Seq<TrafficSummary>, bytes: u64)
    ensures
        ranked(summaries).filter(|summary: TrafficSummary| summary.bytes == bytes)
            == summaries.filter(|summary: TrafficSummary| summary.bytes == bytes),
{
    lemma_ranked_stable(summaries, bytes);
}

/// At the start no traffic, ping or answer is known of any peer, and the first nonce is
/// one.
pub proof fn lemma_fresh(peer: OmniPeerId, now: Moment)
    ensures
        fresh_diagnostics().peer(peer).buckets.len() == 0,
        fresh_diagnostics().peer(peer).pending_ping is None,
        fresh_diagnostics().summary(peer, now).rtt is None,
        fresh_diagnostics().summary(peer, now).last_seen_ago is None,
        fresh_diagnostics().next_ping_nonce == 1,
{
}

/// A message that is sent reliably is recorded in the buckets of its peer; nothing else of
/// that peer changes, no other peer does, nor the next nonce. One that is not sent reliably
/// changes nothing at all.
pub proof fn lemma_record_effect(
    diagnostics: DiagnosticsView,
    now: Moment,
    peer: OmniPeerId,
    category: Seq<char>,
    reliability: Reliability,
    len: nat,
)
    ensures
        ({
            let after = diagnostics.after_record(now, peer, category, reliability, len);
            let found = diagnostics.peer(peer);
            &&& reliability is Unreliable ==> after == diagnostics
            &&& reliability is Reliable ==> after.peer(peer).buckets == recorded(
                found.buckets,
                now,
                category,
                len,
            )
            &&& after.peer(peer).pending_ping == found.pending_ping
            &&& after.peer(peer).last_rtt == found.last_rtt
            &&& after.peer(peer).last_pong_at == found.last_pong_at
            &&& after.next_ping_nonce == diagnostics.next_ping_nonce
            &&& forall|other: OmniPeerId|
                other != peer ==> #[trigger] after.peer(other) == diagnostics.peer(other)
        }),
{
}

/// A report prunes the buckets of its peer, and changes nothing else.
pub proof fn lemma_report_effect(diagnostics: DiagnosticsView, peer: OmniPeerId, now: Moment)
    ensures
        ({
            let after = diagnostics.after_report(peer, now);
            let found = diagnostics.peer(peer);
            &&& after.peer(peer).buckets == pruned(found.buckets, now)
            &&& after.peer(peer).pending_ping == found.pending_ping
            &&& after.peer(peer).last_rtt == found.last_rtt
            &&& after.peer(peer).last_pong_at == found.last_pong_at
            &&& after.next_ping_nonce == diagnostics.next_ping_nonce
            &&& forall|other: OmniPeerId|
                other != peer ==> #[trigger] after.peer(other) == diagnostics.peer(other)
        }),
{
}

/// A ping is refused while one to the same peer that was sent less than the interval ago is
/// pending, and nothing changes then. Otherwise it gets the next nonce, which is used up,
/// and is the one that is pending from then on; nothing else changes.
pub proof fn lemma_ping_effect(diagnostics: DiagnosticsView, peer: OmniPeerId, now: Moment)
    ensures
        ({
            let after = diagnostics.after_begin_ping(peer, now);
            let found = diagnostics.peer(peer);
            let nonce = diagnostics.next_ping_nonce;
            let refused = found.pending_ping is Some && now - found.pending_ping->0.sent_at
                < PING_INTERVAL;
            &&& refused ==> diagnostics.ping_outcome(peer, now) is None && after == diagnostics
            &&& !refused ==> diagnostics.ping_outcome(peer, now) == Some(nonce)
            &&& !refused ==> after.peer(peer).pending_ping == Some(
                PendingPing { nonce, sent_at: now },
            )
            &&& !refused ==> after.next_ping_nonce == (nonce + 1) % 0x1_0000_0000_0000_0000
            &&& after.peer(peer).buckets == found.buckets
            &&& after.peer(peer).last_rtt == found.last_rtt
            &&& after.peer(peer).last_pong_at == found.last_pong_at
            &&& forall|other: OmniPeerId|
                other != peer ==> #[trigger] after.peer(other) == diagnostics.peer(other)
        }),
{
}

/// A pong with the nonce of the ping to its peer that is pending settles that ping: from
/// then on the round trip is the time from the ping to the pong, and the peer was last seen
/// when the pong came. Any other pong changes nothing.
pub proof fn lemma_pong_effect(
    diagnostics: DiagnosticsView,
    peer: OmniPeerId,
    nonce: u64,
    at: Moment,
    now: Moment,
)
    ensures
        ({
            let after = diagnostics.after_pong(peer, nonce, at);
            let found = diagnostics.peer(peer);
            let pending = found.pending_ping;
            let settled = pending is Some && pending->0.nonce == nonce;
            let summary = after.summary(peer, now);
            &&& !settled ==> after == diagnostics
            &&& settled ==> after.peer(peer).pending_ping is None
            &&& settled ==> summary.rtt is Some && summary.last_seen_ago is Some
            &&& settled && pending->0.sent_at <= at ==> summary.rtt->0 == at - pending->0.sent_at
            &&& settled && at < pending->0.sent_at ==> summary.rtt->0 == 0
            &&& settled && at <= now ==> summary.last_seen_ago->0 == now - at
            &&& settled && now < at ==> summary.last_seen_ago->0 == 0
            &&& after.peer(peer).buckets == found.buckets
            &&& after.next_ping_nonce == diagnostics.next_ping_nonce
            &&& forall|other: OmniPeerId|
                other != peer ==> #[trigger] after.peer(other) == diagnostics.peer(other)
        }),
{
}

/// The summary of a peer has the last round trip as it was measured, and the time since the
/// last answer, which is none where that is yet to come.
pub proof fn lemma_summary(diagnostics: DiagnosticsView, peer: OmniPeerId, now: Moment)
    ensures
        ({
            let summary = diagnostics.summary(peer, now);
            let found = diagnostics.peer(peer);
            &&& summary.rtt == found.last_rtt
            &&& found.last_pong_at is None ==> summary.last_seen_ago is None
            &&& found.last_pong_at matches Some(at) ==> summary.last_seen_ago is Some && (if at
                <= now {
                summary.last_seen_ago->0 == now - at
            } else {
                summary.last_seen_ago->0 == 0
            })
        }),
{
}

} // verus!

//! What reports count, said of the messages themselves: how long a message counts, and from
//! when on it does not.

use vstd::prelude::*;

use crate::clock::{elapsed, Moment, BUCKET_SPAN, WINDOW};
use crate::diagnostics_laws::all_spaced;
use crate::history::{after_calls, clock_keeps_on, counts_at, tally, tally_since, Call};
use crate::history_laws::{lemma_bucket_opened_by_message, lemma_history_spaced};
use crate::message::{OmniPeerId, Reliability};
use crate::ranking::TrafficSummary;
use crate::report_laws::lemma_top;
use crate::traffic::{
    counter_in, has_room, is_top, lemma_unseen_total, opened, pruned, recorded, seen, total,
    totals_fit, BucketView, Total,
};
use crate::traffic_laws::{
    counted, lemma_pruned_counted, lemma_pruned_is_suffix, lemma_recorded_counted,
    lemma_recorded_total, lemma_seen_total, well_spaced,
};

verus! {

/// What `category` comes to over the buckets that were opened at `from` or later.
spec fn total_since(buckets: Seq<BucketView>, category: Seq<char>, from: int) -> Total
    decreases buckets.len(),
{
    if buckets.len() == 0 {
        Total { messages: 0, bytes: 0 }
    } else {
        let earlier = total_since(buckets.drop_last(), category, from);
        let counter = counter_in(buckets.last().reliable, category);
        if from <= buckets.last().at {
            Total {
                messages: earlier.messages + counter.messages as nat,
                bytes: earlier.bytes + counter.bytes as nat,
            }
        } else {
            earlier
        }
    }
}

/// Buckets at the front that were opened before `from` do not matter.
proof fn lemma_total_since_skip(
    buckets: Seq<BucketView>,
    dropped: int,
    category: Seq<char>,
    from: int,
)
    requires
        0 <= dropped <= buckets.len(),
        forall|i: int| 0 <= i < dropped ==> (#[trigger] buckets[i]).at < from,
    ensures
        total_since(buckets.skip(dropped), category, from) == total_since(buckets, category, from),
    decreases buckets.len(),
{
    if buckets.len() > 0 {
        let rest = buckets.drop_last();
        if dropped == buckets.len() {
            assert(rest.skip(dropped - 1) =~= seq![]);
            assert(buckets.skip(dropped) =~= seq![]);
            assert(buckets[dropped - 1].at < from);
            lemma_total_since_skip(rest, dropped - 1, category, from);
        } else {
            assert(buckets.skip(dropped).drop_last() =~= rest.skip(dropped));
            assert(buckets.skip(dropped).last() == buckets.last());
            lemma_total_since_skip(rest, dropped, category, from);
        }
    } else {
        assert(buckets.skip(dropped) =~= buckets);
    }
}

/// Where every bucket was opened at `from` or later, all of them matter.
proof fn lemma_total_since_all(buckets: Seq<BucketView>, category: Seq<char>, from: int)
    requires
        forall|i: int| 0 <= i < buckets.len() ==> from <= (#[trigger] buckets[i]).at,
    ensures
        total_since(buckets, category, from) == total(buckets, category),
    decreases buckets.len(),
{
    if buckets.len() > 0 {
        assert(from <= buckets[buckets.len() - 1].at);
        assert forall|i: int| 0 <= i < buckets.len() - 1 implies from <= (
        #[trigger] buckets.drop_last()[i]).at by {
            assert(buckets.drop_last()[i] == buckets[i]);
        }
        lemma_total_since_all(buckets.drop_last(), category, from);
    }
}

/// A total never rises when buckets are taken from the front.
proof fn lemma_total_of_suffix(buckets: Seq<BucketView>, dropped: int, category: Seq<char>)
    requires
        0 <= dropped <= buckets.len(),
    ensures
        total(buckets.skip(dropped), category).messages <= total(buckets, category).messages,
        total(buckets.skip(dropped), category).bytes <= total(buckets, category).bytes,
    decreases buckets.len(),
{
    if dropped < buckets.len() {
        let rest = buckets.drop_last();
        assert(buckets.skip(dropped).drop_last() =~= rest.skip(dropped));
        assert(buckets.skip(dropped).last() == buckets.last());
        lemma_total_of_suffix(rest, dropped, category);
    } else {
        assert(buckets.skip(dropped) =~= seq![]);
    }
}

/// Pruning never raises a total, and at `now` or before it does not touch what was opened
/// in the window that ends at `now`.
proof fn lemma_pruned_totals(
    buckets: Seq<BucketView>,
    then: Moment,
    now: Moment,
    category: Seq<char>,
)
    requires
        then <= now,
    ensures
        total(pruned(buckets, then), category).messages <= total(buckets, category).messages,
        total(pruned(buckets, then), category).bytes <= total(buckets, category).bytes,
        total_since(pruned(buckets, then), category, now - WINDOW) == total_since(
            buckets,
            category,
            now - WINDOW,
        ),
{
    let dropped = lemma_pruned_is_suffix(buckets, then);
    lemma_total_of_suffix(buckets, dropped, category);
    assert forall|i: int| 0 <= i < dropped implies (#[trigger] buckets[i]).at < now - WINDOW by {}
    lemma_total_since_skip(buckets, dropped, category, now - WINDOW);
}

/// Where a sum of all that was recorded stays within the range of a counter, there is room
/// for the next message.
proof fn lemma_room_within(buckets: Seq<BucketView>, then: Moment, category: Seq<char>, len: nat)
    requires
        total(buckets, category).messages + 1 <= u64::MAX,
        total(buckets, category).bytes + len <= u64::MAX,
    ensures
        has_room(buckets, then, category, len),
{
    let kept = pruned(buckets, then);
    lemma_pruned_totals(buckets, then, then, category);
    if kept.len() == 0 || elapsed(then, kept.last().at) >= BUCKET_SPAN {
        assert(opened(buckets, then).last().reliable =~= Map::empty());
    }
}

/// Recording a message at `then` adds it to what was opened in the window that ends at
/// `now`, where the bucket that it goes into was, and changes nothing of it otherwise.
proof fn lemma_recorded_total_since(
    buckets: Seq<BucketView>,
    then: Moment,
    category: Seq<char>,
    len: nat,
    now: Moment,
    other: Seq<char>,
)
    requires
        has_room(buckets, then, category, len),
        then <= now,
    ensures
        ({
            let from = now - WINDOW;
            let after = recorded(buckets, then, category, len);
            let before = total_since(buckets, other, from);
            total_since(after, other, from) == (if other == category && from <= after.last().at {
                Total { messages: before.messages + 1, bytes: before.bytes + len }
            } else {
                before
            })
        }),
{
    let from = now - WINDOW;
    let kept = pruned(buckets, then);
    let found = opened(buckets, then);
    let after = recorded(buckets, then, category, len);
    lemma_pruned_totals(buckets, then, now, other);
    assert(total_since(found, other, from) == total_since(kept, other, from)) by {
        if found.len() > kept.len() {
            assert(found.drop_last() =~= kept);
        }
    }
    assert(after.drop_last() =~= found.drop_last());
    assert(after.last().at == found.last().at);
}

/// A series of calls is in order, and its sums stay within the range of a counter, without
/// its last call as well.
proof fn lemma_shorter_series(calls: Seq<Call>, peer: OmniPeerId, now: Moment)
    requires
        calls.len() > 0,
        forall|category: Seq<char>|
            (#[trigger] tally(calls, peer, category)).messages <= u64::MAX && tally(
                calls,
                peer,
                category,
            ).bytes <= u64::MAX,
    ensures
        forall|category: Seq<char>|
            (#[trigger] tally(calls.drop_last(), peer, category)).messages <= u64::MAX && tally(
                calls.drop_last(),
                peer,
                category,
            ).bytes <= u64::MAX,
        clock_keeps_on(calls, peer, now) ==> clock_keeps_on(calls.drop_last(), peer, now),
{
    let earlier = calls.drop_last();
    assert forall|category: Seq<char>|
        (#[trigger] tally(earlier, peer, category)).messages <= u64::MAX && tally(
            earlier,
            peer,
            category,
        ).bytes <= u64::MAX by {
        assert(tally(calls, peer, category).messages <= u64::MAX);
    }
    assert forall|i: int| 0 <= i < earlier.len() implies #[trigger] earlier[i] == calls[i] by {}
}

/// Totals never come to more than what was recorded, whatever the clock says, and every
/// counter has counted a message.
proof fn lemma_totals_within_tally(calls: Seq<Call>, peer: OmniPeerId)
    requires
        forall|category: Seq<char>|
            (#[trigger] tally(calls, peer, category)).messages <= u64::MAX && tally(
                calls,
                peer,
                category,
            ).bytes <= u64::MAX,
    ensures
        forall|category: Seq<char>|
            (#[trigger] total(after_calls(calls).peer(peer).buckets, category)).messages <= tally(
                calls,
                peer,
                category,
            ).messages && total(after_calls(calls).peer(peer).buckets, category).bytes <= tally(
                calls,
                peer,
                category,
            ).bytes,
        counted(after_calls(calls).peer(peer).buckets),
    decreases calls.len(),
{
    if calls.len() > 0 {
        let earlier = calls.drop_last();
        let buckets = after_calls(earlier).peer(peer).buckets;
        let after = after_calls(calls).peer(peer).buckets;
        lemma_shorter_series(calls, peer, 0);
        lemma_totals_within_tally(earlier, peer);
        match calls.last() {
            Call::Record {
                now: then,
                peer: to,
                category: under,
                reliability: Reliability::Reliable,
                len,
            } if to == peer => {
                assert(counts_at(calls.last(), peer) == Some(then));
                assert(tally(calls, peer, under).messages <= u64::MAX);
                assert(total(buckets, under).messages <= tally(earlier, peer, under).messages);
                lemma_room_within(buckets, then, under, len);
                lemma_recorded_counted(buckets, then, under, len);
                assert forall|category: Seq<char>|
                    (#[trigger] total(after, category)).messages <= tally(
                        calls,
                        peer,
                        category,
                    ).messages && total(after, category).bytes <= tally(
                        calls,
                        peer,
                        category,
                    ).bytes by {
                    assert(total(buckets, category).messages <= tally(
                        earlier,
                        peer,
                        category,
                    ).messages);
                    lemma_pruned_totals(buckets, then, then, category);
                    lemma_recorded_total(buckets, then, under, len, category);
                }
            },
            Call::Report { peer: on, now: then } if on == peer => {
                lemma_pruned_counted(buckets, then);
                assert forall|category: Seq<char>|
                    (#[trigger] total(after, category)).messages <= tally(
                        calls,
                        peer,
                        category,
                    ).messages && total(after, category).bytes <= tally(
                        calls,
                        peer,
                        category,
                    ).bytes by {
                    assert(total(buckets, category).messages <= tally(
                        earlier,
                        peer,
                        category,
                    ).messages);
                    lemma_pruned_totals(buckets, then, then, category);
                }
            },
            _ => {
                assert(after == buckets);
                assert forall|category: Seq<char>|
                    (#[trigger] total(after, category)).messages <= tally(
                        calls,
                        peer,
                        category,
                    ).messages && total(after, category).bytes <= tally(
                        calls,
                        peer,
                        category,
                    ).bytes by {
                    assert(total(buckets, category).messages <= tally(
                        earlier,
                        peer,
                        category,
                    ).messages);
                }
            },
        }
    } else {
        assert forall|category: Seq<char>|
            (#[trigger] total(after_calls(calls).peer(peer).buckets, category)).messages <= tally(
                calls,
                peer,
                category,
            ).messages && total(after_calls(calls).peer(peer).buckets, category).bytes <= tally(
                calls,
                peer,
                category,
            ).bytes by {}
    }
}

/// The buckets that were opened in the window that ends at `now` hold no message from before
/// it, and every message that is younger than the window by a bucket's span.
proof fn lemma_window_tally(calls: Seq<Call>, peer: OmniPeerId, now: Moment, category: Seq<char>)
    requires
        clock_keeps_on(calls, peer, now),
        forall|category: Seq<char>|
            (#[trigger] tally(calls, peer, category)).messages <= u64::MAX && tally(
                calls,
                peer,
                category,
            ).bytes <= u64::MAX,
    ensures
        ({
            let found = total_since(
                after_calls(calls).peer(peer).buckets,
                category,
                now - WINDOW,
            );
            let most = tally_since(calls, peer, category, now - WINDOW);
            let least = tally_since(calls, peer, category, now - WINDOW + BUCKET_SPAN);
            &&& least.messages <= found.messages <= most.messages
            &&& least.bytes <= found.bytes <= most.bytes
        }),
    decreases calls.len(),
{
    if calls.len() > 0 {
        let earlier = calls.drop_last();
        let buckets = after_calls(earlier).peer(peer).buckets;
        lemma_shorter_series(calls, peer, now);
        lemma_window_tally(earlier, peer, now, category);
        match calls.last() {
            Call::Record {
                now: then,
                peer: to,
                category: under,
                reliability: Reliability::Reliable,
                len,
            } if to == peer => {
                let last = calls.len() - 1;
                assert(calls[last] == calls.last());
                assert(counts_at(calls[last], peer) == Some(then));
                lemma_totals_within_tally(earlier, peer);
                assert(total(buckets, under).messages <= tally(earlier, peer, under).messages);
                assert(tally(calls, peer, under).messages <= u64::MAX);
                lemma_room_within(buckets, then, under, len);
                lemma_recorded_total_since(buckets, then, under, len, now, category);
                let found = opened(buckets, then);
                assert(recorded(buckets, then, under, len).last().at == found.last().at);
                assert(found.last().at <= then && then - found.last().at < BUCKET_SPAN) by {
                    let kept = pruned(buckets, then);
                    if found.len() == kept.len() {
                        let dropped = lemma_pruned_is_suffix(buckets, then);
                        assert(kept.last() == buckets[buckets.len() - 1]);
                        let call = lemma_bucket_opened_by_message(
                            earlier,
                            peer,
                            buckets.len() - 1,
                        );
                        assert(calls[call] == earlier[call]);
                        assert(counts_at(calls[call], peer) is Some);
                    }
                }
            },
            Call::Report { peer: on, now: then } if on == peer => {
                assert(calls[calls.len() - 1] == calls.last());
                lemma_pruned_totals(buckets, then, now, category);
            },
            _ => {},
        }
    }
}

/// After any calls by a clock that does not go back, what a category comes to at `now` counts
/// no message that was recorded more than the window before `now`, and every one that was
/// recorded since, but for those of the oldest bucket's span.
///
/// Older messages of the series do not matter, nor do messages to other peers or messages
/// that were not sent reliably.
pub proof fn lemma_window_total(
    calls: Seq<Call>,
    peer: OmniPeerId,
    now: Moment,
    category: Seq<char>,
)
    requires
        clock_keeps_on(calls, peer, now),
        forall|category: Seq<char>|
            (#[trigger] tally(calls, peer, category)).messages <= u64::MAX && tally(
                calls,
                peer,
                category,
            ).bytes <= u64::MAX,
    ensures
        ({
            let found = total(pruned(after_calls(calls).peer(peer).buckets, now), category);
            let most = tally_since(calls, peer, category, now - WINDOW);
            let least = tally_since(calls, peer, category, now - WINDOW + BUCKET_SPAN);
            &&& least.messages <= found.messages <= most.messages
            &&& least.bytes <= found.bytes <= most.bytes
        }),
{
    let buckets = after_calls(calls).peer(peer).buckets;
    let kept = pruned(buckets, now);
    lemma_window_tally(calls, peer, now, category);
    lemma_pruned_totals(buckets, now, now, category);
    lemma_history_spaced(calls);
    assert(all_spaced(after_calls(calls)));
    assert(well_spaced(after_calls(calls).peer(peer).buckets));
    let dropped = lemma_pruned_is_suffix(buckets, now);
    assert forall|i: int| 0 <= i < kept.len() implies now - WINDOW <= (#[trigger] kept[i]).at by {
        assert(kept[i] == buckets[i + dropped]);
        assert(buckets[dropped].at <= buckets[i + dropped].at);
    }
    lemma_total_since_all(kept, category, now - WINDOW);
}

/// Where the sums of all messages to a peer stay within the range of a counter, the next one
/// that keeps them there can be recorded, and a report can be made, at any time.
pub proof fn lemma_sums_leave_room(
    calls: Seq<Call>,
    peer: OmniPeerId,
    now: Moment,
    category: Seq<char>,
    len: nat,
)
    requires
        forall|category: Seq<char>|
            (#[trigger] tally(calls, peer, category)).messages <= u64::MAX && tally(
                calls,
                peer,
                category,
            ).bytes <= u64::MAX,
        tally(calls, peer, category).messages + 1 <= u64::MAX,
        tally(calls, peer, category).bytes + len <= u64::MAX,
    ensures
        has_room(after_calls(calls).peer(peer).buckets, now, category, len),
        totals_fit(pruned(after_calls(calls).peer(peer).buckets, now)),
{
    let buckets = after_calls(calls).peer(peer).buckets;
    lemma_totals_within_tally(calls, peer);
    assert(total(buckets, category).messages <= tally(calls, peer, category).messages);
    lemma_room_within(buckets, now, category, len);
    assert forall|other: Seq<char>|
        (#[trigger] total(pruned(buckets, now), other)).messages <= u64::MAX && total(
            pruned(buckets, now),
            other,
        ).bytes <= u64::MAX by {
        lemma_pruned_totals(buckets, now, now, other);
        assert(total(buckets, other).messages <= tally(calls, peer, other).messages);
        assert(tally(calls, peer, other).messages <= u64::MAX);
    }
}

/// A report at `now`, after any calls by a clock that does not go back, says of each category
/// how many messages were recorded under it, and how many bytes they took: none that was
/// recorded more than the window before `now`, and all that were recorded since, but for
/// those of the oldest bucket's span.
///
/// It names no category twice and none without a message, goes by falling number of bytes,
/// and leaves a category out only where others that took no fewer bytes use up the limit.
pub proof fn lemma_window_report(
    calls: Seq<Call>,
    peer: OmniPeerId,
    now: Moment,
    top: Seq<TrafficSummary>,
    limit: nat,
)
    requires
        clock_keeps_on(calls, peer, now),
        forall|category: Seq<char>|
            (#[trigger] tally(calls, peer, category)).messages <= u64::MAX && tally(
                calls,
                peer,
                category,
            ).bytes <= u64::MAX,
        is_top(top, pruned(after_calls(calls).peer(peer).buckets, now), limit),
    ensures
        top.len() <= limit,
        forall|i: int, j: int|
            0 <= i < j < top.len() ==> (#[trigger] top[i]).bytes >= (#[trigger] top[j]).bytes
                && top[i].category@ != top[j].category@,
        forall|i: int|
            0 <= i < top.len() ==> {
                let entry = #[trigger] top[i];
                let most = tally_since(calls, peer, entry.category@, now - WINDOW);
                let least = tally_since(calls, peer, entry.category@, now - WINDOW + BUCKET_SPAN);
                &&& 1 <= entry.messages
                &&& least.messages <= entry.messages <= most.messages
                &&& least.bytes <= entry.bytes <= most.bytes
            },
        forall|category: Seq<char>|
            (#[trigger] tally_since(
                calls,
                peer,
                category,
                now - WINDOW + BUCKET_SPAN,
            )).messages >= 1 ==> {
                ||| exists|i: int| 0 <= i < top.len() && (#[trigger] top[i]).category@ == category
                ||| top.len() == limit && forall|i: int|
                    0 <= i < top.len() ==> (#[trigger] top[i]).bytes >= tally_since(
                        calls,
                        peer,
                        category,
                        now - WINDOW + BUCKET_SPAN,
                    ).bytes
            },
{
    let buckets = after_calls(calls).peer(peer).buckets;
    let kept = pruned(buckets, now);
    lemma_top(top, kept, limit);
    lemma_totals_within_tally(calls, peer);
    lemma_pruned_counted(buckets, now);
    assert forall|i: int| 0 <= i < top.len() implies {
        let entry = #[trigger] top[i];
        let most = tally_since(calls, peer, entry.category@, now - WINDOW);
        let least = tally_since(calls, peer, entry.category@, now - WINDOW + BUCKET_SPAN);
        &&& 1 <= entry.messages
        &&& least.messages <= entry.messages <= most.messages
        &&& least.bytes <= entry.bytes <= most.bytes
    } by {
        lemma_window_total(calls, peer, now, top[i].category@);
        lemma_seen_total(kept, top[i].category@);
    }
    assert forall|category: Seq<char>|
        (#[trigger] tally_since(
            calls,
            peer,
            category,
            now - WINDOW + BUCKET_SPAN,
        )).messages >= 1 implies {
        ||| exists|i: int| 0 <= i < top.len() && (#[trigger] top[i]).category@ == category
        ||| top.len() == limit && forall|i: int|
            0 <= i < top.len() ==> (#[trigger] top[i]).bytes >= tally_since(
                calls,
                peer,
                category,
                now - WINDOW + BUCKET_SPAN,
            ).bytes
    } by {
        lemma_window_total(calls, peer, now, category);
        if !seen(kept, category) {
            lemma_unseen_total(kept, category);
        }
        assert(seen(kept, category));
    }
}

} // verus!

//! What holds of diagnostics after any series of calls.

use vstd::prelude::*;

use crate::clock::{elapsed, Moment, BUCKET_SPAN, PING_INTERVAL, WINDOW};
use crate::diagnostics::{DiagnosticsView, PendingPing, PingSummary};
use crate::diagnostics_laws::{all_spaced, lemma_calls_keep_spacing, lemma_start_spaced};
use crate::history::{
    after_call, after_calls, answer_took, answers_ping, before, begins_ping, counted_categories,
    counts_at, in_range, is_answer, is_pong, ping_begun, pings_begun, tallies, tally,
    unanswered_since, Call,
};
use crate::message::{OmniPeerId, Reliability};
use crate::ranking::{falls, TrafficSummary};
use crate::report_laws::{
    by_category, categories, lemma_complete_report, lemma_no_more, lemma_reported_has_messages,
    lemma_top, totals,
};
use crate::traffic::{
    counter_in, fits, has_room, is_top, opened, pruned, recorded, seen, total, BucketView,
};
use crate::traffic_laws::{
    counted, lemma_pruned_counted, lemma_pruned_is_suffix, lemma_recorded_ages,
    lemma_recorded_counted, lemma_recorded_times, lemma_recorded_total, well_spaced, within_window,
    MAX_BUCKETS,
};

verus! {

/// What a call of a series finds is what it finds without the calls that come after it.
proof fn lemma_before_drop_last(calls: Seq<Call>)
    requires
        calls.len() > 0,
    ensures
        forall|i: int|
            0 <= i < calls.len() - 1 ==> #[trigger] before(calls, i) == before(
                calls.drop_last(),
                i,
            ),
        before(calls, calls.len() - 1) == after_calls(calls.drop_last()),
{
    assert forall|i: int| 0 <= i < calls.len() - 1 implies #[trigger] before(calls, i) == before(
        calls.drop_last(),
        i,
    ) by {
        assert(calls.take(i) =~= calls.drop_last().take(i));
    }
    assert(calls.take(calls.len() - 1) =~= calls.drop_last());
}

/// After any calls, whatever the clock says, the buckets of every peer are well spaced.
pub proof fn lemma_history_spaced(calls: Seq<Call>)
    ensures
        all_spaced(after_calls(calls)),
    decreases calls.len(),
{
    if calls.len() == 0 {
        lemma_start_spaced();
    } else {
        let found = after_calls(calls.drop_last());
        lemma_history_spaced(calls.drop_last());
        match calls.last() {
            Call::Record { now, peer, category, reliability, len } => {
                lemma_calls_keep_spacing(found, peer, now, category, reliability, len, 0);
            },
            Call::Report { peer, now } => {
                lemma_calls_keep_spacing(found, peer, now, seq![], Reliability::Reliable, 0, 0);
            },
            Call::Ping { peer, now } => {
                lemma_calls_keep_spacing(found, peer, now, seq![], Reliability::Reliable, 0, 0);
            },
            Call::Pong { peer, nonce, now } => {
                lemma_calls_keep_spacing(found, peer, now, seq![], Reliability::Reliable, 0, nonce);
            },
        }
    }
}

/// Where no counter leaves its range, every counter has counted a message.
pub proof fn lemma_history_counted(calls: Seq<Call>, peer: OmniPeerId)
    requires
        in_range(calls),
    ensures
        counted(after_calls(calls).peer(peer).buckets),
    decreases calls.len(),
{
    if calls.len() > 0 {
        let earlier = calls.drop_last();
        let found = after_calls(earlier);
        lemma_before_drop_last(calls);
        assert forall|i: int| 0 <= i < earlier.len() implies (#[trigger] earlier[i] matches
            Call::Record { now, peer, category, reliability, len } ==> reliability is Reliable
            ==> has_room(before(earlier, i).peer(peer).buckets, now, category, len)) by {
            assert(calls[i] == earlier[i]);
            assert(before(calls, i) == before(earlier, i));
        }
        lemma_history_counted(earlier, peer);
        match calls.last() {
            Call::Record { now, peer: to, category, reliability, len } => {
                if to == peer && reliability is Reliable {
                    assert(calls[calls.len() - 1] == calls.last());
                    lemma_recorded_counted(found.peer(peer).buckets, now, category, len);
                }
            },
            Call::Report { peer: on, now } => {
                lemma_pruned_counted(found.peer(peer).buckets, now);
            },
            _ => {},
        }
    }
}

/// Any report after any calls falls in bytes, names no category twice and none without a
/// message, and keeps to its limit.
pub proof fn lemma_history_report(
    calls: Seq<Call>,
    peer: OmniPeerId,
    now: Moment,
    top: Seq<TrafficSummary>,
    limit: nat,
)
    requires
        in_range(calls),
        is_top(top, pruned(after_calls(calls).peer(peer).buckets, now), limit),
    ensures
        falls(top),
        forall|i: int, j: int|
            0 <= i < j < top.len() ==> (#[trigger] top[i]).category@ != (
            #[trigger] top[j]).category@,
        forall|i: int| 0 <= i < top.len() ==> (#[trigger] top[i]).messages >= 1,
        top.len() <= limit,
{
    let buckets = after_calls(calls).peer(peer).buckets;
    lemma_history_counted(calls, peer);
    lemma_pruned_counted(buckets, now);
    lemma_top(top, pruned(buckets, now), limit);
    lemma_reported_has_messages(top, pruned(buckets, now), limit);
}

/// Every bucket of a peer was opened by a message to that peer that was counted.
pub proof fn lemma_bucket_opened_by_message(
    calls: Seq<Call>,
    peer: OmniPeerId,
    i: int,
) -> (call: int)
    requires
        0 <= i < after_calls(calls).peer(peer).buckets.len(),
    ensures
        0 <= call < calls.len(),
        counts_at(calls[call], peer) == Some(after_calls(calls).peer(peer).buckets[i].at),
    decreases calls.len(),
{
    let earlier = calls.drop_last();
    let buckets = after_calls(earlier).peer(peer).buckets;
    let last = calls.len() - 1;
    match calls.last() {
        Call::Record { now, peer: to, category, reliability: Reliability::Reliable, len } if to
            == peer => {
            match lemma_recorded_times(buckets, now, category, len, i) {
                Some(k) => lemma_bucket_opened_by_message(earlier, peer, k),
                None => last,
            }
        },
        Call::Report { peer: on, now } if on == peer => {
            let dropped = lemma_pruned_is_suffix(buckets, now);
            if after_calls(earlier).peers.contains_key(peer.0) {
                lemma_bucket_opened_by_message(earlier, peer, i + dropped)
            } else {
                lemma_bucket_opened_by_message(earlier, peer, i)
            }
        },
        _ => lemma_bucket_opened_by_message(earlier, peer, i),
    }
}

/// Right after a message to a peer was counted at `now`, by a clock that has not gone back
/// for that peer's messages: there are buckets, but not many, they lie at least a bucket's
/// span apart, in order, the oldest is at most the window old, and the newest is younger
/// than a bucket's span.
pub proof fn lemma_history_ages(
    calls: Seq<Call>,
    peer: OmniPeerId,
    now: Moment,
    category: Seq<char>,
    len: nat,
)
    requires
        forall|i: int|
            0 <= i < calls.len() ==> (counts_at(#[trigger] calls[i], peer) matches Some(then)
                ==> then <= now),
    ensures
        ({
            let buckets = after_calls(calls).after_record(
                now,
                peer,
                category,
                Reliability::Reliable,
                len,
            ).peer(peer).buckets;
            &&& 1 <= buckets.len() <= MAX_BUCKETS
            &&& forall|i: int, j: int|
                0 <= i < j < buckets.len() ==> (#[trigger] buckets[i]).at + BUCKET_SPAN <= (
                #[trigger] buckets[j]).at
            &&& 0 <= now - buckets[0].at <= WINDOW
            &&& 0 <= now - buckets.last().at < BUCKET_SPAN
        }),
{
    let buckets = after_calls(calls).peer(peer).buckets;
    lemma_history_spaced(calls);
    assert(well_spaced(after_calls(calls).peer(peer).buckets));
    assert forall|i: int| 0 <= i < buckets.len() implies (#[trigger] buckets[i]).at <= now by {
        let call = lemma_bucket_opened_by_message(calls, peer, i);
        assert(counts_at(calls[call], peer) is Some);
    }
    lemma_recorded_ages(buckets, now, category, len);
    let after = recorded(buckets, now, category, len);
    assert(after[0].at <= now && after[after.len() - 1].at <= now);
}

/// Whether every message to `peer` that was counted lies in the window that ends at `now`,
/// and no report on `peer` was made later.
pub open spec fn all_in_window(calls: Seq<Call>, peer: OmniPeerId, now: Moment) -> bool {
    &&& forall|i: int|
        0 <= i < calls.len() ==> (counts_at(#[trigger] calls[i], peer) matches Some(then)
            ==> then <= now && now - then <= WINDOW)
    &&& forall|i: int|
        0 <= i < calls.len() ==> (#[trigger] calls[i] matches Call::Report { peer: on, now: then }
            ==> on == peer ==> then <= now)
}

/// Nothing is pruned by `then`, where all messages lie in the window that ends at a later
/// `now`.
proof fn lemma_nothing_pruned(calls: Seq<Call>, peer: OmniPeerId, now: Moment, then: Moment)
    requires
        all_in_window(calls, peer, now),
        then <= now,
    ensures
        pruned(after_calls(calls).peer(peer).buckets, then) == after_calls(calls).peer(
            peer,
        ).buckets,
{
    let buckets = after_calls(calls).peer(peer).buckets;
    if buckets.len() > 0 {
        let call = lemma_bucket_opened_by_message(calls, peer, 0);
        assert(counts_at(calls[call], peer) is Some);
        assert(within_window(buckets[0], then));
    }
}

/// A counter of the last bucket is no more than the total of its category.
proof fn lemma_counter_within_total(buckets: Seq<BucketView>, now: Moment, category: Seq<char>)
    ensures
        ({
            let counter = counter_in(opened(buckets, now).last().reliable, category);
            &&& counter.messages <= total(pruned(buckets, now), category).messages
            &&& counter.bytes <= total(pruned(buckets, now), category).bytes
        }),
{
    let kept = pruned(buckets, now);
    if kept.len() == 0 || elapsed(now, kept.last().at) >= BUCKET_SPAN {
        assert(opened(buckets, now).last().reliable =~= Map::empty());
    }
}

/// Where all messages to a peer lie in the window, and their sums stay within the range of
/// a counter, its totals are those sums, and its categories those of the messages.
///
/// What was sent to other peers, or was not sent reliably, does not count.
pub proof fn lemma_history_totals(calls: Seq<Call>, peer: OmniPeerId, now: Moment)
    requires
        all_in_window(calls, peer, now),
        forall|category: Seq<char>| fits(#[trigger] tally(calls, peer, category)),
    ensures
        totals(pruned(after_calls(calls).peer(peer).buckets, now)) == tallies(calls, peer),
{
    let buckets = after_calls(calls).peer(peer).buckets;
    lemma_nothing_pruned(calls, peer, now, now);
    assert forall|category: Seq<char>| total(buckets, category) == tally(calls, peer, category)
        && (seen(buckets, category) <==> counted_categories(calls, peer).contains(category)) by {
        lemma_history_total(calls, peer, now, category);
    }
    assert(totals(buckets) =~= tallies(calls, peer));
}

/// Under the same conditions, of one category.
proof fn lemma_history_total(calls: Seq<Call>, peer: OmniPeerId, now: Moment, category: Seq<char>)
    requires
        all_in_window(calls, peer, now),
        forall|category: Seq<char>| fits(#[trigger] tally(calls, peer, category)),
    ensures
        total(after_calls(calls).peer(peer).buckets, category) == tally(calls, peer, category),
        seen(after_calls(calls).peer(peer).buckets, category) <==> counted_categories(
            calls,
            peer,
        ).contains(category),
    decreases calls.len(),
{
    if calls.len() > 0 {
        let earlier = calls.drop_last();
        let buckets = after_calls(earlier).peer(peer).buckets;
        assert(calls[calls.len() - 1] == calls.last());
        assert(all_in_window(earlier, peer, now)) by {
            assert forall|i: int| 0 <= i < earlier.len() implies #[trigger] earlier[i]
                == calls[i] by {}
        }
        assert forall|other: Seq<char>| fits(#[trigger] tally(earlier, peer, other)) by {
            assert(fits(tally(calls, peer, other)));
        }
        lemma_history_total(earlier, peer, now, category);
        match calls.last() {
            Call::Record {
                now: then,
                peer: to,
                category: under,
                reliability: Reliability::Reliable,
                len,
            } if to == peer => {
                assert(counts_at(calls.last(), peer) == Some(then));
                lemma_nothing_pruned(earlier, peer, now, then);
                lemma_history_total(earlier, peer, now, under);
                lemma_counter_within_total(buckets, then, under);
                assert(fits(tally(calls, peer, under)));
                lemma_recorded_total(buckets, then, under, len, category);
                lemma_contains_push(counted_categories(earlier, peer), under, category);
            },
            Call::Report { peer: on, now: then } if on == peer => {
                lemma_nothing_pruned(earlier, peer, now, then);
            },
            _ => {},
        }
    }
}

/// What a list holds once something was added at its end.
proof fn lemma_contains_push(list: Seq<Seq<char>>, added: Seq<char>, text: Seq<char>)
    ensures
        list.push(added).contains(text) <==> list.contains(text) || text == added,
{
    if list.contains(text) {
        let i = choose|i: int| 0 <= i < list.len() && list[i] == text;
        assert(list.push(added)[i] == text);
    }
    assert(list.push(added)[list.len() as int] == added);
}

/// A report on messages that all lie in the window, with a limit that is no less than the
/// number of messages, has one entry for every category that one of them was counted
/// under, with the number of those messages and the sum of their bytes, and no other.
pub proof fn lemma_history_sums(
    calls: Seq<Call>,
    peer: OmniPeerId,
    now: Moment,
    top: Seq<TrafficSummary>,
    limit: nat,
)
    requires
        all_in_window(calls, peer, now),
        forall|category: Seq<char>| fits(#[trigger] tally(calls, peer, category)),
        is_top(top, pruned(after_calls(calls).peer(peer).buckets, now), limit),
        limit >= counted_categories(calls, peer).len(),
    ensures
        categories(top).no_duplicates(),
        by_category(top) == tallies(calls, peer),
{
    let buckets = pruned(after_calls(calls).peer(peer).buckets, now);
    let names = categories(top);
    let messages = counted_categories(calls, peer);
    lemma_history_totals(calls, peer, now);
    lemma_top(top, buckets, limit);
    assert forall|category: Seq<char>| #[trigger]
        seen(buckets, category) == messages.contains(category) by {
        assert(totals(buckets).contains_key(category) == tallies(calls, peer).contains_key(
            category,
        ));
    }
    assert forall|i: int, j: int| 0 <= i < names.len() && 0 <= j < names.len() && i
        != j implies names[i] != names[j] by {
        assert(top[i].category@ != top[j].category@);
    }
    assert forall|category: Seq<char>| seen(buckets, category) implies names.contains(
        category,
    ) by {
        if !names.contains(category) {
            assert forall|i: int| 0 <= i < top.len() implies (#[trigger] top[i]).category@
                != category by {
                assert(names[i] == top[i].category@);
            }
            let more = names.push(category);
            assert forall|i: int, j: int| 0 <= i < more.len() && 0 <= j < more.len() && i
                != j implies more[i] != more[j] by {
                if i < names.len() {
                    assert(names.contains(names[i]));
                }
                if j < names.len() {
                    assert(names.contains(names[j]));
                }
            }
            assert forall|i: int| 0 <= i < more.len() implies messages.contains(
                #[trigger] more[i],
            ) by {
                if i < names.len() {
                    assert(seen(buckets, top[i].category@));
                }
            }
            lemma_no_more(more, messages);
        }
    }
    lemma_complete_report(top, buckets, limit);
}

/// Two series of calls agree on what the calls before the last one begin.
proof fn lemma_begun_drop_last(calls: Seq<Call>, peer: OmniPeerId)
    requires
        calls.len() > 0,
    ensures
        forall|i: int|
            0 <= i < calls.len() - 1 ==> #[trigger] ping_begun(calls, i) == ping_begun(
                calls.drop_last(),
                i,
            ),
        forall|i: int|
            0 <= i < calls.len() - 1 ==> #[trigger] begins_ping(calls, i, peer) == begins_ping(
                calls.drop_last(),
                i,
                peer,
            ),
{
    lemma_before_drop_last(calls);
    assert forall|i: int| 0 <= i < calls.len() - 1 implies #[trigger] ping_begun(calls, i)
        == ping_begun(calls.drop_last(), i) by {
        assert(before(calls, i) == before(calls.drop_last(), i));
    }
    assert forall|i: int| 0 <= i < calls.len() - 1 implies #[trigger] begins_ping(calls, i, peer)
        == begins_ping(calls.drop_last(), i, peer) by {
        assert(ping_begun(calls, i) == ping_begun(calls.drop_last(), i));
    }
}

/// The ping that the call at position `i` begins.
pub open spec fn ping_at(calls: Seq<Call>, i: int) -> PendingPing {
    PendingPing { nonce: ping_begun(calls, i)->0, sent_at: calls[i]->Ping_now }
}

/// An unanswered ping stays unanswered through a call that neither begins another one to
/// that peer nor answers it.
proof fn lemma_stays_unanswered(calls: Seq<Call>, i: int, peer: OmniPeerId)
    requires
        calls.len() > 0,
        unanswered_since(calls.drop_last(), i, peer),
        !begins_ping(calls, calls.len() - 1, peer),
        !is_pong(calls.last(), peer, ping_begun(calls.drop_last(), i)->0),
    ensures
        unanswered_since(calls, i, peer),
{
    let earlier = calls.drop_last();
    lemma_begun_drop_last(calls, peer);
    assert(ping_begun(calls, i) == ping_begun(earlier, i));
    assert(begins_ping(calls, i, peer));
    assert forall|j: int| i < j < calls.len() implies !begins_ping(calls, j, peer) && !is_pong(
        #[trigger] calls[j],
        peer,
        ping_begun(calls, i)->0,
    ) by {
        if j < earlier.len() {
            assert(earlier[j] == calls[j]);
            assert(begins_ping(calls, j, peer) == begins_ping(earlier, j, peer));
        }
    }
}

/// The latest unanswered ping is the one that is pending.
proof fn lemma_unanswered_is_pending(calls: Seq<Call>, i: int, peer: OmniPeerId)
    requires
        unanswered_since(calls, i, peer),
    ensures
        after_calls(calls).peer(peer).pending_ping == Some(ping_at(calls, i)),
    decreases calls.len(),
{
    let earlier = calls.drop_last();
    let last = calls.len() - 1;
    lemma_before_drop_last(calls);
    lemma_begun_drop_last(calls, peer);
    if i < last {
        assert(unanswered_since(earlier, i, peer)) by {
            assert(begins_ping(calls, i, peer) == begins_ping(earlier, i, peer));
            assert(ping_begun(calls, i) == ping_begun(earlier, i));
            assert forall|j: int| i < j < earlier.len() implies !begins_ping(earlier, j, peer)
                && !is_pong(#[trigger] earlier[j], peer, ping_begun(earlier, i)->0) by {
                assert(calls[j] == earlier[j]);
                assert(begins_ping(calls, j, peer) == begins_ping(earlier, j, peer));
            }
        }
        lemma_unanswered_is_pending(earlier, i, peer);
        assert(ping_at(calls, i) == ping_at(earlier, i));
        assert(calls[last] == calls.last());
        assert(!begins_ping(calls, last, peer));
    }
}

/// The pending ping is the latest one that was begun, and unanswered.
proof fn lemma_pending_is_unanswered(calls: Seq<Call>, peer: OmniPeerId) -> (i: int)
    requires
        after_calls(calls).peer(peer).pending_ping is Some,
    ensures
        unanswered_since(calls, i, peer),
    decreases calls.len(),
{
    let earlier = calls.drop_last();
    let last = calls.len() - 1;
    lemma_before_drop_last(calls);
    if begins_ping(calls, last, peer) {
        last
    } else {
        assert(after_calls(earlier).peer(peer).pending_ping is Some);
        let i = lemma_pending_is_unanswered(earlier, peer);
        lemma_unanswered_is_pending(earlier, i, peer);
        lemma_stays_unanswered(calls, i, peer);
        i
    }
}

/// After any calls, a ping to a peer is refused exactly while the latest ping to that same
/// peer is unanswered and was begun less than the interval ago. Pings to other peers do
/// not matter.
pub proof fn lemma_history_ping_refused(calls: Seq<Call>, peer: OmniPeerId, now: Moment)
    ensures
        after_calls(calls).ping_outcome(peer, now) is None <==> exists|i: int|
            #[trigger] unanswered_since(calls, i, peer) && elapsed(now, calls[i]->Ping_now)
                < PING_INTERVAL,
{
    let found = after_calls(calls);
    if found.peer(peer).pending_ping is Some {
        let i = lemma_pending_is_unanswered(calls, peer);
        lemma_unanswered_is_pending(calls, i, peer);
        assert(unanswered_since(calls, i, peer));
    }
    assert forall|i: int| #[trigger] unanswered_since(
        calls,
        i,
        peer,
    ) implies found.peer(peer).pending_ping == Some(ping_at(calls, i)) by {
        lemma_unanswered_is_pending(calls, i, peer);
    }
}

/// The next nonce is one more than the number of pings begun, modulo two to the
/// sixty-fourth. Only a ping that is begun uses up a nonce, whichever peer it goes to.
pub proof fn lemma_history_next_nonce(calls: Seq<Call>)
    ensures
        after_calls(calls).next_ping_nonce == (1 + pings_begun(calls)) % 0x1_0000_0000_0000_0000,
    decreases calls.len(),
{
    if calls.len() > 0 {
        lemma_history_next_nonce(calls.drop_last());
        lemma_before_drop_last(calls);
        assert(calls[calls.len() - 1] == calls.last());
    }
}

/// From the start on, counted over all peers together, the first ping that is begun has
/// the nonce one, the second the nonce two, and so on, until the nonces run out.
pub proof fn lemma_history_nonce(calls: Seq<Call>, i: int)
    requires
        0 <= i < calls.len(),
        pings_begun(calls.take(i)) < u64::MAX,
    ensures
        ping_begun(calls, i) matches Some(nonce) ==> nonce == pings_begun(calls.take(i)) + 1,
{
    lemma_history_next_nonce(calls.take(i));
}

/// As calls are made, no fewer pings have been begun.
proof fn lemma_pings_begun_grows(calls: Seq<Call>, i: int, j: int)
    requires
        0 <= i <= j <= calls.len(),
    ensures
        pings_begun(calls.take(i)) <= pings_begun(calls.take(j)),
        i < j && ping_begun(calls, i) is Some ==> pings_begun(calls.take(i)) < pings_begun(
            calls.take(j),
        ),
    decreases j - i,
{
    if i < j {
        lemma_pings_begun_grows(calls, i, j - 1);
        let upto = calls.take(j);
        assert(upto.drop_last() =~= calls.take(j - 1));
        lemma_before_drop_last(upto);
        if i == j - 1 {
            assert(before(upto, i) == before(calls, i)) by {
                assert(upto.take(i) =~= calls.take(i));
            }
            assert(upto[i] == calls[i]);
            assert(ping_begun(upto, i) == ping_begun(calls, i));
        }
    }
}

/// Nonces rise until they run out: of two pings, the later one has the larger nonce.
pub proof fn lemma_history_nonces_rise(calls: Seq<Call>, i: int, j: int)
    requires
        0 <= i < j < calls.len(),
        ping_begun(calls, i) is Some,
        ping_begun(calls, j) is Some,
        pings_begun(calls.take(j)) < u64::MAX,
    ensures
        ping_begun(calls, i)->0 < ping_begun(calls, j)->0,
{
    lemma_pings_begun_grows(calls, i, j);
    lemma_history_nonce(calls, i);
    lemma_history_nonce(calls, j);
}

/// No nonce comes again before all of them have been used.
pub proof fn lemma_history_nonces_differ(calls: Seq<Call>, i: int, j: int)
    requires
        0 <= i < j < calls.len(),
        ping_begun(calls, i) is Some,
        ping_begun(calls, j) is Some,
        pings_begun(calls.take(j)) - pings_begun(calls.take(i)) < 0x1_0000_0000_0000_0000,
    ensures
        ping_begun(calls, i)->0 != ping_begun(calls, j)->0,
{
    lemma_pings_begun_grows(calls, i, j);
    lemma_history_next_nonce(calls.take(i));
    lemma_history_next_nonce(calls.take(j));
}

/// The round trip and the last answer of a peer are known together, exactly where some
/// pong of that peer has answered a ping; before that nothing is known.
pub proof fn lemma_history_summary_known(calls: Seq<Call>, peer: OmniPeerId, now: Moment)
    ensures
        ({
            let summary = after_calls(calls).summary(peer, now);
            let answered = exists|i: int| is_answer(calls, i, peer);
            &&& summary.rtt is Some <==> answered
            &&& summary.last_seen_ago is Some <==> answered
            &&& !answered ==> summary == (PingSummary { rtt: None, last_seen_ago: None })
        }),
{
    if exists|i: int| is_answer(calls, i, peer) {
        lemma_latest_answer(calls, peer);
    } else {
        lemma_never_answered(calls, peer);
    }
}

/// Two series of calls agree on which calls before the last one are answers.
proof fn lemma_answer_drop_last(calls: Seq<Call>, i: int, peer: OmniPeerId)
    requires
        calls.len() > 0,
        0 <= i < calls.len() - 1,
    ensures
        is_answer(calls, i, peer) == is_answer(calls.drop_last(), i, peer),
        answer_took(calls, i, peer) == answer_took(calls.drop_last(), i, peer),
{
    lemma_before_drop_last(calls);
    assert(before(calls, i) == before(calls.drop_last(), i));
}

/// Of a peer that never answered nothing is known.
proof fn lemma_never_answered(calls: Seq<Call>, peer: OmniPeerId)
    requires
        forall|i: int| !is_answer(calls, i, peer),
    ensures
        after_calls(calls).peer(peer).last_rtt is None,
        after_calls(calls).peer(peer).last_pong_at is None,
    decreases calls.len(),
{
    if calls.len() > 0 {
        let earlier = calls.drop_last();
        assert forall|i: int| !is_answer(earlier, i, peer) by {
            if 0 <= i < earlier.len() {
                lemma_answer_drop_last(calls, i, peer);
                assert(!is_answer(calls, i, peer));
            }
        }
        lemma_never_answered(earlier, peer);
        lemma_before_drop_last(calls);
        assert(!is_answer(calls, calls.len() - 1, peer));
    }
}

/// Finds the latest answer of a peer, which is what is known of the peer.
proof fn lemma_latest_answer(calls: Seq<Call>, peer: OmniPeerId) -> (latest: int)
    requires
        exists|i: int| is_answer(calls, i, peer),
    ensures
        is_answer(calls, latest, peer),
        forall|j: int| latest < j < calls.len() ==> !is_answer(calls, j, peer),
        after_calls(calls).peer(peer).last_rtt == Some(answer_took(calls, latest, peer)),
        after_calls(calls).peer(peer).last_pong_at == Some(calls[latest]->Pong_now),
    decreases calls.len(),
{
    let i = choose|i: int| is_answer(calls, i, peer);
    let earlier = calls.drop_last();
    let last = calls.len() - 1;
    lemma_before_drop_last(calls);
    if is_answer(calls, last, peer) {
        last
    } else {
        lemma_answer_drop_last(calls, i, peer);
        assert(is_answer(earlier, i, peer));
        let latest = lemma_latest_answer(earlier, peer);
        lemma_answer_drop_last(calls, latest, peer);
        assert forall|j: int| latest < j < calls.len() implies !is_answer(calls, j, peer) by {
            if j < last {
                lemma_answer_drop_last(calls, j, peer);
            }
        }
        latest
    }
}

/// The summary of a peer tells of its latest answer: how long that took, and how long ago
/// it came.
pub proof fn lemma_history_summary(calls: Seq<Call>, peer: OmniPeerId, i: int, now: Moment)
    requires
        is_answer(calls, i, peer),
        forall|j: int| i < j < calls.len() ==> !is_answer(calls, j, peer),
    ensures
        after_calls(calls).summary(peer, now) == (PingSummary {
            rtt: Some(answer_took(calls, i, peer)),
            last_seen_ago: Some(elapsed(now, calls[i]->Pong_now)),
        }),
{
    let latest = lemma_latest_answer(calls, peer);
    assert(latest == i);
}

/// What is known of a peer's answers stays known, whatever is called next, and only an
/// answer of that peer changes it.
pub proof fn lemma_summary_stays_known(
    diagnostics: DiagnosticsView,
    call: Call,
    peer: OmniPeerId,
    now: Moment,
)
    ensures
        ({
            let summary = diagnostics.summary(peer, now);
            let after = after_call(diagnostics, call).summary(peer, now);
            let answered = call matches Call::Pong { peer: from, nonce, .. } && from == peer
                && diagnostics.answers(peer, nonce);
            &&& summary.rtt is Some ==> after.rtt is Some
            &&& summary.last_seen_ago is Some ==> after.last_seen_ago is Some
            &&& !answered ==> after == summary
        }),
{
}

/// The next pong of a peer with the nonce of its latest, unanswered ping is its answer,
/// whatever calls lie between: the round trip is the time from the ping to the pong, and the
/// peer was last seen when the pong came. By a clock that went back, no time has passed.
pub proof fn lemma_pong_answers_ping(
    calls: Seq<Call>,
    i: int,
    peer: OmniPeerId,
    answered: Moment,
    now: Moment,
)
    requires
        unanswered_since(calls, i, peer),
    ensures
        ({
            let pong = Call::Pong { peer, nonce: ping_begun(calls, i)->0, now: answered };
            let summary = after_calls(calls.push(pong)).summary(peer, now);
            let sent = calls[i]->Ping_now;
            &&& summary.rtt is Some
            &&& sent <= answered ==> summary.rtt->0 == answered - sent
            &&& answered < sent ==> summary.rtt->0 == 0
            &&& summary.last_seen_ago is Some
            &&& answered <= now ==> summary.last_seen_ago->0 == now - answered
            &&& now < answered ==> summary.last_seen_ago->0 == 0
        }),
{
    let pong = Call::Pong { peer, nonce: ping_begun(calls, i)->0, now: answered };
    lemma_unanswered_is_pending(calls, i, peer);
    assert(calls.push(pong).drop_last() =~= calls);
}

/// Nothing but such an answer changes what the answered pings say about a peer: not pings,
/// not messages or reports, not pongs of other peers, and not pongs with another nonce than
/// that of the latest, unanswered ping to the peer.
pub proof fn lemma_only_answers_matter(
    calls: Seq<Call>,
    call: Call,
    peer: OmniPeerId,
    now: Moment,
)
    requires
        forall|i: int| #[trigger]
            unanswered_since(calls, i, peer) ==> !is_pong(call, peer, ping_begun(calls, i)->0),
    ensures
        after_calls(calls.push(call)).summary(peer, now) == after_calls(calls).summary(peer, now),
{
    assert(calls.push(call).drop_last() =~= calls);
    if after_calls(calls).peer(peer).pending_ping is Some {
        let i = lemma_pending_is_unanswered(calls, peer);
        lemma_unanswered_is_pending(calls, i, peer);
        assert(unanswered_since(calls, i, peer));
    }
}

/// Before any call nothing is known of any peer's answers.
pub proof fn lemma_no_answers_at_first(peer: OmniPeerId, now: Moment)
    ensures
        after_calls(seq![]).summary(peer, now).rtt is None,
        after_calls(seq![]).summary(peer, now).last_seen_ago is None,
{
}

/// A ping that was answered is no longer awaited: right after its answer, another one to the
/// same peer is begun at once.
pub proof fn lemma_ping_after_answer(
    calls: Seq<Call>,
    i: int,
    peer: OmniPeerId,
    answered: Moment,
    now: Moment,
)
    requires
        unanswered_since(calls, i, peer),
    ensures
        after_calls(
            calls.push(Call::Pong { peer, nonce: ping_begun(calls, i)->0, now: answered }),
        ).ping_outcome(peer, now) is Some,
{
    let pong = Call::Pong { peer, nonce: ping_begun(calls, i)->0, now: answered };
    lemma_unanswered_is_pending(calls, i, peer);
    assert(calls.push(pong).drop_last() =~= calls);
}

/// A ping to a peer is refused exactly while the latest ping to that peer is unanswered and
/// was begun less than the interval before; otherwise it gets the nonce that is one more than
/// the number of pings begun, modulo two to the sixty-fourth.
pub proof fn lemma_ping_by_calls(calls: Seq<Call>, peer: OmniPeerId, now: Moment)
    ensures
        ({
            let begun = after_calls(calls).ping_outcome(peer, now);
            let awaited = exists|i: int|
                #[trigger] unanswered_since(calls, i, peer) && now - calls[i]->Ping_now
                    < PING_INTERVAL;
            &&& awaited ==> begun is None
            &&& !awaited ==> begun is Some && begun->0 == (1 + pings_begun(calls))
                % 0x1_0000_0000_0000_0000
        }),
{
    lemma_history_next_nonce(calls);
    lemma_history_ping_refused(calls, peer, now);
    let begun = after_calls(calls).ping_outcome(peer, now);
    if begun is None {
        let i = choose|i: int|
            #[trigger] unanswered_since(calls, i, peer) && elapsed(now, calls[i]->Ping_now)
                < PING_INTERVAL;
        assert(unanswered_since(calls, i, peer) && now - calls[i]->Ping_now < PING_INTERVAL);
    }
    assert forall|i: int|
        #[trigger] unanswered_since(calls, i, peer) && now - calls[i]->Ping_now
            < PING_INTERVAL implies elapsed(now, calls[i]->Ping_now) < PING_INTERVAL by {}
}

/// The pongs that settle a pending ping are exactly those that come with the nonce of the
/// latest ping to their peer, while that is unanswered.
pub proof fn lemma_answers_by_calls(calls: Seq<Call>, at: int, peer: OmniPeerId)
    ensures
        is_answer(calls, at, peer) <==> exists|i: int| #[trigger] answers_ping(calls, at, i, peer),
        forall|i: int| #[trigger]
            answers_ping(calls, at, i, peer) ==> {
                let took = answer_took(calls, at, peer);
                let sent = calls[i]->Ping_now;
                let answered = calls[at]->Pong_now;
                &&& sent <= answered ==> took == answered - sent
                &&& answered < sent ==> took == 0
            },
{
    if 0 <= at < calls.len() {
        let earlier = calls.take(at);
        if is_answer(calls, at, peer) {
            let i = lemma_pending_is_unanswered(earlier, peer);
            lemma_unanswered_is_pending(earlier, i, peer);
            assert(answers_ping(calls, at, i, peer));
        }
        assert forall|i: int| #[trigger] answers_ping(calls, at, i, peer) implies is_answer(
            calls,
            at,
            peer,
        ) && before(calls, at).peer(peer).pending_ping == Some(ping_at(earlier, i)) && earlier[i]
            == calls[i] by {
            lemma_unanswered_is_pending(earlier, i, peer);
        }
    }
}

/// After any calls, the latest answer of a peer says all that is known of its answers: the
/// round trip is the time from the ping to that pong, and the peer was last seen when that
/// pong came.
pub proof fn lemma_summary_by_calls(
    calls: Seq<Call>,
    at: int,
    i: int,
    peer: OmniPeerId,
    now: Moment,
)
    requires
        answers_ping(calls, at, i, peer),
        forall|later: int, j: int| at < later ==> !#[trigger] answers_ping(calls, later, j, peer),
    ensures
        ({
            let summary = after_calls(calls).summary(peer, now);
            let sent = calls[i]->Ping_now;
            let answered = calls[at]->Pong_now;
            &&& summary.rtt is Some
            &&& sent <= answered ==> summary.rtt->0 == answered - sent
            &&& answered < sent ==> summary.rtt->0 == 0
            &&& summary.last_seen_ago is Some
            &&& answered <= now ==> summary.last_seen_ago->0 == now - answered
            &&& now < answered ==> summary.last_seen_ago->0 == 0
        }),
{
    lemma_answers_by_calls(calls, at, peer);
    assert(is_answer(calls, at, peer));
    assert forall|later: int| at < later < calls.len() implies !is_answer(calls, later, peer) by {
        lemma_answers_by_calls(calls, later, peer);
        if is_answer(calls, later, peer) {
            let j = choose|j: int| #[trigger] answers_ping(calls, later, j, peer);
            assert(answers_ping(calls, later, j, peer));
        }
    }
    lemma_history_summary(calls, peer, at, now);
}

/// Where no pong of a peer has answered a ping to it, nothing is known of its answers.
pub proof fn lemma_no_summary_by_calls(calls: Seq<Call>, peer: OmniPeerId, now: Moment)
    requires
        forall|at: int, i: int| !#[trigger] answers_ping(calls, at, i, peer),
    ensures
        after_calls(calls).summary(peer, now).rtt is None,
        after_calls(calls).summary(peer, now).last_seen_ago is None,
{
    assert forall|at: int| !is_answer(calls, at, peer) by {
        lemma_answers_by_calls(calls, at, peer);
    }
    lemma_history_summary_known(calls, peer, now);
}

} // verus!

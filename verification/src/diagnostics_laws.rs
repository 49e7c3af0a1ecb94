//! What holds of the diagnostics of all peers over several calls.

use vstd::prelude::*;

use crate::clock::{elapsed, Moment, PING_INTERVAL};
use crate::diagnostics::{fresh_diagnostics, DiagnosticsView, PingSummary};
use crate::message::{OmniPeerId, Reliability};
use crate::ranking::TrafficSummary;
use crate::report_laws::{by_category, lemma_full_report, lemma_top};
use crate::traffic::{
    has_room, is_top, lemma_unseen_total, opened, pruned, recorded, seen, total, BucketView, Total,
};
use crate::traffic_laws::{
    lemma_few_buckets, lemma_pruned_is_suffix, lemma_pruned_spaced, lemma_pruned_twice,
    lemma_recorded_spaced, lemma_recorded_total, well_spaced, within_window, MAX_BUCKETS,
};

verus! {

/// Whether the buckets of every peer are well spaced.
pub open spec fn all_spaced(diagnostics: DiagnosticsView) -> bool {
    forall|peer: OmniPeerId| well_spaced(#[trigger] diagnostics.peer(peer).buckets)
}

/// Diagnostics start out well spaced.
pub proof fn lemma_start_spaced()
    ensures
        all_spaced(fresh_diagnostics()),
{
}

/// Whatever is recorded, reported, pinged or answered, and whatever the clock says, the
/// buckets of every peer stay well spaced.
pub proof fn lemma_calls_keep_spacing(
    diagnostics: DiagnosticsView,
    peer: OmniPeerId,
    now: Moment,
    category: Seq<char>,
    reliability: Reliability,
    len: nat,
    nonce: u64,
)
    requires
        all_spaced(diagnostics),
    ensures
        all_spaced(diagnostics.after_record(now, peer, category, reliability, len)),
        all_spaced(diagnostics.after_report(peer, now)),
        all_spaced(diagnostics.after_ping(peer, now)),
        all_spaced(diagnostics.after_pong(peer, nonce, now)),
{
    let buckets = diagnostics.peer(peer).buckets;
    assert(well_spaced(buckets));
    lemma_recorded_spaced(buckets, now, category, len);
    lemma_pruned_spaced(buckets, now);
    let after = diagnostics.after_record(now, peer, category, reliability, len);
    assert forall|other: OmniPeerId| well_spaced(#[trigger] after.peer(other).buckets) by {
        assert(well_spaced(diagnostics.peer(other).buckets));
        assert(other.0 == peer.0 ==> other == peer);
    }
    let after = diagnostics.after_report(peer, now);
    assert forall|other: OmniPeerId| well_spaced(#[trigger] after.peer(other).buckets) by {
        assert(well_spaced(diagnostics.peer(other).buckets));
        assert(other.0 == peer.0 ==> other == peer);
    }
    let after = diagnostics.after_ping(peer, now);
    assert forall|other: OmniPeerId| well_spaced(#[trigger] after.peer(other).buckets) by {
        assert(well_spaced(diagnostics.peer(other).buckets));
        assert(other.0 == peer.0 ==> other == peer);
    }
    let after = diagnostics.after_pong(peer, nonce, now);
    assert forall|other: OmniPeerId| well_spaced(#[trigger] after.peer(other).buckets) by {
        assert(well_spaced(diagnostics.peer(other).buckets));
        assert(other.0 == peer.0 ==> other == peer);
    }
}

/// Well spaced diagnostics keep only so many buckets for any one peer.
pub proof fn lemma_few_buckets_per_peer(diagnostics: DiagnosticsView, peer: OmniPeerId)
    requires
        all_spaced(diagnostics),
    ensures
        diagnostics.peer(peer).buckets.len() <= MAX_BUCKETS,
{
    assert(well_spaced(diagnostics.peer(peer).buckets));
    lemma_few_buckets(diagnostics.peer(peer).buckets);
}

/// A call that speaks of one peer leaves what is known of every other peer as it was.
pub proof fn lemma_other_peers_untouched(
    diagnostics: DiagnosticsView,
    peer: OmniPeerId,
    other: OmniPeerId,
    now: Moment,
    category: Seq<char>,
    reliability: Reliability,
    len: nat,
    nonce: u64,
)
    requires
        other != peer,
    ensures
        diagnostics.after_record(now, peer, category, reliability, len).peer(other)
            == diagnostics.peer(other),
        diagnostics.after_report(peer, now).peer(other) == diagnostics.peer(other),
        diagnostics.after_ping(peer, now).peer(other) == diagnostics.peer(other),
        diagnostics.after_pong(peer, nonce, now).peer(other) == diagnostics.peer(other),
{
}

/// Traffic does not touch pings, and pings do not touch traffic.
pub proof fn lemma_traffic_and_pings_apart(
    diagnostics: DiagnosticsView,
    peer: OmniPeerId,
    now: Moment,
    category: Seq<char>,
    reliability: Reliability,
    len: nat,
    nonce: u64,
    later: Moment,
)
    ensures
        diagnostics.after_record(now, peer, category, reliability, len).summary(peer, later)
            == diagnostics.summary(peer, later),
        diagnostics.after_record(now, peer, category, reliability, len).peer(peer).pending_ping
            == diagnostics.peer(peer).pending_ping,
        diagnostics.after_record(now, peer, category, reliability, len).next_ping_nonce
            == diagnostics.next_ping_nonce,
        diagnostics.after_report(peer, now).summary(peer, later) == diagnostics.summary(
            peer,
            later,
        ),
        diagnostics.after_report(peer, now).peer(peer).pending_ping == diagnostics.peer(
            peer,
        ).pending_ping,
        diagnostics.after_report(peer, now).next_ping_nonce == diagnostics.next_ping_nonce,
        diagnostics.after_ping(peer, now).peer(peer).buckets == diagnostics.peer(peer).buckets,
        diagnostics.after_pong(peer, nonce, now).peer(peer).buckets == diagnostics.peer(
            peer,
        ).buckets,
        diagnostics.after_pong(peer, nonce, now).next_ping_nonce == diagnostics.next_ping_nonce,
{
}

/// A message that is not sent reliably is not counted.
pub proof fn lemma_unreliable_not_counted(
    diagnostics: DiagnosticsView,
    peer: OmniPeerId,
    now: Moment,
    category: Seq<char>,
    len: nat,
)
    ensures
        diagnostics.after_record(now, peer, category, Reliability::Unreliable, len) == diagnostics,
{
}

/// A report right after a reliable message has that message in it: where it names the
/// message's category, it gives one message and the message's bytes more than there
/// were in the window, and it leaves that category out only for the limit's sake.
pub proof fn lemma_report_after_record(
    diagnostics: DiagnosticsView,
    peer: OmniPeerId,
    now: Moment,
    category: Seq<char>,
    len: nat,
    top: Seq<TrafficSummary>,
    limit: nat,
)
    requires
        has_room(diagnostics.peer(peer).buckets, now, category, len),
        is_top(
            top,
            pruned(
                diagnostics.after_record(now, peer, category, Reliability::Reliable, len).peer(
                    peer,
                ).buckets,
                now,
            ),
            limit,
        ),
    ensures
        ({
            let before = total(pruned(diagnostics.peer(peer).buckets, now), category);
            &&& forall|i: int|
                0 <= i < top.len() && (#[trigger] top[i]).category@ == category
                    ==> top[i].messages == before.messages + 1 && top[i].bytes == before.bytes
                    + len
            &&& {
                ||| exists|i: int| 0 <= i < top.len() && (#[trigger] top[i]).category@ == category
                ||| top.len() == limit && forall|i: int|
                    0 <= i < top.len() ==> (#[trigger] top[i]).bytes >= before.bytes + len
            }
        }),
{
    let buckets = diagnostics.peer(peer).buckets;
    let after = recorded(buckets, now, category, len);
    lemma_just_recorded_stays(buckets, now, category, len);
    lemma_recorded_total(buckets, now, category, len, category);
    lemma_top(top, after, limit);
    assert(seen(after, category));
}

/// A report does not change what a later report says.
pub proof fn lemma_report_repeats(
    diagnostics: DiagnosticsView,
    peer: OmniPeerId,
    now: Moment,
    later: Moment,
)
    requires
        now <= later,
    ensures
        pruned(diagnostics.after_report(peer, now).peer(peer).buckets, later) == pruned(
            diagnostics.peer(peer).buckets,
            later,
        ),
{
    lemma_pruned_twice(diagnostics.peer(peer).buckets, now, later);
}

/// A ping that is answered shows in the summary: how long the answer took, and how long
/// ago it came.
pub proof fn lemma_answered_ping_shows(
    diagnostics: DiagnosticsView,
    peer: OmniPeerId,
    sent: Moment,
    answered: Moment,
    later: Moment,
)
    ensures
        ({
            let nonce = diagnostics.next_ping_nonce;
            diagnostics.after_ping(peer, sent).after_pong(peer, nonce, answered).summary(
                peer,
                later,
            )
        }) == (PingSummary {
            rtt: Some(elapsed(answered, sent)),
            last_seen_ago: Some(elapsed(later, answered)),
        }),
{
}

/// A pong that does not answer the pending ping changes nothing.
pub proof fn lemma_other_pong_ignored(
    diagnostics: DiagnosticsView,
    peer: OmniPeerId,
    sent: Moment,
    nonce: u64,
    now: Moment,
)
    requires
        nonce != diagnostics.next_ping_nonce,
    ensures
        diagnostics.after_ping(peer, sent).after_pong(peer, nonce, now) == diagnostics.after_ping(
            peer,
            sent,
        ),
{
}

/// An answer counts once: the same pong again changes nothing.
pub proof fn lemma_pong_counts_once(
    diagnostics: DiagnosticsView,
    peer: OmniPeerId,
    nonce: u64,
    now: Moment,
    again: Moment,
)
    ensures
        diagnostics.after_pong(peer, nonce, now).after_pong(peer, nonce, again)
            == diagnostics.after_pong(peer, nonce, now),
{
}

/// A ping that was given up for a newer one has another nonce, and its answer no longer
/// counts, while the answer to the newer one does.
pub proof fn lemma_given_up_ping(
    diagnostics: DiagnosticsView,
    peer: OmniPeerId,
    first_sent: Moment,
    second_sent: Moment,
    now: Moment,
)
    ensures
        ({
            let first = diagnostics.next_ping_nonce;
            let once = diagnostics.after_ping(peer, first_sent);
            let second = once.next_ping_nonce;
            let twice = once.after_ping(peer, second_sent);
            &&& first != second
            &&& twice.after_pong(peer, first, now) == twice
            &&& twice.after_pong(peer, second, now).summary(peer, now).rtt == Some(
                elapsed(now, second_sent),
            )
        }),
{
}

/// A ping keeps the next one to the same peer back for the interval, and no longer; once
/// it is answered it keeps back nothing. Beginning it does not change the summary.
pub proof fn lemma_ping_interval(
    diagnostics: DiagnosticsView,
    peer: OmniPeerId,
    sent: Moment,
    now: Moment,
    answered: Moment,
)
    ensures
        diagnostics.after_ping(peer, sent).awaits_pong(peer, now) <==> elapsed(now, sent)
            < PING_INTERVAL,
        !diagnostics.after_ping(peer, sent).after_pong(
            peer,
            diagnostics.next_ping_nonce,
            answered,
        ).awaits_pong(peer, now),
        diagnostics.after_ping(peer, sent).summary(peer, now) == diagnostics.summary(peer, now),
{
}

/// Recording a message to one peer changes the traffic of that peer and nothing else: what
/// is known of other peers stays, and so do the pings of every peer, that peer among them.
pub proof fn lemma_record_changes_traffic_only(
    diagnostics: DiagnosticsView,
    peer: OmniPeerId,
    now: Moment,
    category: Seq<char>,
    reliability: Reliability,
    len: nat,
    other: OmniPeerId,
    later: Moment,
    nonce: u64,
)
    ensures
        ({
            let after = diagnostics.after_record(now, peer, category, reliability, len);
            &&& other != peer ==> after.peer(other) == diagnostics.peer(other)
            &&& after.summary(other, later) == diagnostics.summary(other, later)
            &&& after.ping_outcome(other, later) == diagnostics.ping_outcome(other, later)
            &&& after.answers(other, nonce) == diagnostics.answers(other, nonce)
        }),
{
}

/// The whole report before a reliable message against the whole report after it: the
/// message's category has gained one message and the message's bytes, starting from
/// nothing where it was not named, and every other category is as it was.
pub proof fn lemma_record_raises_report(
    diagnostics: DiagnosticsView,
    peer: OmniPeerId,
    now: Moment,
    category: Seq<char>,
    len: nat,
    before: Seq<TrafficSummary>,
    after: Seq<TrafficSummary>,
)
    requires
        is_top(before, pruned(diagnostics.peer(peer).buckets, now), usize::MAX as nat),
        has_room(diagnostics.after_report(peer, now).peer(peer).buckets, now, category, len),
        is_top(
            after,
            pruned(
                diagnostics.after_report(peer, now).after_record(
                    now,
                    peer,
                    category,
                    Reliability::Reliable,
                    len,
                ).peer(peer).buckets,
                now,
            ),
            usize::MAX as nat,
        ),
    ensures
        by_category(after) == by_category(before).insert(
            category,
            if by_category(before).contains_key(category) {
                Total {
                    messages: by_category(before)[category].messages + 1,
                    bytes: by_category(before)[category].bytes + len,
                }
            } else {
                Total { messages: 1, bytes: len }
            },
        ),
{
    let buckets = diagnostics.peer(peer).buckets;
    let kept = pruned(buckets, now);
    let recorded_after = recorded(kept, now, category, len);
    assert(diagnostics.after_report(peer, now).peer(peer).buckets == kept);
    lemma_pruned_twice(buckets, now, now);
    lemma_just_recorded_stays(kept, now, category, len);
    lemma_full_report(before, kept);
    lemma_full_report(after, recorded_after);
    assert forall|other: Seq<char>| #[trigger]
        total(recorded_after, other) == (if other == category {
            Total {
                messages: total(kept, category).messages + 1,
                bytes: total(kept, category).bytes + len,
            }
        } else {
            total(kept, other)
        }) by {
        lemma_recorded_total(kept, now, category, len, other);
    }
    assert forall|other: Seq<char>| #[trigger]
        seen(recorded_after, other) == (other == category || seen(kept, other)) by {
        lemma_recorded_total(kept, now, category, len, other);
    }
    if !seen(kept, category) {
        lemma_unseen_total(kept, category);
    }
    assert(by_category(after) =~= by_category(before).insert(
        category,
        Total {
            messages: total(kept, category).messages + 1,
            bytes: total(kept, category).bytes + len,
        },
    ));
}

/// Right after a message was counted there is nothing to prune.
proof fn lemma_just_recorded_stays(
    buckets: Seq<BucketView>,
    now: Moment,
    category: Seq<char>,
    len: nat,
)
    ensures
        pruned(recorded(buckets, now, category, len), now) == recorded(
            buckets,
            now,
            category,
            len,
        ),
{
    let after = recorded(buckets, now, category, len);
    let dropped = lemma_pruned_is_suffix(buckets, now);
    assert(after[0].at == opened(buckets, now)[0].at);
    if pruned(buckets, now).len() > 0 {
        assert(pruned(buckets, now)[0] == buckets[dropped]);
    }
    assert(within_window(after[0], now));
}

} // verus!

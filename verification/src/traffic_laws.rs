//! What holds of counted traffic over time.

use vstd::prelude::*;

use crate::clock::{elapsed, Moment, BUCKET_SPAN, WINDOW};
use crate::traffic::{
    counter_in, has_room, opened, pruned, recorded, seen, total, BucketView, Total,
};

verus! {

/// The most buckets that are ever kept for one peer.
pub const MAX_BUCKETS: usize = 11;

/// Whether buckets lie at least a bucket's span apart, in order, and no further apart
/// than the window.
pub open spec fn well_spaced(buckets: Seq<BucketView>) -> bool {
    &&& forall|i: int, j: int|
        0 <= i < j < buckets.len() ==> (#[trigger] buckets[i]).at + BUCKET_SPAN <= (
        #[trigger] buckets[j]).at
    &&& buckets.len() > 0 ==> buckets.last().at - buckets[0].at <= WINDOW
}

/// Whether a bucket is not older than the window.
pub open spec fn within_window(bucket: BucketView, now: Moment) -> bool {
    elapsed(now, bucket.at) <= WINDOW
}

/// Whether no bucket was opened after `now`.
pub open spec fn opened_by(buckets: Seq<BucketView>, now: Moment) -> bool {
    forall|i: int| 0 <= i < buckets.len() ==> (#[trigger] buckets[i]).at <= now
}

/// Pruning leaves the end of the queue: what it drops lies outside the window, and the
/// first bucket that is left lies inside.
pub proof fn lemma_pruned_is_suffix(buckets: Seq<BucketView>, now: Moment) -> (dropped: int)
    ensures
        0 <= dropped <= buckets.len(),
        pruned(buckets, now) == buckets.skip(dropped),
        forall|i: int| 0 <= i < dropped ==> !within_window(#[trigger] buckets[i], now),
        dropped < buckets.len() ==> within_window(buckets[dropped], now),
    decreases buckets.len(),
{
    if buckets.len() > 0 && !within_window(buckets[0], now) {
        let rest = buckets.drop_first();
        let dropped = lemma_pruned_is_suffix(rest, now);
        assert(rest.skip(dropped) =~= buckets.skip(dropped + 1));
        assert forall|i: int| 0 <= i < dropped + 1 implies !within_window(
            #[trigger] buckets[i],
            now,
        ) by {
            if i > 0 {
                assert(buckets[i] == rest[i - 1]);
            }
        }
        dropped + 1
    } else {
        assert(buckets.skip(0) =~= buckets);
        0
    }
}

/// Where buckets are well spaced, pruning keeps exactly those that lie in the window.
pub proof fn lemma_pruned_keeps_the_window(buckets: Seq<BucketView>, now: Moment)
    requires
        well_spaced(buckets),
    ensures
        pruned(buckets, now) == buckets.filter(|bucket: BucketView| within_window(bucket, now)),
{
    let dropped = lemma_pruned_is_suffix(buckets, now);
    let kept = |bucket: BucketView| within_window(bucket, now);
    let front = buckets.take(dropped);
    let back = buckets.skip(dropped);
    assert(front + back =~= buckets);
    Seq::filter_distributes_over_add(front, back, kept);
    assert forall|i: int| 0 <= i < front.len() implies !kept(#[trigger] front[i]) by {
        assert(front[i] == buckets[i]);
    }
    lemma_filter_none(front, kept);
    assert forall|i: int| 0 <= i < back.len() implies kept(#[trigger] back[i]) by {
        assert(back[i] == buckets[i + dropped]);
        assert(within_window(buckets[dropped], now));
    }
    lemma_filter_all(back, kept);
    assert(buckets.filter(kept) =~= back);
}

/// A filter that nothing passes leaves nothing.
proof fn lemma_filter_none(buckets: Seq<BucketView>, kept: spec_fn(BucketView) -> bool)
    requires
        forall|i: int| 0 <= i < buckets.len() ==> !kept(#[trigger] buckets[i]),
    ensures
        buckets.filter(kept) == Seq::<BucketView>::empty(),
    decreases buckets.len(),
{
    reveal(Seq::filter);
    if buckets.len() > 0 {
        assert forall|i: int| 0 <= i < buckets.len() - 1 implies !kept(
            #[trigger] buckets.drop_last()[i],
        ) by {
            assert(buckets.drop_last()[i] == buckets[i]);
        }
        lemma_filter_none(buckets.drop_last(), kept);
    }
}

/// A filter that everything passes leaves everything.
proof fn lemma_filter_all(buckets: Seq<BucketView>, kept: spec_fn(BucketView) -> bool)
    requires
        forall|i: int| 0 <= i < buckets.len() ==> kept(#[trigger] buckets[i]),
    ensures
        buckets.filter(kept) == buckets,
    decreases buckets.len(),
{
    reveal(Seq::filter);
    if buckets.len() > 0 {
        assert forall|i: int| 0 <= i < buckets.len() - 1 implies kept(
            #[trigger] buckets.drop_last()[i],
        ) by {
            assert(buckets.drop_last()[i] == buckets[i]);
        }
        lemma_filter_all(buckets.drop_last(), kept);
        assert(buckets.drop_last().push(buckets.last()) =~= buckets);
    }
}

/// Pruning keeps buckets well spaced.
pub proof fn lemma_pruned_spaced(buckets: Seq<BucketView>, now: Moment)
    requires
        well_spaced(buckets),
    ensures
        well_spaced(pruned(buckets, now)),
{
    let dropped = lemma_pruned_is_suffix(buckets, now);
    let kept = pruned(buckets, now);
    assert forall|i: int, j: int| 0 <= i < j < kept.len() implies (#[trigger] kept[i]).at
        + BUCKET_SPAN <= (#[trigger] kept[j]).at by {
        assert(kept[i] == buckets[i + dropped] && kept[j] == buckets[j + dropped]);
    }
    if kept.len() > 0 {
        assert(kept.last() == buckets.last());
        assert(kept[0] == buckets[dropped]);
        assert(buckets[0].at <= buckets[dropped].at);
    }
}

/// Counting a message keeps buckets well spaced, whatever the clock says.
pub proof fn lemma_recorded_spaced(
    buckets: Seq<BucketView>,
    now: Moment,
    category: Seq<char>,
    len: nat,
)
    requires
        well_spaced(buckets),
    ensures
        well_spaced(recorded(buckets, now, category, len)),
{
    lemma_pruned_spaced(buckets, now);
    let dropped = lemma_pruned_is_suffix(buckets, now);
    let kept = pruned(buckets, now);
    let found = opened(buckets, now);
    assert(well_spaced(found)) by {
        if found.len() > kept.len() {
            assert forall|i: int, j: int| 0 <= i < j < found.len() implies (
            #[trigger] found[i]).at + BUCKET_SPAN <= (#[trigger] found[j]).at by {
                assert(found[i] == kept[i]);
                if j < kept.len() {
                    assert(found[j] == kept[j]);
                } else {
                    assert(kept[i].at <= kept.last().at);
                }
            }
            if kept.len() > 0 {
                assert(kept[0] == buckets[dropped]);
                assert(kept[0].at <= kept.last().at);
            }
        }
    }
    let after = recorded(buckets, now, category, len);
    assert forall|i: int, j: int| 0 <= i < j < after.len() implies (#[trigger] after[i]).at
        + BUCKET_SPAN <= (#[trigger] after[j]).at by {
        assert(after[i].at == found[i].at && after[j].at == found[j].at);
    }
    assert(after[0].at == found[0].at && after.last().at == found.last().at);
}

/// Well spaced buckets are few: they never outnumber the spans of the window by more
/// than one.
pub proof fn lemma_few_buckets(buckets: Seq<BucketView>)
    requires
        well_spaced(buckets),
    ensures
        buckets.len() <= MAX_BUCKETS,
{
    if buckets.len() > 0 {
        lemma_spread(buckets, buckets.len() - 1);
    }
}

/// The bucket at position `i` lies at least `i` spans after the first.
proof fn lemma_spread(buckets: Seq<BucketView>, i: int)
    requires
        well_spaced(buckets),
        0 <= i < buckets.len(),
    ensures
        buckets[0].at + i * BUCKET_SPAN <= buckets[i].at,
    decreases i,
{
    if i > 0 {
        lemma_spread(buckets, i - 1);
        assert(buckets[i - 1].at + BUCKET_SPAN <= buckets[i].at);
    }
}

/// Replacing the last bucket changes a total by what changes in that bucket.
proof fn lemma_total_of_changed_last(
    buckets: Seq<BucketView>,
    last: BucketView,
    category: Seq<char>,
)
    requires
        buckets.len() > 0,
    ensures
        ({
            let before = counter_in(buckets.last().reliable, category);
            let after = counter_in(last.reliable, category);
            let changed = total(buckets.update(buckets.len() - 1, last), category);
            &&& changed.messages == total(buckets, category).messages - before.messages
                + after.messages
            &&& changed.bytes == total(buckets, category).bytes - before.bytes + after.bytes
        }),
{
    let changed = buckets.update(buckets.len() - 1, last);
    assert(changed.drop_last() =~= buckets.drop_last());
}

/// Counting a message adds one message and its bytes to what its category came to in
/// the window, and leaves every other category as it was.
pub proof fn lemma_recorded_total(
    buckets: Seq<BucketView>,
    now: Moment,
    category: Seq<char>,
    len: nat,
    other: Seq<char>,
)
    requires
        has_room(buckets, now, category, len),
    ensures
        total(recorded(buckets, now, category, len), other) == (if other == category {
            Total {
                messages: total(pruned(buckets, now), category).messages + 1,
                bytes: total(pruned(buckets, now), category).bytes + len,
            }
        } else {
            total(pruned(buckets, now), other)
        }),
        seen(recorded(buckets, now, category, len), other) == (other == category || seen(
            pruned(buckets, now),
            other,
        )),
{
    let kept = pruned(buckets, now);
    let found = opened(buckets, now);
    let after = recorded(buckets, now, category, len);
    let last = after.last();
    if found.len() > kept.len() {
        assert(found.drop_last() =~= kept);
    }
    assert(total(found, other) == total(kept, other));
    lemma_total_of_changed_last(found, last, other);
    assert(after =~= found.update(found.len() - 1, last));
    if other == category {
        assert(after[after.len() - 1].reliable.contains_key(other));
    } else {
        if seen(after, other) {
            let i = choose|i: int|
                0 <= i < after.len() && #[trigger] after[i].reliable.contains_key(other);
            assert(found[i].reliable.contains_key(other));
            assert(i < kept.len());
            assert(kept[i].reliable.contains_key(other));
        }
        if seen(kept, other) {
            let i = choose|i: int|
                0 <= i < kept.len() && #[trigger] kept[i].reliable.contains_key(other);
            assert(found[i].reliable.contains_key(other));
            assert(after[i].reliable.contains_key(other));
        }
    }
}

/// Pruning now does not change what is left later.
pub proof fn lemma_pruned_twice(buckets: Seq<BucketView>, now: Moment, later: Moment)
    requires
        now <= later,
    ensures
        pruned(pruned(buckets, now), later) == pruned(buckets, later),
    decreases buckets.len(),
{
    if buckets.len() > 0 && !within_window(buckets[0], now) {
        lemma_pruned_twice(buckets.drop_first(), now, later);
    }
}

/// While the clock does not go back, a message that was counted is remembered for the
/// window less one bucket's span.
pub proof fn lemma_recent_message_remembered(
    buckets: Seq<BucketView>,
    now: Moment,
    category: Seq<char>,
    len: nat,
    later: Moment,
)
    requires
        has_room(buckets, now, category, len),
        now <= later,
        later - now <= WINDOW - BUCKET_SPAN,
    ensures
        seen(pruned(recorded(buckets, now, category, len), later), category),
        total(pruned(recorded(buckets, now, category, len), later), category).messages >= 1,
        total(pruned(recorded(buckets, now, category, len), later), category).bytes >= len,
{
    let after = recorded(buckets, now, category, len);
    let dropped = lemma_pruned_is_suffix(after, later);
    let left = pruned(after, later);
    assert(elapsed(now, after.last().at) < BUCKET_SPAN);
    assert(within_window(after[after.len() - 1], later));
    assert(left[left.len() - 1] == after.last());
    assert(left[left.len() - 1].reliable.contains_key(category));
}

/// What was counted before the window began is forgotten: where every bucket was opened
/// by `then`, nothing is left once more than the window has passed since.
pub proof fn lemma_old_traffic_forgotten(buckets: Seq<BucketView>, then: Moment, now: Moment)
    requires
        opened_by(buckets, then),
        now - then > WINDOW,
    ensures
        pruned(buckets, now).len() == 0,
{
    let dropped = lemma_pruned_is_suffix(buckets, now);
    if dropped < buckets.len() {
        assert(buckets[dropped].at <= then);
    }
}

/// Counting a message leaves no bucket that was opened after `by`, if there was none and
/// the message does not come later either.
pub proof fn lemma_recorded_opened_by(
    buckets: Seq<BucketView>,
    now: Moment,
    category: Seq<char>,
    len: nat,
    by: Moment,
)
    requires
        opened_by(buckets, by),
        now <= by,
    ensures
        opened_by(recorded(buckets, now, category, len), by),
{
    let after = recorded(buckets, now, category, len);
    assert forall|i: int| 0 <= i < after.len() implies (#[trigger] after[i]).at <= by by {
        let _ = lemma_recorded_times(buckets, now, category, len, i);
    }
}

/// After a message was counted, a bucket was opened when one of the buckets before was,
/// or with this message.
pub proof fn lemma_recorded_times(
    buckets: Seq<BucketView>,
    now: Moment,
    category: Seq<char>,
    len: nat,
    i: int,
) -> (origin: Option<int>)
    requires
        0 <= i < recorded(buckets, now, category, len).len(),
    ensures
        match origin {
            Some(k) => 0 <= k < buckets.len() && recorded(buckets, now, category, len)[i].at
                == buckets[k].at,
            None => recorded(buckets, now, category, len)[i].at == now,
        },
{
    let dropped = lemma_pruned_is_suffix(buckets, now);
    let kept = pruned(buckets, now);
    let found = opened(buckets, now);
    assert(recorded(buckets, now, category, len)[i].at == found[i].at);
    if i < kept.len() {
        assert(found[i] == kept[i]);
        assert(kept[i] == buckets[i + dropped]);
        Some(i + dropped)
    } else {
        None
    }
}

/// Whether every counter of every bucket has counted a message.
pub open spec fn counted(buckets: Seq<BucketView>) -> bool {
    forall|i: int, category: Seq<char>|
        0 <= i < buckets.len() && #[trigger] buckets[i].reliable.contains_key(category)
            ==> buckets[i].reliable[category].messages >= 1
}

/// Pruning leaves only counters that have counted a message, if all had.
pub proof fn lemma_pruned_counted(buckets: Seq<BucketView>, now: Moment)
    requires
        counted(buckets),
    ensures
        counted(pruned(buckets, now)),
{
    let dropped = lemma_pruned_is_suffix(buckets, now);
    let kept = pruned(buckets, now);
    assert forall|i: int, category: Seq<char>|
        0 <= i < kept.len() && #[trigger] kept[i].reliable.contains_key(
            category,
        ) implies kept[i].reliable[category].messages >= 1 by {
        assert(buckets[i + dropped].reliable.contains_key(category));
    }
}

/// After a message was counted every counter has counted a message, if all had before.
pub proof fn lemma_recorded_counted(
    buckets: Seq<BucketView>,
    now: Moment,
    category: Seq<char>,
    len: nat,
)
    requires
        counted(buckets),
        has_room(buckets, now, category, len),
    ensures
        counted(recorded(buckets, now, category, len)),
{
    lemma_pruned_counted(buckets, now);
    let kept = pruned(buckets, now);
    let found = opened(buckets, now);
    let after = recorded(buckets, now, category, len);
    assert forall|i: int, other: Seq<char>|
        0 <= i < after.len() && #[trigger] after[i].reliable.contains_key(
            other,
        ) implies after[i].reliable[other].messages >= 1 by {
        if i < after.len() - 1 || other != category {
            assert(found[i].reliable.contains_key(other));
            assert(i < kept.len());
            assert(kept[i].reliable.contains_key(other));
        }
    }
}

/// A category that was seen comes to at least one message, where every counter has
/// counted one.
pub proof fn lemma_seen_total(buckets: Seq<BucketView>, category: Seq<char>)
    requires
        counted(buckets),
        seen(buckets, category),
    ensures
        total(buckets, category).messages >= 1,
    decreases buckets.len(),
{
    let last = buckets.len() - 1;
    if !buckets[last].reliable.contains_key(category) {
        let rest = buckets.drop_last();
        let i = choose|i: int|
            0 <= i < buckets.len() && #[trigger] buckets[i].reliable.contains_key(category);
        assert(rest[i].reliable.contains_key(category));
        assert forall|j: int, other: Seq<char>|
            0 <= j < rest.len() && #[trigger] rest[j].reliable.contains_key(
                other,
            ) implies rest[j].reliable[other].messages >= 1 by {
            assert(buckets[j].reliable.contains_key(other));
        }
        lemma_seen_total(rest, category);
    }
}

/// Right after a message was counted at `now`, by a clock that has not gone back, there
/// are buckets, but not many; the oldest is at most the window old, and the newest is
/// younger than a bucket's span.
pub proof fn lemma_recorded_ages(
    buckets: Seq<BucketView>,
    now: Moment,
    category: Seq<char>,
    len: nat,
)
    requires
        well_spaced(buckets),
        opened_by(buckets, now),
    ensures
        ({
            let after = recorded(buckets, now, category, len);
            &&& 1 <= after.len() <= MAX_BUCKETS
            &&& well_spaced(after)
            &&& opened_by(after, now)
            &&& now - after[0].at <= WINDOW
            &&& now - after.last().at < BUCKET_SPAN
        }),
{
    let dropped = lemma_pruned_is_suffix(buckets, now);
    let kept = pruned(buckets, now);
    let found = opened(buckets, now);
    let after = recorded(buckets, now, category, len);
    lemma_recorded_spaced(buckets, now, category, len);
    lemma_few_buckets(after);
    lemma_recorded_opened_by(buckets, now, category, len, now);
    assert(after[0].at == found[0].at && after.last().at == found.last().at);
    if kept.len() > 0 {
        assert(found[0] == kept[0] && kept[0] == buckets[dropped]);
        assert(kept.last() == buckets.last());
    }
}

} // verus!

//! Reliable traffic to one peer: counted per category in buckets of time, and
//! forgotten once it is older than the window.

use rustc_hash::FxHashMap;
use std::collections::VecDeque;
use vstd::prelude::*;

use crate::clock::{duration_since, elapsed, Moment, BUCKET_SPAN, WINDOW};
use crate::fx::{counter_of, counters_of, listed_counters, new_counters, put_counter};
use crate::ranking::{first_entries, rank, ranked, TrafficSummary};

verus! {

/// How many messages there were, and how many bytes they took.
#[derive(Debug, Clone, Copy, PartialEq, Eq, Structural)]
pub struct Counter {
    pub messages: u64,
    pub bytes: u64,
}

impl Default for Counter {
    fn default() -> (counter: Self)
        ensures
            counter == (Counter { messages: 0, bytes: 0 }),
    {
        Counter { messages: 0, bytes: 0 }
    }
}

/// The traffic of a stretch of time that begins at `at`.
#[derive(Debug)]
pub struct Bucket {
    pub at: Moment,
    pub reliable: FxHashMap<&'static str, Counter>,
}

/// A bucket as a value: when it was opened, and the counter of each category
/// that it has seen.
pub struct BucketView {
    pub at: Moment,
    pub reliable: Map<Seq<char>, Counter>,
}

impl View for Bucket {
    type V = BucketView;

    open spec fn view(&self) -> BucketView {
        BucketView { at: self.at, reliable: counters_of(self.reliable) }
    }
}

impl Bucket {
    /// Opens an empty bucket.
    pub fn new(at: Moment) -> (bucket: Self)
        ensures
            bucket@ == (BucketView { at, reliable: Map::empty() }),
            bucket.at == at,
    {
        Bucket { at, reliable: new_counters() }
    }

    /// Looks up the counter of `category`; zero where there is none yet.
    pub fn counter(&self, category: &'static str) -> (counter: Counter)
        ensures
            counter == counter_in(self@.reliable, category@),
            counters_of(self.reliable).contains_key(category@) ==> counter == counters_of(
                self.reliable,
            )[category@],
            !counters_of(self.reliable).contains_key(category@) ==> counter.messages == 0
                && counter.bytes == 0,
    {
        match counter_of(&self.reliable, category) {
            Some(counter) => counter,
            None => Counter::default(),
        }
    }
}

/// The buckets of a queue as values.
pub open spec fn bucket_views(buckets: Seq<Bucket>) -> Seq<BucketView> {
    buckets.map_values(|bucket: Bucket| bucket@)
}

/// The buckets that are left at `now` once those older than the window have been
/// dropped from the front.
pub open spec fn pruned(buckets: Seq<BucketView>, now: Moment) -> Seq<BucketView>
    decreases buckets.len(),
{
    if buckets.len() > 0 && elapsed(now, buckets[0].at) > WINDOW {
        pruned(buckets.drop_first(), now)
    } else {
        buckets
    }
}

/// The counter of `category`; zero where there is none yet.
pub open spec fn counter_in(counters: Map<Seq<char>, Counter>, category: Seq<char>) -> Counter {
    if counters.contains_key(category) {
        counters[category]
    } else {
        Counter { messages: 0, bytes: 0 }
    }
}

/// The buckets that a message at `now` finds: old ones are gone, and the last one
/// is still open, or has just been opened.
pub open spec fn opened(buckets: Seq<BucketView>, now: Moment) -> Seq<BucketView> {
    let kept = pruned(buckets, now);
    if kept.len() == 0 || elapsed(now, kept.last().at) >= BUCKET_SPAN {
        kept.push(BucketView { at: now, reliable: Map::empty() })
    } else {
        kept
    }
}

/// Whether counting a message of `len` bytes keeps the counter of its category
/// within its range.
pub open spec fn has_room(
    buckets: Seq<BucketView>,
    now: Moment,
    category: Seq<char>,
    len: nat,
) -> bool {
    let counter = counter_in(opened(buckets, now).last().reliable, category);
    counter.messages < u64::MAX && counter.bytes + len <= u64::MAX
}

/// The buckets after one message of `len` bytes was counted at `now`.
pub open spec fn recorded(
    buckets: Seq<BucketView>,
    now: Moment,
    category: Seq<char>,
    len: nat,
) -> Seq<BucketView> {
    let found = opened(buckets, now);
    let counter = counter_in(found.last().reliable, category);
    let counted = Counter {
        messages: (counter.messages + 1) as u64,
        bytes: (counter.bytes + len) as u64,
    };
    found.update(
        found.len() - 1,
        BucketView {
            at: found.last().at,
            reliable: found.last().reliable.insert(category, counted),
        },
    )
}

/// Drops the buckets at the front that are older than the window.
pub fn prune_old(buckets: &mut VecDeque<Bucket>, now: Moment)
    ensures
        bucket_views(final(buckets)@) == pruned(bucket_views(old(buckets)@), now),
        final(buckets)@.len() <= old(buckets)@.len(),
        final(buckets)@ == old(buckets)@.skip(old(buckets)@.len() - final(buckets)@.len()),
        forall|i: int|
            0 <= i < old(buckets)@.len() - final(buckets)@.len() ==> now - (
            #[trigger] old(buckets)@[i]).at > WINDOW,
        final(buckets)@.len() > 0 ==> now - final(buckets)@[0].at <= WINDOW,
{
    assert(buckets@.skip(0) =~= buckets@);
    while buckets.len() > 0 && duration_since(now, buckets[0].at) > WINDOW
        invariant
            pruned(bucket_views(buckets@), now) == pruned(bucket_views(old(buckets)@), now),
            buckets@.len() <= old(buckets)@.len(),
            buckets@ == old(buckets)@.skip(old(buckets)@.len() - buckets@.len()),
            forall|i: int|
                0 <= i < old(buckets)@.len() - buckets@.len() ==> now - (
                #[trigger] old(buckets)@[i]).at > WINDOW,
        decreases buckets@.len(),
    {
        let ghost before = buckets@;
        buckets.pop_front();
        assert(bucket_views(buckets@) =~= bucket_views(before).drop_first());
        assert(buckets@ =~= old(buckets)@.skip(old(buckets)@.len() - buckets@.len()));
    }
}

/// Counts a message of `len` bytes at `now`.
pub fn record_message(
    buckets: &mut VecDeque<Bucket>,
    now: Moment,
    category: &'static str,
    len: u64,
)
    requires
        has_room(bucket_views(old(buckets)@), now, category@, len as nat),
    ensures
        bucket_views(final(buckets)@) == recorded(
            bucket_views(old(buckets)@),
            now,
            category@,
            len as nat,
        ),
        final(buckets)@.len() > 0,
        final(buckets)@.last().at == now || old(buckets)@.len() > 0 && final(buckets)@.last().at
            == old(buckets)@.last().at && now - old(buckets)@.last().at < BUCKET_SPAN,
{
    prune_old(buckets, now);
    let count = buckets.len();
    let need_new = count == 0 || duration_since(now, buckets[count - 1].at) >= BUCKET_SPAN;
    let ghost kept = buckets@;
    if need_new {
        buckets.push_back(Bucket::new(now));
        assert(bucket_views(buckets@) =~= opened(bucket_views(old(buckets)@), now));
    }
    let ghost found = buckets@;
    assert(bucket_views(found) == opened(bucket_views(old(buckets)@), now));
    if let Some(mut bucket) = buckets.pop_back() {
        assert(bucket@ == bucket_views(found).last());
        let counter = bucket.counter(category);
        put_counter(
            &mut bucket.reliable,
            category,
            Counter { messages: counter.messages + 1, bytes: counter.bytes + len },
        );
        buckets.push_back(bucket);
        assert(bucket_views(buckets@) =~= recorded(
            bucket_views(old(buckets)@),
            now,
            category@,
            len as nat,
        ));
    }
}

/// What a category has come to over several buckets.
pub struct Total {
    pub messages: nat,
    pub bytes: nat,
}

/// What `category` comes to over all of `buckets`.
pub open spec fn total(buckets: Seq<BucketView>, category: Seq<char>) -> Total
    decreases buckets.len(),
{
    if buckets.len() == 0 {
        Total { messages: 0, bytes: 0 }
    } else {
        let earlier = total(buckets.drop_last(), category);
        let counter = counter_in(buckets.last().reliable, category);
        Total {
            messages: earlier.messages + counter.messages as nat,
            bytes: earlier.bytes + counter.bytes as nat,
        }
    }
}

/// Whether any of `buckets` has a counter for `category`.
pub open spec fn seen(buckets: Seq<BucketView>, category: Seq<char>) -> bool {
    exists|i: int| 0 <= i < buckets.len() && #[trigger] buckets[i].reliable.contains_key(category)
}

/// Whether a total stays within the range of a counter.
pub open spec fn fits(total: Total) -> bool {
    total.messages <= u64::MAX && total.bytes <= u64::MAX
}

/// Whether every category's total stays within the range of a counter.
pub open spec fn totals_fit(buckets: Seq<BucketView>) -> bool {
    forall|category: Seq<char>| fits(#[trigger] total(buckets, category))
}

/// Whether `counters` has the total of every category seen in `buckets`, and
/// nothing else.
pub open spec fn holds_totals(
    counters: Map<Seq<char>, Counter>,
    buckets: Seq<BucketView>,
) -> bool {
    &&& forall|category: Seq<char>| #[trigger]
        counters.contains_key(category) <==> seen(buckets, category)
    &&& forall|category: Seq<char>| #[trigger]
        counters.contains_key(category) ==> counters[category].messages == total(
            buckets,
            category,
        ).messages && counters[category].bytes == total(buckets, category).bytes
}

/// Whether `summaries` lists every category seen in `buckets` once, with its total.
pub open spec fn lists_totals(summaries: Seq<TrafficSummary>, buckets: Seq<BucketView>) -> bool {
    &&& forall|i: int|
        0 <= i < summaries.len() ==> {
            let summary = #[trigger] summaries[i];
            &&& seen(buckets, summary.category@)
            &&& summary.messages == total(buckets, summary.category@).messages
            &&& summary.bytes == total(buckets, summary.category@).bytes
        }
    &&& forall|i: int, j: int|
        0 <= i < j < summaries.len() ==> (#[trigger] summaries[i]).category@ != (
        #[trigger] summaries[j]).category@
    &&& forall|category: Seq<char>| #[trigger]
        seen(buckets, category) ==> exists|i: int|
            0 <= i < summaries.len() && (#[trigger] summaries[i]).category@ == category
}

/// A total never falls when buckets are added at the end.
proof fn lemma_total_of_prefix(buckets: Seq<BucketView>, count: int, category: Seq<char>)
    requires
        0 <= count <= buckets.len(),
    ensures
        total(buckets.take(count), category).messages <= total(buckets, category).messages,
        total(buckets.take(count), category).bytes <= total(buckets, category).bytes,
    decreases buckets.len(),
{
    if count == buckets.len() {
        assert(buckets.take(count) =~= buckets);
    } else {
        lemma_total_of_prefix(buckets.drop_last(), count, category);
        assert(buckets.drop_last().take(count) =~= buckets.take(count));
    }
}

/// A category that no bucket has seen comes to nothing.
pub proof fn lemma_unseen_total(buckets: Seq<BucketView>, category: Seq<char>)
    requires
        !seen(buckets, category),
    ensures
        total(buckets, category) == (Total { messages: 0, bytes: 0 }),
    decreases buckets.len(),
{
    if buckets.len() > 0 {
        assert(!buckets[buckets.len() - 1].reliable.contains_key(category));
        assert forall|i: int| 0 <= i < buckets.len() - 1 implies !#[trigger] buckets.drop_last()[i]
            .reliable.contains_key(category) by {
            assert(!buckets[i].reliable.contains_key(category));
        }
        lemma_unseen_total(buckets.drop_last(), category);
    }
}

/// Whether `category` is among the first `count` entries.
spec fn listed_before(
    listed: Seq<(&'static str, Counter)>,
    count: int,
    category: Seq<char>,
) -> bool {
    exists|i: int| 0 <= i < count && #[trigger] listed[i].0@ == category
}

/// Adds up the counters of the buckets from position `start` on. Gives up where a
/// total leaves the range of a counter.
fn sum_counters(buckets: &VecDeque<Bucket>, start: usize) -> (sums: Option<
    FxHashMap<&'static str, Counter>,
>)
    requires
        start <= buckets@.len(),
    ensures
        sums is Some <==> totals_fit(bucket_views(buckets@).skip(start as int)),
        sums matches Some(counters) ==> holds_totals(
            counters_of(counters),
            bucket_views(buckets@).skip(start as int),
        ),
{
    let ghost views = bucket_views(buckets@).skip(start as int);
    let mut counters = new_counters();
    let mut at: usize = start;
    while at < buckets.len()
        invariant
            start <= at <= buckets@.len(),
            views == bucket_views(buckets@).skip(start as int),
            holds_totals(counters_of(counters), views.take(at - start)),
        decreases buckets@.len() - at,
    {
        let ghost before = views.take(at - start);
        let ghost after = views.take(at - start + 1);
        let ghost bucket = views[at - start];
        assert(after.drop_last() =~= before && after.last() == bucket);
        let listed = listed_counters(&buckets[at].reliable);
        let mut next: usize = 0;
        proof {
            assert forall|category: Seq<char>|
                counter_in(counters_of(counters), category).messages == total(
                    before,
                    category,
                ).messages && (#[trigger] counter_in(counters_of(counters), category)).bytes
                    == total(before, category).bytes by {
                if !counters_of(counters).contains_key(category) {
                    lemma_unseen_total(before, category);
                }
            }
        }
        while next < listed.len()
            invariant
                0 <= next <= listed@.len(),
                start <= at < buckets@.len(),
                views == bucket_views(buckets@).skip(start as int),
                before == views.take(at - start),
                after == views.take(at - start + 1),
                after.len() > 0,
                after.drop_last() == before,
                after.last() == bucket,
                forall|i: int|
                    0 <= i < listed@.len() ==> bucket.reliable.contains_key(
                        #[trigger] listed@[i].0@,
                    ) && bucket.reliable[listed@[i].0@] == listed@[i].1,
                forall|i: int, j: int|
                    0 <= i < j < listed@.len() ==> #[trigger] listed@[i].0@
                        != #[trigger] listed@[j].0@,
                forall|category: Seq<char>| #[trigger]
                    counters_of(counters).contains_key(category) <==> (seen(before, category)
                        || listed_before(listed@, next as int, category)),
                forall|category: Seq<char>|
                    listed_before(listed@, next as int, category) ==> {
                        let counter = #[trigger] counter_in(counters_of(counters), category);
                        &&& counter.messages == total(after, category).messages
                        &&& counter.bytes == total(after, category).bytes
                    },
                forall|category: Seq<char>|
                    !listed_before(listed@, next as int, category) ==> {
                        let counter = #[trigger] counter_in(counters_of(counters), category);
                        &&& counter.messages == total(before, category).messages
                        &&& counter.bytes == total(before, category).bytes
                    },
            decreases listed@.len() - next,
        {
            let (category, counter) = listed[next];
            let sum = match counter_of(&counters, category) {
                Some(sum) => sum,
                None => Counter::default(),
            };
            assert(sum == counter_in(counters_of(counters), category@));
            assert(!listed_before(listed@, next as int, category@));
            if counter.messages > u64::MAX - sum.messages || counter.bytes > u64::MAX - sum.bytes {
                proof {
                    lemma_total_of_prefix(views, at - start + 1, category@);
                    assert(!fits(total(views, category@)));
                }
                return None;
            }
            let ghost old_counters = counters_of(counters);
            put_counter(
                &mut counters,
                category,
                Counter {
                    messages: sum.messages + counter.messages,
                    bytes: sum.bytes + counter.bytes,
                },
            );
            proof {
                let now_listed = next + 1;
                assert forall|other: Seq<char>|
                    listed_before(listed@, now_listed, other) <==> (listed_before(
                        listed@,
                        next as int,
                        other,
                    ) || other == category@) by {
                    assert(listed@[next as int].0@ == category@);
                    if listed_before(listed@, now_listed, other) {
                        let i = choose|i: int|
                            0 <= i < now_listed && #[trigger] listed@[i].0@ == other;
                        assert(i == next || listed_before(listed@, next as int, other));
                    }
                }
                assert forall|other: Seq<char>| other != category@ implies #[trigger] counter_in(
                    counters_of(counters),
                    other,
                ) == counter_in(old_counters, other) by {}
            }
            next = next + 1;
        }
        proof {
            assert forall|category: Seq<char>| #[trigger]
                counters_of(counters).contains_key(category) <==> seen(after, category) by {
                if seen(after, category) {
                    let i = choose|i: int|
                        0 <= i < after.len() && #[trigger] after[i].reliable.contains_key(category);
                    if i < before.len() {
                        assert(before[i].reliable.contains_key(category));
                    } else {
                        assert(bucket.reliable.contains_key(category));
                        assert(listed_before(listed@, listed@.len() as int, category));
                    }
                }
                if seen(before, category) {
                    let i = choose|i: int|
                        0 <= i < before.len() && #[trigger] before[i].reliable.contains_key(
                            category,
                        );
                    assert(after[i].reliable.contains_key(category));
                }
                if listed_before(listed@, listed@.len() as int, category) {
                    assert(after[after.len() - 1].reliable.contains_key(category));
                }
            }
            assert forall|category: Seq<char>| #[trigger]
                counters_of(counters).contains_key(category) implies counters_of(
                counters,
            )[category].messages == total(after, category).messages && counters_of(
                counters,
            )[category].bytes == total(after, category).bytes by {
                let counter = counter_in(counters_of(counters), category);
                if !listed_before(listed@, listed@.len() as int, category) {
                    assert(!bucket.reliable.contains_key(category));
                }
            }
        }
        at = at + 1;
    }
    proof {
        assert(views.take(views.len() as int) =~= views);
        assert forall|category: Seq<char>| fits(#[trigger] total(views, category)) by {
            if counters_of(counters).contains_key(category) {
                assert(fits(total(views, category)));
            } else {
                lemma_unseen_total(views, category);
            }
        }
    }
    Some(counters)
}

/// Whether `top` is a report of at most `limit` categories on `buckets`: the totals,
/// listed in some order, ranked, and cut off at the limit. There are never more
/// categories than a limit can count.
pub open spec fn is_top(
    top: Seq<TrafficSummary>,
    buckets: Seq<BucketView>,
    limit: nat,
) -> bool {
    exists|all: Seq<TrafficSummary>| #[trigger]
        lists_totals(all, buckets) && all.len() <= usize::MAX && top == first_entries(
            ranked(all),
            limit,
        )
}

/// Finds the first bucket that pruning at `now` leaves in place.
fn first_kept(buckets: &VecDeque<Bucket>, now: Moment) -> (at: usize)
    ensures
        at <= buckets@.len(),
        bucket_views(buckets@).skip(at as int) == pruned(bucket_views(buckets@), now),
{
    let ghost views = bucket_views(buckets@);
    let mut at: usize = 0;
    assert(views.skip(0) =~= views);
    while at < buckets.len() && duration_since(now, buckets[at].at) > WINDOW
        invariant
            at <= buckets@.len(),
            views == bucket_views(buckets@),
            pruned(views.skip(at as int), now) == pruned(views, now),
        decreases buckets@.len() - at,
    {
        assert(views.skip(at as int)[0] == buckets@[at as int]@);
        assert(views.skip(at as int).drop_first() =~= views.skip(at + 1));
        at = at + 1;
    }
    assert(at < buckets@.len() ==> views.skip(at as int)[0] == buckets@[at as int]@);
    at
}

/// Tells whether a message of `len` bytes can be counted at `now`.
pub fn can_record(
    buckets: &VecDeque<Bucket>,
    now: Moment,
    category: &'static str,
    len: u64,
) -> (room: bool)
    ensures
        room == has_room(bucket_views(buckets@), now, category@, len as nat),
{
    let kept = first_kept(buckets, now);
    let count = buckets.len();
    let ghost views = bucket_views(buckets@);
    assert(kept < count ==> views.skip(kept as int).last() == buckets@[count - 1]@);
    let counter = if kept == count || duration_since(now, buckets[count - 1].at) >= BUCKET_SPAN {
        Counter::default()
    } else {
        buckets[count - 1].counter(category)
    };
    counter.messages < u64::MAX && len <= u64::MAX - counter.bytes
}

/// Tells whether the totals that a report at `now` is made of stay within the range
/// of a counter.
pub fn can_report(buckets: &VecDeque<Bucket>, now: Moment) -> (in_range: bool)
    ensures
        in_range == totals_fit(pruned(bucket_views(buckets@), now)),
{
    sum_counters(buckets, first_kept(buckets, now)).is_some()
}

/// Drops what is older than the window, and reports the `limit` categories that took
/// the most bytes in what is left, the largest first.
///
/// Categories with the same number of bytes come in no particular order, and where
/// the limit falls among them, which of them are left out is open.
pub fn report_top(
    buckets: &mut VecDeque<Bucket>,
    now: Moment,
    limit: usize,
) -> (top: Vec<TrafficSummary>)
    requires
        totals_fit(pruned(bucket_views(old(buckets)@), now)),
    ensures
        bucket_views(final(buckets)@) == pruned(bucket_views(old(buckets)@), now),
        is_top(top@, bucket_views(final(buckets)@), limit as nat),
{
    prune_old(buckets, now);
    let ghost views = bucket_views(buckets@);
    assert(views.skip(0) =~= views);
    let mut summaries: Vec<TrafficSummary> = Vec::new();
    if let Some(totals) = sum_counters(buckets, 0) {
        let listed = listed_counters(&totals);
        for i in 0..listed.len()
            invariant
                summaries@.len() == i,
                forall|j: int|
                    0 <= j < i ==> {
                        let summary = #[trigger] summaries@[j];
                        &&& summary.category == listed@[j].0
                        &&& summary.messages == listed@[j].1.messages
                        &&& summary.bytes == listed@[j].1.bytes
                    },
        {
            let (category, counter) = listed[i];
            summaries.push(
                TrafficSummary { category, messages: counter.messages, bytes: counter.bytes },
            );
        }
        proof {
            assert forall|j: int| 0 <= j < summaries@.len() implies {
                let summary = #[trigger] summaries@[j];
                &&& seen(views, summary.category@)
                &&& summary.messages == total(views, summary.category@).messages
                &&& summary.bytes == total(views, summary.category@).bytes
            } by {
                assert(counters_of(totals).contains_key(listed@[j].0@));
            }
            assert forall|category: Seq<char>| #[trigger] seen(views, category) implies exists|
                j: int,
            |
                0 <= j < summaries@.len() && (#[trigger] summaries@[j]).category@ == category by {
                assert(counters_of(totals).contains_key(category));
                let j = choose|j: int|
                    0 <= j < listed@.len() && #[trigger] listed@[j].0@ == category;
                assert(summaries@[j].category@ == category);
            }
            assert forall|j: int, k: int| 0 <= j < k < summaries@.len() implies (
            #[trigger] summaries@[j]).category@ != (#[trigger] summaries@[k]).category@ by {
                assert(listed@[j].0@ != listed@[k].0@);
            }
        }
    }
    assert(lists_totals(summaries@, views));
    rank(summaries, limit)
}

} // verus!

//! What holds of reports on counted traffic, and of several reports on the same traffic.

use vstd::prelude::*;

use crate::ranking::{falls, first_entries, lemma_ranked_falls, ranked, TrafficSummary};
use crate::traffic::{is_top, lists_totals, seen, total, BucketView, Total};
use crate::traffic_laws::{counted, lemma_seen_total};

verus! {

/// The categories that are summed up, in their order.
pub open spec fn categories(summaries: Seq<TrafficSummary>) -> Seq<Seq<char>> {
    summaries.map_values(|summary: TrafficSummary| summary.category@)
}

/// What a report says of each category that it names.
pub open spec fn by_category(top: Seq<TrafficSummary>) -> Map<Seq<char>, Total> {
    Map::new(
        |category: Seq<char>| categories(top).contains(category),
        |category: Seq<char>|
            {
                let summary = top[categories(top).index_of(category)];
                Total { messages: summary.messages as nat, bytes: summary.bytes as nat }
            },
    )
}

/// What there is to say of `buckets`: the total of every category that was seen.
pub open spec fn totals(buckets: Seq<BucketView>) -> Map<Seq<char>, Total> {
    Map::new(
        |category: Seq<char>| seen(buckets, category),
        |category: Seq<char>| total(buckets, category),
    )
}

/// Whether two summaries say the same.
pub open spec fn same_summary(a: TrafficSummary, b: TrafficSummary) -> bool {
    a.category@ == b.category@ && a.messages == b.messages && a.bytes == b.bytes
}

/// Distinct texts that all occur among others are no more than those.
pub proof fn lemma_no_more(some: Seq<Seq<char>>, others: Seq<Seq<char>>)
    requires
        some.no_duplicates(),
        forall|i: int| 0 <= i < some.len() ==> others.contains(#[trigger] some[i]),
    ensures
        some.len() <= others.len(),
{
    broadcast use vstd::seq_lib::seq_to_set_is_finite;

    some.unique_seq_to_set();
    others.lemma_cardinality_of_set();
    assert(some.to_set().subset_of(others.to_set()));
    vstd::set_lib::lemma_len_subset(some.to_set(), others.to_set());
}

/// A report is the beginning of a ranking that leaves nothing out.
proof fn lemma_full_ranking(top: Seq<TrafficSummary>, buckets: Seq<BucketView>, limit: nat) -> (full:
    Seq<TrafficSummary>)
    requires
        is_top(top, buckets, limit),
    ensures
        falls(full),
        lists_totals(full, buckets),
        full.len() <= usize::MAX,
        top == first_entries(full, limit),
{
    broadcast use vstd::seq_lib::group_to_multiset_ensures;

    let all = choose|all: Seq<TrafficSummary>| #[trigger]
        lists_totals(all, buckets) && all.len() <= usize::MAX && top == first_entries(
            ranked(all),
            limit,
        );
    let full = ranked(all);
    lemma_ranked_falls(all);
    assert forall|i: int| 0 <= i < full.len() implies all.contains(#[trigger] full[i]) by {
        assert(full.contains(full[i]));
        assert(all.to_multiset().count(full[i]) > 0);
    }
    assert forall|i: int| 0 <= i < full.len() implies {
        let summary = #[trigger] full[i];
        &&& seen(buckets, summary.category@)
        &&& summary.messages == total(buckets, summary.category@).messages
        &&& summary.bytes == total(buckets, summary.category@).bytes
    } by {
        assert(all.contains(full[i]));
        let k = choose|k: int| 0 <= k < all.len() && all[k] == full[i];
        assert(all[k] == full[i]);
    }
    assert forall|i: int, j: int| 0 <= i < j < full.len() implies (#[trigger] full[i]).category@
        != (#[trigger] full[j]).category@ by {
        lemma_ranking_repeats_nothing(all, full, i, j);
    }
    assert forall|category: Seq<char>| #[trigger] seen(buckets, category) implies exists|i: int|
        0 <= i < full.len() && (#[trigger] full[i]).category@ == category by {
        let k = choose|k: int| 0 <= k < all.len() && (#[trigger] all[k]).category@ == category;
        assert(all.contains(all[k]));
        assert(full.to_multiset().count(all[k]) > 0);
        assert(full.contains(all[k]));
        let i = choose|i: int| 0 <= i < full.len() && full[i] == all[k];
        assert(full[i].category@ == category);
    }
    full
}

/// Two places of a ranking hold different categories, where the ranked list does.
proof fn lemma_ranking_repeats_nothing(
    all: Seq<TrafficSummary>,
    ranking: Seq<TrafficSummary>,
    i: int,
    j: int,
)
    requires
        0 <= i < j < ranking.len(),
        ranking.to_multiset() == all.to_multiset(),
        forall|a: int, b: int|
            0 <= a < b < all.len() ==> (#[trigger] all[a]).category@ != (
            #[trigger] all[b]).category@,
    ensures
        ranking[i].category@ != ranking[j].category@,
{
    broadcast use vstd::seq_lib::group_to_multiset_ensures;

    assert(all.no_duplicates());
    all.lemma_multiset_has_no_duplicates();
    assert(ranking.contains(ranking[i]) && ranking.contains(ranking[j]));
    assert(all.to_multiset().count(ranking[i]) > 0 && all.to_multiset().count(ranking[j]) > 0);
    assert(all.contains(ranking[i]) && all.contains(ranking[j]));
    let a = choose|a: int| 0 <= a < all.len() && all[a] == ranking[i];
    let b = choose|b: int| 0 <= b < all.len() && all[b] == ranking[j];
    if a == b {
        ranking.lemma_multiset_has_no_duplicates_conv();
        assert(ranking[i] != ranking[j]);
    }
}

/// Two full rankings of the same totals are equally long, and have the same numbers of
/// bytes in the same order.
proof fn lemma_full_rankings_agree(
    one: Seq<TrafficSummary>,
    other: Seq<TrafficSummary>,
    buckets: Seq<BucketView>,
)
    requires
        falls(one),
        falls(other),
        lists_totals(one, buckets),
        lists_totals(other, buckets),
    ensures
        one.len() == other.len(),
        forall|i: int| 0 <= i < one.len() ==> (#[trigger] one[i]).bytes == other[i].bytes,
{
    lemma_full_ranking_no_longer(one, other, buckets);
    lemma_full_ranking_no_longer(other, one, buckets);
    assert forall|i: int| 0 <= i < one.len() implies (#[trigger] one[i]).bytes
        == other[i].bytes by {
        if one[i].bytes < other[i].bytes {
            lemma_no_entry_ahead(one, other, buckets, i);
        } else if other[i].bytes < one[i].bytes {
            lemma_no_entry_ahead(other, one, buckets, i);
        }
    }
}

/// A full ranking names no more categories than another.
proof fn lemma_full_ranking_no_longer(
    one: Seq<TrafficSummary>,
    other: Seq<TrafficSummary>,
    buckets: Seq<BucketView>,
)
    requires
        lists_totals(one, buckets),
        lists_totals(other, buckets),
    ensures
        one.len() <= other.len(),
{
    let names = categories(one);
    let others = categories(other);
    assert(names.no_duplicates()) by {
        assert forall|i: int, j: int| 0 <= i < names.len() && 0 <= j < names.len() && i
            != j implies names[i] != names[j] by {
            assert(one[i].category@ != one[j].category@);
        }
    }
    assert forall|i: int| 0 <= i < names.len() implies others.contains(#[trigger] names[i]) by {
        assert(seen(buckets, one[i].category@));
        let k = choose|k: int|
            0 <= k < other.len() && (#[trigger] other[k]).category@ == one[i].category@;
        assert(others[k] == names[i]);
    }
    lemma_no_more(names, others);
}

/// No entry of a full ranking has more bytes than the entry at the same place of another.
proof fn lemma_no_entry_ahead(
    one: Seq<TrafficSummary>,
    other: Seq<TrafficSummary>,
    buckets: Seq<BucketView>,
    i: int,
)
    requires
        falls(one),
        falls(other),
        lists_totals(one, buckets),
        lists_totals(other, buckets),
        0 <= i < one.len(),
        i < other.len(),
    ensures
        one[i].bytes >= other[i].bytes,
{
    if one[i].bytes < other[i].bytes {
        let names = categories(other.take(i + 1));
        let others = categories(one.take(i));
        assert(names.no_duplicates()) by {
            assert forall|a: int, b: int| 0 <= a < names.len() && 0 <= b < names.len() && a
                != b implies names[a] != names[b] by {
                assert(other[a].category@ != other[b].category@);
            }
        }
        assert forall|a: int| 0 <= a < names.len() implies others.contains(#[trigger] names[a]) by {
            assert(names[a] == other[a].category@);
            assert(other[a].bytes >= other[i].bytes);
            assert(seen(buckets, other[a].category@));
            let k = choose|k: int|
                0 <= k < one.len() && (#[trigger] one[k]).category@ == other[a].category@;
            assert(one[k].bytes == other[a].bytes);
            assert(k < i);
            assert(others[k] == names[a]);
        }
        lemma_no_more(names, others);
    }
}

/// A report falls in bytes, names no category twice, gives each category its total,
/// keeps to the limit, and leaves a category out only where the limit is used up by
/// categories that took at least as many bytes.
pub proof fn lemma_top(top: Seq<TrafficSummary>, buckets: Seq<BucketView>, limit: nat)
    requires
        is_top(top, buckets, limit),
    ensures
        falls(top),
        top.len() <= limit,
        forall|i: int|
            0 <= i < top.len() ==> {
                let summary = #[trigger] top[i];
                &&& seen(buckets, summary.category@)
                &&& summary.messages == total(buckets, summary.category@).messages
                &&& summary.bytes == total(buckets, summary.category@).bytes
            },
        forall|i: int, j: int|
            0 <= i < j < top.len() ==> (#[trigger] top[i]).category@ != (
            #[trigger] top[j]).category@,
        forall|category: Seq<char>| #[trigger]
            seen(buckets, category) ==> {
                ||| exists|i: int| 0 <= i < top.len() && (#[trigger] top[i]).category@ == category
                ||| top.len() == limit && forall|i: int|
                    0 <= i < top.len() ==> (#[trigger] top[i]).bytes >= total(
                        buckets,
                        category,
                    ).bytes
            },
{
    let full = lemma_full_ranking(top, buckets, limit);
    assert forall|i: int| 0 <= i < top.len() implies #[trigger] top[i] == full[i] by {}
    assert forall|category: Seq<char>| #[trigger] seen(buckets, category) implies {
        ||| exists|i: int| 0 <= i < top.len() && (#[trigger] top[i]).category@ == category
        ||| top.len() == limit && forall|i: int|
            0 <= i < top.len() ==> (#[trigger] top[i]).bytes >= total(buckets, category).bytes
    } by {
        let i = choose|i: int| 0 <= i < full.len() && (#[trigger] full[i]).category@ == category;
        if i < top.len() {
            assert(top[i].category@ == category);
        } else {
            assert forall|j: int| 0 <= j < top.len() implies (#[trigger] top[j]).bytes >= total(
                buckets,
                category,
            ).bytes by {
                assert(full[j].bytes >= full[i].bytes);
            }
        }
    }
}

/// Every category that is reported has at least one message, where every counter has
/// counted one.
pub proof fn lemma_reported_has_messages(
    top: Seq<TrafficSummary>,
    buckets: Seq<BucketView>,
    limit: nat,
)
    requires
        is_top(top, buckets, limit),
        counted(buckets),
    ensures
        forall|i: int| 0 <= i < top.len() ==> (#[trigger] top[i]).messages >= 1,
{
    lemma_top(top, buckets, limit);
    assert forall|i: int| 0 <= i < top.len() implies (#[trigger] top[i]).messages >= 1 by {
        lemma_seen_total(buckets, top[i].category@);
    }
}

/// Two reports on the same traffic agree in their numbers of bytes, place by place, as
/// far as the one with the smaller limit reaches; and it reaches as far as its limit and
/// the other report let it.
pub proof fn lemma_reports_agree(
    shorter: Seq<TrafficSummary>,
    longer: Seq<TrafficSummary>,
    buckets: Seq<BucketView>,
    smaller: nat,
    larger: nat,
)
    requires
        is_top(shorter, buckets, smaller),
        is_top(longer, buckets, larger),
        smaller <= larger,
    ensures
        shorter.len() == (if smaller < longer.len() {
            smaller
        } else {
            longer.len()
        }),
        forall|i: int|
            0 <= i < shorter.len() ==> (#[trigger] shorter[i]).bytes == longer[i].bytes,
{
    let one = lemma_full_ranking(shorter, buckets, smaller);
    let other = lemma_full_ranking(longer, buckets, larger);
    lemma_full_rankings_agree(one, other, buckets);
    assert forall|i: int| 0 <= i < shorter.len() implies (#[trigger] shorter[i]).bytes
        == longer[i].bytes by {
        assert(shorter[i] == one[i] && longer[i] == other[i]);
    }
}

/// A report with a limit against the report without one on the same traffic: it has as
/// many entries as the limit and the full report allow, each of them is in the full
/// report, and what it leaves out of the full report took no more bytes than anything
/// that it names.
pub proof fn lemma_limited_report(
    top: Seq<TrafficSummary>,
    full: Seq<TrafficSummary>,
    buckets: Seq<BucketView>,
    limit: usize,
)
    requires
        is_top(top, buckets, limit as nat),
        is_top(full, buckets, usize::MAX as nat),
    ensures
        top.len() == (if limit < full.len() {
            limit as nat
        } else {
            full.len()
        }),
        forall|i: int|
            0 <= i < top.len() ==> exists|j: int|
                0 <= j < full.len() && same_summary(#[trigger] top[i], #[trigger] full[j]),
        forall|j: int|
            0 <= j < full.len() && !categories(top).contains((#[trigger] full[j]).category@)
                ==> forall|i: int|
                0 <= i < top.len() ==> full[j].bytes <= (#[trigger] top[i]).bytes,
{
    lemma_reports_agree(top, full, buckets, limit as nat, usize::MAX as nat);
    lemma_full_report(full, buckets);
    lemma_top(top, buckets, limit as nat);
    lemma_top(full, buckets, usize::MAX as nat);
    assert forall|i: int| 0 <= i < top.len() implies exists|j: int|
        0 <= j < full.len() && same_summary(#[trigger] top[i], #[trigger] full[j]) by {
        assert(totals(buckets).contains_key(top[i].category@));
        assert(by_category(full).contains_key(top[i].category@));
        let j = categories(full).index_of(top[i].category@);
        assert(categories(full)[j] == top[i].category@);
        assert(same_summary(top[i], full[j]));
    }
    assert forall|j: int|
        0 <= j < full.len() && !categories(top).contains(
            (#[trigger] full[j]).category@,
        ) implies forall|i: int|
        0 <= i < top.len() ==> full[j].bytes <= (#[trigger] top[i]).bytes by {
        assert(seen(buckets, full[j].category@));
        if exists|i: int|
            0 <= i < top.len() && (#[trigger] top[i]).category@ == full[j].category@ {
            let i = choose|i: int|
                0 <= i < top.len() && (#[trigger] top[i]).category@ == full[j].category@;
            assert(categories(top)[i] == full[j].category@);
        }
    }
}

/// A report without a limit says all there is to say: the total of every category that
/// was seen, and nothing else.
pub proof fn lemma_full_report(full: Seq<TrafficSummary>, buckets: Seq<BucketView>)
    requires
        is_top(full, buckets, usize::MAX as nat),
    ensures
        by_category(full) == totals(buckets),
{
    let ranking = lemma_full_ranking(full, buckets, usize::MAX as nat);
    assert forall|category: Seq<char>| seen(buckets, category) implies categories(
        full,
    ).contains(category) by {
        let i = choose|i: int|
            0 <= i < ranking.len() && (#[trigger] ranking[i]).category@ == category;
        assert(categories(full)[i] == category);
    }
    lemma_complete_report(full, buckets, usize::MAX as nat);
}

/// A report that names every category that was seen says all there is to say.
pub proof fn lemma_complete_report(
    top: Seq<TrafficSummary>,
    buckets: Seq<BucketView>,
    limit: nat,
)
    requires
        is_top(top, buckets, limit),
        forall|category: Seq<char>|
            seen(buckets, category) ==> categories(top).contains(category),
    ensures
        by_category(top) == totals(buckets),
{
    lemma_top(top, buckets, limit);
    assert forall|category: Seq<char>| categories(top).contains(category) implies seen(
        buckets,
        category,
    ) && {
        let summary = top[categories(top).index_of(category)];
        Total { messages: summary.messages as nat, bytes: summary.bytes as nat } == total(
            buckets,
            category,
        )
    } by {
        let i = categories(top).index_of(category);
        assert(top[i].category@ == category);
    }
    assert(by_category(top) =~= totals(buckets));
}

} // verus!

//! Puts traffic summaries in order of their size.

use vstd::prelude::*;

verus! {

/// The traffic of one category.
#[derive(Debug, Clone, PartialEq, Eq)]
pub struct TrafficSummary {
    pub category: &'static str,
    pub messages: u64,
    pub bytes: u64,
}

/// `ranking` with `summary` put before the first entry that has no more bytes than
/// it.
pub open spec fn placed(ranking: Seq<TrafficSummary>, summary: TrafficSummary) -> Seq<
    TrafficSummary,
>
    decreases ranking.len(),
{
    if ranking.len() == 0 || ranking[0].bytes <= summary.bytes {
        seq![summary] + ranking
    } else {
        seq![ranking[0]] + placed(ranking.drop_first(), summary)
    }
}

/// The summaries by falling number of bytes; those with the same number keep their
/// order.
pub open spec fn ranked(summaries: Seq<TrafficSummary>) -> Seq<TrafficSummary>
    decreases summaries.len(),
{
    if summaries.len() == 0 {
        seq![]
    } else {
        placed(ranked(summaries.drop_first()), summaries[0])
    }
}

/// The first `limit` entries, or all where there are fewer.
pub open spec fn first_entries(ranking: Seq<TrafficSummary>, limit: nat) -> Seq<TrafficSummary> {
    if limit < ranking.len() {
        ranking.take(limit as int)
    } else {
        ranking
    }
}

/// Putting a summary at the first place where the rest has no more bytes is what
/// `placed` does.
proof fn lemma_placed_at(ranking: Seq<TrafficSummary>, summary: TrafficSummary, at: int)
    requires
        0 <= at <= ranking.len(),
        forall|i: int| 0 <= i < at ==> #[trigger] ranking[i].bytes > summary.bytes,
        at < ranking.len() ==> ranking[at].bytes <= summary.bytes,
    ensures
        placed(ranking, summary) == ranking.insert(at, summary),
    decreases ranking.len(),
{
    if at == 0 {
        assert(seq![summary] + ranking =~= ranking.insert(0, summary));
    } else {
        assert forall|i: int| 0 <= i < at - 1 implies #[trigger] ranking.drop_first()[i].bytes
            > summary.bytes by {
            assert(ranking[i + 1].bytes > summary.bytes);
        }
        lemma_placed_at(ranking.drop_first(), summary, at - 1);
        assert(seq![ranking[0]] + ranking.drop_first().insert(at - 1, summary) =~= ranking.insert(
            at,
            summary,
        ));
    }
}

/// Ranks summaries by falling number of bytes and keeps the first `limit`.
/// Summaries with the same number of bytes keep their order.
pub fn rank(summaries: Vec<TrafficSummary>, limit: usize) -> (top: Vec<TrafficSummary>)
    ensures
        top@ == first_entries(ranked(summaries@), limit as nat),
{
    let mut rest = summaries;
    let mut ranking: Vec<TrafficSummary> = Vec::new();
    assert(summaries@.skip(rest@.len() as int) =~= seq![]);
    loop
        invariant
            rest@.len() <= summaries@.len(),
            rest@ == summaries@.take(rest@.len() as int),
            ranking@ == ranked(summaries@.skip(rest@.len() as int)),
        ensures
            ranking@ == ranked(summaries@),
        decreases rest@.len(),
    {
        let ghost before = rest@;
        match rest.pop() {
            None => {
                assert(summaries@.skip(0) =~= summaries@);
                break;
            },
            Some(summary) => {
                let mut at: usize = 0;
                while at < ranking.len() && ranking[at].bytes > summary.bytes
                    invariant
                        at <= ranking@.len(),
                        forall|i: int| 0 <= i < at ==> #[trigger] ranking@[i].bytes > summary.bytes,
                    decreases ranking@.len() - at,
                {
                    at = at + 1;
                }
                proof {
                    lemma_placed_at(ranking@, summary, at as int);
                    let tail = summaries@.skip(rest@.len() as int);
                    assert(tail[0] == summary);
                    assert(tail.drop_first() =~= summaries@.skip(before.len() as int));
                    assert(rest@ =~= summaries@.take(rest@.len() as int));
                }
                ranking.insert(at, summary);
            },
        }
    }
    ranking.truncate(limit);
    ranking
}

/// Whether no entry has more bytes than one before it.
pub open spec fn falls(ranking: Seq<TrafficSummary>) -> bool {
    forall|i: int, j: int|
        0 <= i < j < ranking.len() ==> (#[trigger] ranking[i]).bytes >= (#[trigger] ranking[j]).bytes
}

/// The entries that have exactly `bytes` bytes, in their order.
pub open spec fn of_size(summaries: Seq<TrafficSummary>, bytes: u64) -> Seq<TrafficSummary> {
    summaries.filter(|summary: TrafficSummary| summary.bytes == bytes)
}

/// Putting a summary in place keeps a ranking falling.
proof fn lemma_placed_falls(ranking: Seq<TrafficSummary>, summary: TrafficSummary)
    requires
        falls(ranking),
    ensures
        falls(placed(ranking, summary)),
        placed(ranking, summary).len() == ranking.len() + 1,
        placed(ranking, summary).to_multiset() == ranking.to_multiset().insert(summary),
        forall|i: int|
            0 <= i < ranking.len() + 1 ==> #[trigger] placed(ranking, summary)[i] == summary
                || ranking.contains(placed(ranking, summary)[i]),
    decreases ranking.len(),
{
    broadcast use vstd::seq_lib::group_to_multiset_ensures;

    let result = placed(ranking, summary);
    if ranking.len() == 0 || ranking[0].bytes <= summary.bytes {
        assert forall|i: int| 0 <= i < result.len() implies #[trigger] result[i] == summary
            || ranking.contains(result[i]) by {
            if i > 0 {
                assert(result[i] == ranking[i - 1]);
            }
        }
        vstd::seq_lib::lemma_multiset_commutative(seq![summary], ranking);
        assert(seq![summary] =~= Seq::empty().push(summary));
        assert(result.to_multiset() =~= ranking.to_multiset().insert(summary));
    } else {
        let rest = ranking.drop_first();
        assert forall|i: int, j: int| 0 <= i < j < rest.len() implies (#[trigger] rest[i]).bytes
            >= (#[trigger] rest[j]).bytes by {
            assert(ranking[i + 1].bytes >= ranking[j + 1].bytes);
        }
        lemma_placed_falls(rest, summary);
        let tail = placed(rest, summary);
        assert forall|i: int| 0 <= i < tail.len() implies (#[trigger] tail[i]).bytes
            <= ranking[0].bytes by {
            if tail[i] != summary {
                let k = choose|k: int| 0 <= k < rest.len() && rest[k] == tail[i];
                assert(ranking[k + 1] == tail[i]);
            }
        }
        assert forall|i: int| 0 <= i < result.len() implies #[trigger] result[i] == summary
            || ranking.contains(result[i]) by {
            if i == 0 {
                assert(result[0] == ranking[0]);
            } else {
                assert(result[i] == tail[i - 1]);
                if tail[i - 1] != summary {
                    let k = choose|k: int| 0 <= k < rest.len() && rest[k] == tail[i - 1];
                    assert(ranking[k + 1] == tail[i - 1]);
                }
            }
        }
        vstd::seq_lib::lemma_multiset_commutative(seq![ranking[0]], tail);
        vstd::seq_lib::lemma_multiset_commutative(seq![ranking[0]], rest);
        assert(seq![ranking[0]] + rest =~= ranking);
        assert(seq![ranking[0]] =~= Seq::empty().push(ranking[0]));
        assert(result.to_multiset() =~= ranking.to_multiset().insert(summary));
    }
}

/// A ranking falls, and lists what was ranked and nothing else.
pub proof fn lemma_ranked_falls(summaries: Seq<TrafficSummary>)
    ensures
        falls(ranked(summaries)),
        ranked(summaries).len() == summaries.len(),
        ranked(summaries).to_multiset() == summaries.to_multiset(),
    decreases summaries.len(),
{
    broadcast use vstd::seq_lib::group_to_multiset_ensures;

    if summaries.len() > 0 {
        let rest = summaries.drop_first();
        lemma_ranked_falls(rest);
        lemma_placed_falls(ranked(rest), summaries[0]);
        vstd::seq_lib::lemma_multiset_commutative(seq![summaries[0]], rest);
        assert(seq![summaries[0]] + rest =~= summaries);
        assert(seq![summaries[0]] =~= Seq::empty().push(summaries[0]));
        assert(ranked(summaries).to_multiset() =~= summaries.to_multiset());
    }
}

/// One summary has a size, and no other.
proof fn lemma_of_size_single(summary: TrafficSummary, bytes: u64)
    ensures
        of_size(seq![summary], bytes) == (if summary.bytes == bytes {
            seq![summary]
        } else {
            seq![]
        }),
{
    reveal_with_fuel(Seq::filter, 2);
    assert(seq![summary].drop_last() =~= Seq::empty());
    assert(of_size(seq![summary], bytes) =~= (if summary.bytes == bytes {
        seq![summary]
    } else {
        seq![]
    }));
}

/// Putting a summary in place puts it before the entries of its own size, and leaves
/// the order of entries of one size alone.
proof fn lemma_placed_stable(ranking: Seq<TrafficSummary>, summary: TrafficSummary, bytes: u64)
    requires
        falls(ranking),
    ensures
        of_size(placed(ranking, summary), bytes) == of_size(seq![summary], bytes) + of_size(
            ranking,
            bytes,
        ),
    decreases ranking.len(),
{
    let same = |entry: TrafficSummary| entry.bytes == bytes;
    if ranking.len() == 0 || ranking[0].bytes <= summary.bytes {
        Seq::filter_distributes_over_add(seq![summary], ranking, same);
    } else {
        let rest = ranking.drop_first();
        assert forall|i: int, j: int| 0 <= i < j < rest.len() implies (#[trigger] rest[i]).bytes
            >= (#[trigger] rest[j]).bytes by {
            assert(ranking[i + 1].bytes >= ranking[j + 1].bytes);
        }
        lemma_placed_stable(rest, summary, bytes);
        let head = seq![ranking[0]];
        Seq::filter_distributes_over_add(head, placed(rest, summary), same);
        Seq::filter_distributes_over_add(head, rest, same);
        assert(head + rest =~= ranking);
        lemma_of_size_single(ranking[0], bytes);
        lemma_of_size_single(summary, bytes);
        assert(of_size(placed(ranking, summary), bytes) =~= of_size(seq![summary], bytes)
            + of_size(ranking, bytes));
    }
}

/// Summaries with the same number of bytes keep their order in a ranking.
pub proof fn lemma_ranked_stable(summaries: Seq<TrafficSummary>, bytes: u64)
    ensures
        of_size(ranked(summaries), bytes) == of_size(summaries, bytes),
    decreases summaries.len(),
{
    if summaries.len() > 0 {
        let rest = summaries.drop_first();
        lemma_ranked_falls(rest);
        lemma_ranked_stable(rest, bytes);
        lemma_placed_stable(ranked(rest), summaries[0], bytes);
        Seq::filter_distributes_over_add(
            seq![summaries[0]],
            rest,
            |entry: TrafficSummary| entry.bytes == bytes,
        );
        assert(seq![summaries[0]] + rest =~= summaries);
    }
}

} // verus!

//! Ranking probe results by mean round-trip time.

use vstd::prelude::*;
use vstd::relations::{strongly_connected, transitive};
use crate::order::{
    insertion_point, lemma_stable_sorted_ascends, lemma_stable_sorted_len,
    lemma_stable_sorted_keeps_ties, lemma_stable_sorted_of_rearrangement,
    lemma_stable_sorted_permutes, lemma_stable_sorted_unique, stable_sorted, tied,
};
use crate::relay::ProbeResult;
use crate::rtt::{rtt_magnitude, rtt_order_is_order_of_times};

verus! {

/// The order of the ranking: by mean round-trip time.
pub open spec fn rtt_le() -> spec_fn(ProbeResult, ProbeResult) -> bool {
    |a: ProbeResult, b: ProbeResult| a.mean_rtt_bits <= b.mean_rtt_bits
}

/// How many results a ranking of `len` results shows: all of them when
/// `top_n` is 0, else at most `top_n`.
pub open spec fn shown(len: nat, top_n: nat) -> nat {
    if top_n == 0 || top_n >= len {
        len
    } else {
        top_n
    }
}

/// The ranking of `results`: in ascending order of mean round-trip time,
/// results with the same time in the order in which they came in, cut to
/// the first `top_n` unless `top_n` is 0.
pub open spec fn ranking(results: Seq<ProbeResult>, top_n: nat) -> Seq<ProbeResult> {
    stable_sorted(results, rtt_le()).take(shown(results.len(), top_n) as int)
}

/// The order of the ranking is a total preorder.
pub proof fn lemma_rtt_le_total_preorder()
    ensures
        transitive(rtt_le()),
        strongly_connected(rtt_le()),
{
}

/// Puts `item` into the ranked `sorted`, behind every result that is not
/// slower than it.
fn place(sorted: &mut Vec<ProbeResult>, item: ProbeResult)
    ensures
        final(sorted)@ == old(sorted)@.insert(
            insertion_point(old(sorted)@, item, rtt_le()),
            item,
        ),
{
    let mut pos: usize = sorted.len();
    proof {
        assert(sorted@.take(pos as int) =~= sorted@);
    }
    while pos > 0 && sorted[pos - 1].mean_rtt_bits > item.mean_rtt_bits
        invariant
            pos <= sorted.len(),
            sorted@ == old(sorted)@,
            insertion_point(sorted@, item, rtt_le()) == insertion_point(
                sorted@.take(pos as int),
                item,
                rtt_le(),
            ),
        decreases pos,
    {
        proof {
            assert(sorted@.take(pos as int).drop_last() =~= sorted@.take(pos - 1));
        }
        pos -= 1;
    }
    sorted.insert(pos, item);
}

/// Ranks `results`: fastest first, results with the same mean round-trip
/// time in the order given, and only the first `top_n` unless `top_n` is 0.
pub fn rank(results: Vec<ProbeResult>, top_n: usize) -> (ranked: Vec<ProbeResult>)
    ensures
        ranked@ == ranking(results@, top_n as nat),
{
    let ghost all = results@;
    let mut rest = results;
    let mut sorted: Vec<ProbeResult> = Vec::new();
    while rest.len() > 0
        invariant
            rest.len() <= all.len(),
            rest@ == all.skip(all.len() - rest.len()),
            sorted@ == stable_sorted(all.take(all.len() - rest.len()), rtt_le()),
        decreases rest.len(),
    {
        let ghost done = all.len() - rest.len();
        let item = rest.remove(0);
        proof {
            assert(all.take(done + 1).drop_last() =~= all.take(done));
        }
        place(&mut sorted, item);
    }
    proof {
        assert(all.take(all.len() as int) =~= all);
        lemma_stable_sorted_len(all, rtt_le());
    }
    if top_n > 0 && top_n < sorted.len() {
        sorted.truncate(top_n);
    }
    sorted
}

/// A ranking ascends: no result is slower than one that follows it.
pub proof fn ranking_ascends(results: Seq<ProbeResult>, top_n: nat)
    ensures
        forall|i: int, j: int|
            0 <= i <= j < ranking(results, top_n).len() ==> ranking(results, top_n)[i].mean_rtt_bits
                <= ranking(results, top_n)[j].mean_rtt_bits,
{
    let sorted = stable_sorted(results, rtt_le());
    lemma_rtt_le_total_preorder();
    lemma_stable_sorted_ascends(results, rtt_le());
    lemma_stable_sorted_len(results, rtt_le());
    assert forall|i: int, j: int| 0 <= i <= j < ranking(results, top_n).len() implies ranking(
        results,
        top_n,
    )[i].mean_rtt_bits <= ranking(results, top_n)[j].mean_rtt_bits by {
        if i < j {
            assert(rtt_le()(sorted[i], sorted[j]));
        }
    }
}

/// A ranking ascends in time: where every result holds a finite time that is
/// not negative, no result stands for a longer time than one that follows
/// it.
pub proof fn ranking_ascends_in_time(results: Seq<ProbeResult>, top_n: nat)
    requires
        forall|k: int| 0 <= k < results.len() ==> (#[trigger] results[k]).wf(),
    ensures
        forall|i: int, j: int|
            0 <= i <= j < ranking(results, top_n).len() ==> rtt_magnitude(
                ranking(results, top_n)[i].mean_rtt_bits,
            ) <= rtt_magnitude(ranking(results, top_n)[j].mean_rtt_bits),
{
    let ranked = ranking(results, top_n);
    ranking_ascends(results, top_n);
    assert forall|i: int, j: int| 0 <= i <= j < ranked.len() implies rtt_magnitude(
        ranked[i].mean_rtt_bits,
    ) <= rtt_magnitude(ranked[j].mean_rtt_bits) by {
        ranking_holds_only_results(results, top_n, i);
        ranking_holds_only_results(results, top_n, j);
        rtt_order_is_order_of_times(ranked[i].mean_rtt_bits, ranked[j].mean_rtt_bits);
    }
}

/// A ranking shows every result when `top_n` is 0 and at most `top_n`
/// results otherwise: exactly `top_n`, where there are that many.
pub proof fn ranking_len(results: Seq<ProbeResult>, top_n: nat)
    ensures
        ranking(results, top_n).len() == shown(results.len(), top_n),
        top_n > 0 ==> ranking(results, top_n).len() <= top_n,
        top_n == 0 ==> ranking(results, top_n).len() == results.len(),
{
    lemma_stable_sorted_len(results, rtt_le());
}

/// Every result of a ranking is one of the results that were ranked.
pub proof fn ranking_holds_only_results(results: Seq<ProbeResult>, top_n: nat, k: int)
    requires
        0 <= k < ranking(results, top_n).len(),
    ensures
        results.contains(ranking(results, top_n)[k]),
{
    broadcast use vstd::seq_lib::group_to_multiset_ensures;

    let sorted = stable_sorted(results, rtt_le());
    lemma_stable_sorted_len(results, rtt_le());
    lemma_stable_sorted_permutes(results, rtt_le());
    assert(sorted.to_multiset().count(sorted[k]) > 0);
}

/// Where no two results have the same mean round-trip time, the ranking
/// does not depend on the order in which the results came in.
pub proof fn ranking_ignores_order_of_arrival(
    first: Seq<ProbeResult>,
    second: Seq<ProbeResult>,
    top_n: nat,
)
    requires
        first.to_multiset() == second.to_multiset(),
        forall|i: int, j: int|
            0 <= i < j < first.len() ==> first[i].mean_rtt_bits != first[j].mean_rtt_bits,
    ensures
        ranking(first, top_n) == ranking(second, top_n),
{
    broadcast use vstd::seq_lib::group_to_multiset_ensures;

    lemma_stable_sorted_of_rearrangement(first, second, rtt_le());
    assert(first.len() == first.to_multiset().len() && second.len() == second.to_multiset().len());
}

/// A ranking is the head of the ranking of everything.
pub proof fn ranking_is_head_of_full_ranking(results: Seq<ProbeResult>, top_n: nat)
    ensures
        ranking(results, top_n) == ranking(results, 0).take(
            shown(results.len(), top_n) as int,
        ),
{
    lemma_stable_sorted_len(results, rtt_le());
}

/// The ranking of everything holds each result as often as it came in.
pub proof fn full_ranking_rearranges(results: Seq<ProbeResult>)
    ensures
        ranking(results, 0).to_multiset() == results.to_multiset(),
{
    lemma_stable_sorted_len(results, rtt_le());
    lemma_stable_sorted_permutes(results, rtt_le());
    assert(ranking(results, 0) =~= stable_sorted(results, rtt_le()));
}

/// Results with the same mean round-trip time are ranked in the order in
/// which they came in.
pub proof fn full_ranking_keeps_ties_in_order(results: Seq<ProbeResult>, pivot: ProbeResult)
    ensures
        ranking(results, 0).filter(tied(rtt_le(), pivot)) == results.filter(
            tied(rtt_le(), pivot),
        ),
{
    lemma_stable_sorted_len(results, rtt_le());
    lemma_stable_sorted_keeps_ties(results, rtt_le(), pivot);
    assert(ranking(results, 0) =~= stable_sorted(results, rtt_le()));
}

/// The ranking of everything is determined by what it is said to be: it is
/// the only arrangement of the results that ascends and holds results of
/// the same mean round-trip time in the order in which they came in.
pub proof fn full_ranking_is_determined(results: Seq<ProbeResult>, other: Seq<ProbeResult>)
    requires
        forall|i: int, j: int|
            0 <= i <= j < other.len() ==> other[i].mean_rtt_bits <= other[j].mean_rtt_bits,
        forall|pivot: ProbeResult|
            other.filter(#[trigger] tied(rtt_le(), pivot)) == results.filter(
                tied(rtt_le(), pivot),
            ),
    ensures
        other == ranking(results, 0),
{
    lemma_rtt_le_total_preorder();
    lemma_stable_sorted_len(results, rtt_le());
    assert forall|i: int, j: int| 0 <= i < j < other.len() implies #[trigger] rtt_le()(
        other[i],
        other[j],
    ) by {
        assert(other[i].mean_rtt_bits <= other[j].mean_rtt_bits);
    }
    lemma_stable_sorted_unique(results, other, rtt_le());
    assert(ranking(results, 0) =~= stable_sorted(results, rtt_le()));
}

} // verus!

//! Ranking memories by lexical relevance.
use crate::lexical::{lexical_score, score};
use crate::memory::types::{memories_view, Memory, MemoryView};
use crate::order::{
    law_stable_order, positions, sort_positions, stable_order, stably_sorted, weak_order,
};
use vstd::prelude::*;

verus! {

/// The order of positions by descending score.
pub open spec fn by_score(scores: Seq<u32>) -> spec_fn(int, int) -> bool {
    |a: int, b: int| scores[a] > scores[b]
}

/// The scores of memories for a query.
pub open spec fn memory_scores(query: Seq<char>, ms: Seq<MemoryView>) -> Seq<u32> {
    ms.map_values(|m: MemoryView| score(query, m.content))
}

/// The positions `0..scores.len()` by descending score, ties in order.
pub(crate) fn sort_by_score(scores: &Vec<u32>) -> (r: Vec<usize>)
    ensures
        positions(r@) == stable_order(scores@.len(), by_score(scores@)),
        r@.len() == scores@.len(),
        forall|a: int| 0 <= a < r@.len() ==> #[trigger] r@[a] < scores@.len(),
{
    let n: usize = scores.len();
    let less = |a: usize, b: usize| -> (r: bool)
        requires
            a < n,
            b < n,
            n == scores@.len(),
        ensures
            r == by_score(scores@)(a as int, b as int),
        { scores[a] > scores[b] };
    sort_positions(n, less, Ghost(by_score(scores@)))
}

/// The order by descending score is a comparison of keys.
pub proof fn lemma_by_score_orders(scores: Seq<u32>)
    ensures
        weak_order(scores.len(), by_score(scores)),
{
}

/// Ranks memories by lexical relevance to the query: `(index, score)` pairs
/// sorted by descending score (every memory, including score 0).
pub fn rank(query: &str, memories: &[Memory]) -> (r: Vec<(usize, u32)>)
    ensures
        ({
            let scores = memory_scores(query@, memories_view(memories@));
            let order = stable_order(scores.len(), by_score(scores));
            &&& r@.len() == order.len()
            &&& forall|k: int|
                0 <= k < r@.len() ==> (#[trigger] r@[k]).0 == order[k] && r@[k].1
                    == scores[order[k]]
        }),
{
    let ghost ms = memories_view(memories@);
    let mut scores: Vec<u32> = Vec::new();
    let mut i: usize = 0;
    while i < memories.len()
        invariant
            i <= memories@.len(),
            ms == memories_view(memories@),
            scores@ == memory_scores(query@, ms).take(i as int),
        decreases memories@.len() - i,
    {
        let s: u32 = lexical_score(query, memories[i].content.as_str());
        scores.push(s);
        assert(memory_scores(query@, ms).take(i + 1) =~= memory_scores(query@, ms).take(
            i as int,
        ).push(s));
        i = i + 1;
    }
    assert(memory_scores(query@, ms).take(ms.len() as int) =~= memory_scores(query@, ms));
    let order = sort_by_score(&scores);
    let mut out: Vec<(usize, u32)> = Vec::new();
    let mut k: usize = 0;
    while k < order.len()
        invariant
            k <= order@.len(),
            out@.len() == k,
            order@.len() == scores@.len(),
            forall|a: int| 0 <= a < order@.len() ==> #[trigger] order@[a] < scores@.len(),
            forall|a: int|
                0 <= a < k ==> (#[trigger] out@[a]).0 == order@[a] && out@[a].1
                    == scores@[order@[a] as int],
        decreases order@.len() - k,
    {
        let at: usize = order[k];
        out.push((at, scores[at]));
        k = k + 1;
    }
    assert forall|a: int| 0 <= a < out@.len() implies (#[trigger] out@[a]).0 == stable_order(
        scores@.len(),
        by_score(scores@),
    )[a] by {
        assert(positions(order@)[a] == order@[a]);
    }
    out
}

/// A ranking holds each position once, by descending score.
pub proof fn law_rank_descends(scores: Seq<u32>)
    ensures
        stably_sorted(stable_order(scores.len(), by_score(scores)), scores.len(), by_score(scores)),
        forall|a: int, b: int|
            0 <= a < b < scores.len() ==> scores[#[trigger] stable_order(
                scores.len(),
                by_score(scores),
            )[a]] >= scores[#[trigger] stable_order(scores.len(), by_score(scores))[b]],
{
    lemma_by_score_orders(scores);
    law_stable_order(scores.len(), by_score(scores));
}

} // verus!

//! Recall: the relevant memories that fit under a token budget.
use crate::lexical::{
    law_score_counts_occurrences, lexical_score, occurrences, score, share_a_word, terms,
};
use crate::memory::conflict::{conflicts_of, conflicts_view, detect_conflicts, Conflict};
use crate::memory::rank::{by_score, law_rank_descends, sort_by_score};
use crate::memory::types::{memories_view, Memory, MemoryType, MemoryView};
use crate::order::{
    ascends, fit, fits, law_fit_keeps_budget, lemma_all_fit, lemma_ascends_front,
    lemma_stable_order_has, lemma_stable_order_range, lemma_total_bound, lemma_total_is_cost,
    positions, stable_order, total,
};
use crate::tokens::{estimate, token_estimate};
use vstd::prelude::*;

verus! {

/// What to recall.
pub struct RecallArgs {
    pub query: String,
    pub memory_type: Option<MemoryType>,
    /// Hard ceiling: the sum of returned `token_count` never exceeds this.
    pub token_budget: Option<usize>,
}

/// One recalled memory.
pub struct RecallItem {
    pub memory: Memory,
    pub score: u32,
    pub token_count: usize,
}

/// What recall returns.
pub struct RecallResult {
    pub items: Vec<RecallItem>,
    pub conflicts: Vec<Conflict>,
}

/// The model of a recalled memory.
#[verifier::ext_equal]
pub struct RecallItemView {
    pub memory: MemoryView,
    pub score: u32,
    pub token_count: nat,
}

impl View for RecallItem {
    type V = RecallItemView;

    open spec fn view(&self) -> RecallItemView {
        RecallItemView {
            memory: self.memory@,
            score: self.score,
            token_count: self.token_count as nat,
        }
    }
}

pub open spec fn recall_items_view(v: Seq<RecallItem>) -> Seq<RecallItemView> {
    v.map_values(|i: RecallItem| i@)
}

/// Whether a memory answers the query and has the wanted type.
pub open spec fn relevant(m: MemoryView, query: Seq<char>, wanted: Option<MemoryType>) -> bool {
    (wanted is None || wanted == Some(m.memory_type)) && score(query, m.content) > 0
}

/// The relevant memories from position `i` on.
pub open spec fn relevant_from(
    ms: Seq<MemoryView>,
    query: Seq<char>,
    wanted: Option<MemoryType>,
    i: int,
) -> Seq<MemoryView>
    decreases ms.len() - i,
{
    if i < 0 || i >= ms.len() {
        seq![]
    } else if relevant(ms[i], query, wanted) {
        seq![ms[i]] + relevant_from(ms, query, wanted, i + 1)
    } else {
        relevant_from(ms, query, wanted, i + 1)
    }
}

/// `ms` in the order of descending score for the query.
pub open spec fn by_relevance(ms: Seq<MemoryView>, query: Seq<char>) -> Seq<MemoryView> {
    let scores = ms.map_values(|m: MemoryView| score(query, m.content));
    stable_order(ms.len(), by_score(scores)).map_values(|k: int| ms[k])
}

/// The relevant memories by descending score.
pub open spec fn ranked_relevant(
    ms: Seq<MemoryView>,
    query: Seq<char>,
    wanted: Option<MemoryType>,
) -> Seq<MemoryView> {
    by_relevance(relevant_from(ms, query, wanted, 0), query)
}

/// The token costs of memories.
pub open spec fn memory_costs(ms: Seq<MemoryView>) -> Seq<nat> {
    ms.map_values(|m: MemoryView| token_estimate(m.content))
}

/// The recalled form of a memory.
pub open spec fn recalled(m: MemoryView, query: Seq<char>) -> RecallItemView {
    RecallItemView {
        memory: m,
        score: score(query, m.content),
        token_count: token_estimate(m.content),
    }
}

/// The budget that an absent budget stands for.
pub open spec fn budget_of(b: Option<usize>) -> nat {
    match b {
        Some(n) => n as nat,
        None => usize::MAX as nat,
    }
}

/// The recalled items: of the ranked relevant memories, those that fit.
pub open spec fn recall_items(
    ms: Seq<MemoryView>,
    query: Seq<char>,
    wanted: Option<MemoryType>,
    budget: Option<usize>,
) -> Seq<RecallItemView> {
    let ranked = ranked_relevant(ms, query, wanted);
    fit(memory_costs(ranked), budget_of(budget), 0, 0).map_values(
        |k: int| recalled(ranked[k], query),
    )
}

/// Ranks the relevant memories and returns as many as fit under
/// `token_budget`. The budget is a hard ceiling: an item that does not fit is
/// skipped, but smaller ones are still tried. Conflicts are computed over the
/// whole relevant set, not the truncated items, so truncation cannot hide a
/// contradiction.
pub fn recall(memories: &[Memory], args: &RecallArgs) -> (r: RecallResult)
    ensures
        recall_items_view(r.items@) == recall_items(
            memories_view(memories@),
            args.query@,
            args.memory_type,
            args.token_budget,
        ),
        conflicts_view(r.conflicts@) == conflicts_of(
            ranked_relevant(memories_view(memories@), args.query@, args.memory_type),
        ),
{
    let ghost ms = memories_view(memories@);
    let ghost q = args.query@;
    let ghost t = args.memory_type;
    let mut found: Vec<usize> = Vec::new();
    let mut scores: Vec<u32> = Vec::new();
    let ghost mut rel: Seq<MemoryView> = seq![];
    let mut i: usize = 0;
    while i < memories.len()
        invariant
            i <= memories@.len(),
            ms == memories_view(memories@),
            q == args.query@,
            t == args.memory_type,
            found@.len() == rel.len(),
            scores@ == rel.map_values(|m: MemoryView| score(q, m.content)),
            forall|k: int|
                0 <= k < found@.len() ==> #[trigger] found@[k] < memories@.len() && rel[k]
                    == ms[found@[k] as int],
            relevant_from(ms, q, t, 0) == rel + relevant_from(ms, q, t, i as int),
        decreases memories@.len() - i,
    {
        let wanted: bool = match args.memory_type {
            Some(w) => memories[i].memory_type == w,
            None => true,
        };
        let s: u32 = lexical_score(args.query.as_str(), memories[i].content.as_str());
        if wanted && s > 0 {
            assert(relevant(ms[i as int], q, t));
            found.push(i);
            scores.push(s);
            proof {
                let prev = rel;
                rel = rel.push(ms[i as int]);
                assert(scores@ =~= rel.map_values(|m: MemoryView| score(q, m.content)));
                assert(prev + (seq![ms[i as int]] + relevant_from(ms, q, t, i + 1)) =~= rel
                    + relevant_from(ms, q, t, i + 1));
            }
        } else {
            assert(!relevant(ms[i as int], q, t));
        }
        i = i + 1;
    }
    assert(rel + relevant_from(ms, q, t, i as int) =~= rel);
    let order = sort_by_score(&scores);
    let mut ranked: Vec<Memory> = Vec::new();
    let ghost want = ranked_relevant(ms, q, t);
    let mut k: usize = 0;
    proof {
        lemma_stable_order_range(rel.len(), by_score(scores@));
    }
    while k < order.len()
        invariant
            k <= order@.len(),
            order@.len() == scores@.len(),
            scores@.len() == rel.len(),
            found@.len() == rel.len(),
            ms == memories_view(memories@),
            positions(order@) == stable_order(rel.len(), by_score(scores@)),
            want == stable_order(rel.len(), by_score(scores@)).map_values(|n: int| rel[n]),
            forall|a: int| 0 <= a < order@.len() ==> #[trigger] order@[a] < scores@.len(),
            forall|n: int|
                0 <= n < found@.len() ==> #[trigger] found@[n] < memories@.len() && rel[n]
                    == ms[found@[n] as int],
            memories_view(ranked@) == want.take(k as int),
        decreases order@.len() - k,
    {
        let at: usize = found[order[k]];
        let ghost prev = memories_view(ranked@);
        let m = memories[at].clone();
        assert(positions(order@)[k as int] == order@[k as int]);
        assert(want[k as int] == m@);
        ranked.push(m);
        assert(memories_view(ranked@) =~= prev.push(want[k as int]));
        assert(want.take(k + 1) =~= want.take(k as int).push(want[k as int]));
        k = k + 1;
    }
    assert(want.take(want.len() as int) =~= want);
    let conflicts = detect_conflicts(ranked.as_slice());
    let budget: usize = match args.token_budget {
        Some(b) => b,
        None => usize::MAX,
    };
    let ghost costs = memory_costs(want);
    let ghost chosen = fit(costs, budget as nat, 0, 0);
    let mut items: Vec<RecallItem> = Vec::new();
    let mut used: usize = 0;
    let mut n: usize = 0;
    assert(recall_items_view(items@) =~= seq![]);
    let ghost mut picked: Seq<int> = seq![];
    while n < ranked.len()
        invariant
            n <= ranked@.len(),
            used <= budget,
            q == args.query@,
            memories_view(ranked@) == want,
            costs == memory_costs(want),
            chosen == fit(costs, budget as nat, 0, 0),
            chosen == picked + fit(costs, budget as nat, used as nat, n as int),
            recall_items_view(items@) == picked.map_values(|p: int| recalled(want[p], q)),
        decreases ranked@.len() - n,
    {
        assert(want[n as int] == ranked@[n as int]@);
        let token_count: usize = estimate(ranked[n].content.as_str());
        if fits(used, token_count, budget) {
            let s: u32 = lexical_score(args.query.as_str(), ranked[n].content.as_str());
            let item = RecallItem { memory: ranked[n].clone(), score: s, token_count };
            let ghost prev = recall_items_view(items@);
            let ghost was = picked;
            assert(item@ == recalled(want[n as int], q));
            items.push(item);
            proof {
                picked = picked.push(n as int);
                assert(recall_items_view(items@) =~= prev.push(recalled(want[n as int], q)));
                assert(recall_items_view(items@) =~= picked.map_values(
                    |p: int| recalled(want[p], q),
                ));
                let rest = fit(costs, budget as nat, (used + token_count) as nat, n + 1);
                assert(was + (seq![n as int] + rest) =~= picked + rest);
            }
            used = used + token_count;
        }
        n = n + 1;
    }
    assert(picked + fit(costs, budget as nat, used as nat, n as int) =~= picked);
    RecallResult { items, conflicts }
}

/// The token counts of recalled items.
pub open spec fn item_costs(items: Seq<RecallItemView>) -> Seq<nat> {
    items.map_values(|i: RecallItemView| i.token_count)
}

proof fn lemma_relevant_all(
    ms: Seq<MemoryView>,
    query: Seq<char>,
    wanted: Option<MemoryType>,
    i: int,
)
    requires
        0 <= i,
    ensures
        forall|k: int|
            0 <= k < relevant_from(ms, query, wanted, i).len() ==> relevant(
                #[trigger] relevant_from(ms, query, wanted, i)[k],
                query,
                wanted,
            ),
    decreases ms.len() - i,
{
    if i < ms.len() {
        lemma_relevant_all(ms, query, wanted, i + 1);
        let rest = relevant_from(ms, query, wanted, i + 1);
        let all = relevant_from(ms, query, wanted, i);
        assert forall|k: int| 0 <= k < all.len() implies relevant(
            #[trigger] all[k],
            query,
            wanted,
        ) by {
            if relevant(ms[i], query, wanted) {
                if k > 0 {
                    assert(all[k] == rest[k - 1]);
                }
            } else {
                assert(all[k] == rest[k]);
            }
        }
    }
}

/// Recall never exceeds the token budget, returns relevant memories of the
/// wanted type only, and orders them by descending score.
pub proof fn law_recall_keeps_budget_and_order(
    ms: Seq<MemoryView>,
    query: Seq<char>,
    wanted: Option<MemoryType>,
    budget: Option<usize>,
)
    ensures
        ({
            let items = recall_items(ms, query, wanted, budget);
            &&& total(item_costs(items)) <= budget_of(budget)
            &&& forall|k: int|
                0 <= k < items.len() ==> relevant((#[trigger] items[k]).memory, query, wanted)
                    && items[k].score > 0
            &&& forall|a: int, b: int|
                0 <= a < b < items.len() ==> (#[trigger] items[a]).score >= (
                #[trigger] items[b]).score
        }),
{
    let rel = relevant_from(ms, query, wanted, 0);
    let scores = rel.map_values(|m: MemoryView| score(query, m.content));
    let order = stable_order(rel.len(), by_score(scores));
    let ranked = ranked_relevant(ms, query, wanted);
    let costs = memory_costs(ranked);
    let picked = fit(costs, budget_of(budget), 0, 0);
    let items = recall_items(ms, query, wanted, budget);
    law_rank_descends(scores);
    law_fit_keeps_budget(costs, budget_of(budget), 0, 0);
    lemma_relevant_all(ms, query, wanted, 0);
    assert forall|k: int| 0 <= k < ranked.len() implies relevant(
        #[trigger] ranked[k],
        query,
        wanted,
    ) && score(query, ranked[k].content) == scores[order[k]] by {
        assert(ranked[k] == rel[order[k]]);
    }
    assert(item_costs(items) =~= picked.map_values(|k: int| costs[k]));
    lemma_total_is_cost(costs, picked);
    assert forall|a: int, b: int| 0 <= a < b < items.len() implies (#[trigger] items[a]).score >= (
    #[trigger] items[b]).score by {
        assert(picked[a] < picked[b]);
        assert(scores[order[picked[a]]] >= scores[order[picked[b]]]);
        assert(items[a].score == score(query, ranked[picked[a]].content));
        assert(items[b].score == score(query, ranked[picked[b]].content));
    }
}

proof fn lemma_relevant_has(
    ms: Seq<MemoryView>,
    query: Seq<char>,
    wanted: Option<MemoryType>,
    i: int,
    m: MemoryView,
)
    requires
        0 <= i <= ms.len(),
    ensures
        relevant_from(ms, query, wanted, i).contains(m) <==> relevant(m, query, wanted) && ms.skip(
            i,
        ).contains(m),
    decreases ms.len() - i,
{
    if i < ms.len() {
        lemma_relevant_has(ms, query, wanted, i + 1, m);
        let rest = relevant_from(ms, query, wanted, i + 1);
        let all = relevant_from(ms, query, wanted, i);
        let tail = ms.skip(i);
        let short = ms.skip(i + 1);
        assert(tail =~= seq![ms[i]] + short);
        assert(tail.contains(m) <==> m == ms[i] || short.contains(m)) by {
            if short.contains(m) {
                let a = choose|a: int| 0 <= a < short.len() && short[a] == m;
                assert(tail[a + 1] == m);
            }
            if m == ms[i] {
                assert(tail[0] == m);
            }
        }
        if relevant(ms[i], query, wanted) {
            assert(all == seq![ms[i]] + rest);
            assert(all.contains(m) <==> m == ms[i] || rest.contains(m)) by {
                if rest.contains(m) {
                    let a = choose|a: int| 0 <= a < rest.len() && rest[a] == m;
                    assert(all[a + 1] == m);
                }
                if m == ms[i] {
                    assert(all[0] == m);
                }
            }
        }
    }
}

proof fn lemma_ranked_has(ms: Seq<MemoryView>, query: Seq<char>, m: MemoryView)
    ensures
        by_relevance(ms, query).contains(m) <==> ms.contains(m),
{
    let less = by_score(ms.map_values(|m: MemoryView| score(query, m.content)));
    let order = stable_order(ms.len(), less);
    let ranked = by_relevance(ms, query);
    lemma_stable_order_range(ms.len(), less);
    if ranked.contains(m) {
        let a = choose|a: int| 0 <= a < ranked.len() && ranked[a] == m;
        assert(ms[order[a]] == m);
    }
    if ms.contains(m) {
        let k = choose|k: int| 0 <= k < ms.len() && ms[k] == m;
        lemma_stable_order_has(ms.len(), less, k);
        let a = choose|a: int| 0 <= a < order.len() && order[a] == k;
        assert(ranked[a] == m);
    }
}

/// Recall makes nothing up and, where the budget is large enough for all that
/// is relevant, leaves nothing out: what it returns are relevant memories of
/// those it was given, and then all of them.
pub proof fn law_recall_finds_what_is_relevant(
    ms: Seq<MemoryView>,
    query: Seq<char>,
    wanted: Option<MemoryType>,
    budget: Option<usize>,
    m: MemoryView,
)
    ensures
        recall_items(ms, query, wanted, budget).contains(recalled(m, query)) ==> ms.contains(m)
            && relevant(m, query, wanted),
        ms.contains(m) && relevant(m, query, wanted) && total(
            memory_costs(ranked_relevant(ms, query, wanted)),
        ) <= budget_of(budget) ==> recall_items(ms, query, wanted, budget).contains(
            recalled(m, query),
        ),
{
    let ranked = ranked_relevant(ms, query, wanted);
    let costs = memory_costs(ranked);
    let picked = fit(costs, budget_of(budget), 0, 0);
    let items = recall_items(ms, query, wanted, budget);
    lemma_relevant_has(ms, query, wanted, 0, m);
    assert(ms.skip(0) =~= ms);
    lemma_ranked_has(relevant_from(ms, query, wanted, 0), query, m);
    law_fit_keeps_budget(costs, budget_of(budget), 0, 0);
    if items.contains(recalled(m, query)) {
        let a = choose|a: int| 0 <= a < items.len() && items[a] == recalled(m, query);
        assert(items[a].memory == ranked[picked[a]]);
        assert(ranked.contains(m));
    }
    if ranked.contains(m) && total(costs) <= budget_of(budget) {
        let k = choose|k: int| 0 <= k < ranked.len() && ranked[k] == m;
        assert(costs.skip(0) =~= costs);
        lemma_all_fit(costs, budget_of(budget), 0, 0);
        assert(picked.contains(k));
        let a = choose|a: int| 0 <= a < picked.len() && picked[a] == k;
        assert(items[a] == recalled(m, query));
    }
}

proof fn lemma_relevant_at(
    ms: Seq<MemoryView>,
    query: Seq<char>,
    wanted: Option<MemoryType>,
    i: int,
) -> (at: Seq<int>)
    requires
        0 <= i <= ms.len(),
    ensures
        at.len() == relevant_from(ms, query, wanted, i).len(),
        ascends(at),
        forall|a: int|
            0 <= a < at.len() ==> i <= #[trigger] at[a] < ms.len() && relevant_from(
                ms,
                query,
                wanted,
                i,
            )[a] == ms[at[a]],
    decreases ms.len() - i,
{
    if i < ms.len() {
        let rest = lemma_relevant_at(ms, query, wanted, i + 1);
        if relevant(ms[i], query, wanted) {
            let at = seq![i] + rest;
            lemma_ascends_front(i, rest);
            assert forall|a: int| 0 <= a < at.len() implies i <= #[trigger] at[a] < ms.len()
                && relevant_from(ms, query, wanted, i)[a] == ms[at[a]] by {
                if a > 0 {
                    assert(at[a] == rest[a - 1]);
                }
            }
            at
        } else {
            rest
        }
    } else {
        seq![]
    }
}

proof fn lemma_ranked_at(ms: Seq<MemoryView>, query: Seq<char>, wanted: Option<MemoryType>) -> (at:
    Seq<int>)
    ensures
        at.len() == ranked_relevant(ms, query, wanted).len(),
        at.len() <= ms.len(),
        forall|a: int|
            0 <= a < at.len() ==> 0 <= #[trigger] at[a] < ms.len() && ranked_relevant(
                ms,
                query,
                wanted,
            )[a] == ms[at[a]],
        forall|a: int, b: int|
            0 <= a < b < at.len() ==> {
                let first = score(query, ms[#[trigger] at[a]].content);
                let second = score(query, ms[#[trigger] at[b]].content);
                first > second || first == second && at[a] < at[b]
            },
{
    let rel = relevant_from(ms, query, wanted, 0);
    let from = lemma_relevant_at(ms, query, wanted, 0);
    let scores = rel.map_values(|m: MemoryView| score(query, m.content));
    let order = stable_order(rel.len(), by_score(scores));
    law_rank_descends(scores);
    let at = order.map_values(|k: int| from[k]);
    assert forall|a: int, b: int| 0 <= a < b < at.len() implies {
        let first = score(query, ms[#[trigger] at[a]].content);
        let second = score(query, ms[#[trigger] at[b]].content);
        first > second || first == second && at[a] < at[b]
    } by {
        let less = by_score(scores);
        assert(order[a] != order[b] && !less(order[b], order[a]) && (!less(order[a], order[b])
            ==> order[a] < order[b]));
        assert(scores[order[a]] == score(query, ms[at[a]].content));
        assert(scores[order[b]] == score(query, ms[at[b]].content));
        if order[a] < order[b] {
            assert(from[order[a]] < from[order[b]]);
        }
    }
    lemma_relevant_len(ms, query, wanted, 0);
    at
}

proof fn lemma_relevant_len(
    ms: Seq<MemoryView>,
    query: Seq<char>,
    wanted: Option<MemoryType>,
    i: int,
)
    requires
        0 <= i <= ms.len(),
    ensures
        relevant_from(ms, query, wanted, i).len() <= ms.len() - i,
    decreases ms.len() - i,
{
    if i < ms.len() {
        lemma_relevant_len(ms, query, wanted, i + 1);
    }
}

/// What recall returns, field by field: a memory that was given, of the wanted
/// type where one is wanted, with a word of the query among its own. Its score is
/// how often the words of the query stand in it, and its cost a token for every
/// four characters.
pub proof fn law_recall_returns_the_wanted_type(
    ms: Seq<MemoryView>,
    query: Seq<char>,
    wanted: Option<MemoryType>,
    budget: Option<usize>,
    k: int,
)
    requires
        0 <= k < recall_items(ms, query, wanted, budget).len(),
    ensures
        ({
            let item = recall_items(ms, query, wanted, budget)[k];
            let held = terms(item.memory.content);
            &&& ms.contains(item.memory)
            &&& wanted matches Some(t) ==> item.memory.memory_type == t
            &&& share_a_word(terms(query), held)
            &&& item.score == occurrences(terms(query), held).len() % 0x1_0000_0000
            &&& item.memory.content.len() <= 4 * item.token_count < item.memory.content.len() + 4
        }),
{
    let items = recall_items(ms, query, wanted, budget);
    let ranked = ranked_relevant(ms, query, wanted);
    let costs = memory_costs(ranked);
    let picked = fit(costs, budget_of(budget), 0, 0);
    law_fit_keeps_budget(costs, budget_of(budget), 0, 0);
    law_recall_keeps_budget_and_order(ms, query, wanted, budget);
    let at = lemma_ranked_at(ms, query, wanted);
    let m = ranked[picked[k]];
    assert(items[k] == recalled(m, query));
    assert(m == ms[at[picked[k]]]);
    law_score_counts_occurrences(terms(query), terms(m.content));
}

/// Recall leaves nothing out where the budget holds all that was given: each given
/// memory of the wanted type, or of any where none is wanted, that has a word of
/// the query is returned.
pub proof fn law_recall_returns_all_of_the_type(
    ms: Seq<MemoryView>,
    query: Seq<char>,
    wanted: Option<MemoryType>,
    budget: Option<usize>,
    longest: nat,
    m: MemoryView,
)
    requires
        forall|k: int| 0 <= k < ms.len() ==> (#[trigger] ms[k]).content.len() <= longest,
        ms.len() * longest <= budget_of(budget),
        ms.contains(m),
        wanted is None || wanted->0 == m.memory_type,
        share_a_word(terms(query), terms(m.content)),
        occurrences(terms(query), terms(m.content)).len() < 0x1_0000_0000,
    ensures
        exists|k: int|
            0 <= k < recall_items(ms, query, wanted, budget).len() && (#[trigger] recall_items(
                ms,
                query,
                wanted,
                budget,
            )[k]).memory == m,
{
    let items = recall_items(ms, query, wanted, budget);
    let ranked = ranked_relevant(ms, query, wanted);
    let costs = memory_costs(ranked);
    let at = lemma_ranked_at(ms, query, wanted);
    law_score_counts_occurrences(terms(query), terms(m.content));
    assert forall|k: int| 0 <= k < costs.len() implies #[trigger] costs[k] <= longest by {
        assert(ranked[k] == ms[at[k]]);
    }
    lemma_total_bound(costs, longest);
    assert(costs.len() * longest <= ms.len() * longest) by (nonlinear_arith)
        requires
            costs.len() <= ms.len(),
    ;
    law_recall_finds_what_is_relevant(ms, query, wanted, budget, m);
    let k = choose|k: int| 0 <= k < items.len() && items[k] == recalled(m, query);
    assert(items[k].memory == m);
}

/// The order of what is recalled: the higher score first, and of equal ones the
/// memory that was given first. No given memory is returned twice. `at` says which
/// of the given memories each item is.
pub proof fn law_recall_orders_by_score_then_place(
    ms: Seq<MemoryView>,
    query: Seq<char>,
    wanted: Option<MemoryType>,
    budget: Option<usize>,
) -> (at: Seq<int>)
    ensures
        ({
            let items = recall_items(ms, query, wanted, budget);
            &&& at.len() == items.len()
            &&& forall|a: int|
                0 <= a < at.len() ==> 0 <= #[trigger] at[a] < ms.len() && items[a].memory
                    == ms[at[a]]
            &&& forall|a: int, b: int|
                0 <= a < b < at.len() ==> (#[trigger] items[a]).score > (
                #[trigger] items[b]).score || items[a].score == items[b].score && at[a] < at[b]
        }),
{
    let items = recall_items(ms, query, wanted, budget);
    let ranked = ranked_relevant(ms, query, wanted);
    let costs = memory_costs(ranked);
    let picked = fit(costs, budget_of(budget), 0, 0);
    law_fit_keeps_budget(costs, budget_of(budget), 0, 0);
    let from = lemma_ranked_at(ms, query, wanted);
    let at = picked.map_values(|k: int| from[k]);
    assert forall|a: int| 0 <= a < at.len() implies 0 <= #[trigger] at[a] < ms.len() && items[a]
        == recalled(ms[at[a]], query) by {
        assert(items[a] == recalled(ranked[picked[a]], query));
        assert(0 <= from[picked[a]] < ms.len());
    }
    assert forall|a: int, b: int| 0 <= a < b < at.len() implies ((#[trigger] items[a]).score > (
    #[trigger] items[b]).score || items[a].score == items[b].score && at[a] < at[b]) by {
        assert(picked[a] < picked[b]);
        assert(from[picked[a]] == at[a] && from[picked[b]] == at[b]);
        assert(items[a] == recalled(ms[at[a]], query));
        assert(items[b] == recalled(ms[at[b]], query));
    }
    at
}

} // verus!

//! Lexical search over notes, answering with snippets under a token budget.
use crate::lexical::{
    law_a_space_parts_tokens, law_score_counts_occurrences, law_scores_of_parts_sum, lexical_score,
    occurrences, score, share_a_word, terms, tokenize, tokenized,
};
use crate::memory::rank::{by_score, law_rank_descends, sort_by_score};
use crate::memory::recall::budget_of;
use crate::order::{
    ascends, fit, fits, law_fit_keeps_budget, lemma_all_fit, lemma_ascends_front,
    lemma_before_asym, lemma_fit_all, lemma_stable_order_has, lemma_stable_order_range,
    lemma_total_bound, lemma_total_is_cost, lemma_total_prefix, positions, stable_order, total,
};
use crate::text::{
    all_ascii, chars_of, find_pattern, is_white, is_whitespace, join, join_strings, lemma_next_match, lower,
    lowercase, next_match, string_range, texts,
};
use crate::tokens::{estimate, token_estimate};
use crate::vault::index::{ids_ascend, VaultIndex};
use crate::vault::types::{Note, NoteView};
use vstd::prelude::*;
use vstd::string::*;

verus! {

/// The longest snippet, in characters.
pub const SNIPPET_MAX: usize = 240;

/// How far before the first hit a snippet starts, in bytes.
pub const SNIPPET_LEAD: usize = 40;

/// What bounds a search.
pub struct SearchArgs {
    pub token_budget: Option<usize>,
    pub top_k: Option<usize>,
}

impl Default for SearchArgs {
    fn default() -> (r: Self)
        ensures
            r.token_budget is None,
            r.top_k is None,
    {
        SearchArgs { token_budget: None, top_k: None }
    }
}

/// One hit of a search.
#[derive(Debug)]
pub struct SearchHit {
    pub note_id: String,
    pub title: String,
    pub score: u32,
    pub snippet: String,
    pub token_count: usize,
}

/// The model of a hit.
#[verifier::ext_equal]
pub struct SearchHitView {
    pub note_id: Seq<char>,
    pub title: Seq<char>,
    pub score: u32,
    pub snippet: Seq<char>,
    pub token_count: nat,
}

impl View for SearchHit {
    type V = SearchHitView;

    open spec fn view(&self) -> SearchHitView {
        SearchHitView {
            note_id: self.note_id@,
            title: self.title@,
            score: self.score,
            snippet: self.snippet@,
            token_count: self.token_count as nat,
        }
    }
}

pub open spec fn hits_view(v: Seq<SearchHit>) -> Seq<SearchHitView> {
    v.map_values(|h: SearchHit| h@)
}

// ---------------------------------------------------------------------------
// Snippets
// ---------------------------------------------------------------------------

/// The end of the run of characters other than white space that starts at `i`.
pub open spec fn dark_end(s: Seq<char>, i: int) -> int
    decreases s.len() - i,
{
    if 0 <= i < s.len() && !is_white(s[i]) {
        dark_end(s, i + 1)
    } else {
        i
    }
}

/// The words of `s[i..]` between white space.
pub open spec fn white_words_from(s: Seq<char>, i: int) -> Seq<Seq<char>>
    decreases s.len() - i,
{
    if i < 0 || i >= s.len() {
        seq![]
    } else if is_white(s[i]) {
        white_words_from(s, i + 1)
    } else {
        let j = dark_end(s, i);
        if i < j <= s.len() {
            seq![s.subrange(i, j)] + white_words_from(s, j)
        } else {
            seq![]
        }
    }
}

/// `s` on one line: each run of white space becomes one blank, none at the ends.
pub open spec fn collapsed(s: Seq<char>) -> Seq<char> {
    join(white_words_from(s, 0), " "@)
}

/// The first position in `text` where one of the first `n` terms stands.
pub open spec fn first_hit(text: Seq<char>, wanted: Seq<Seq<char>>, n: int) -> Option<int>
    decreases n,
{
    if n <= 0 {
        None
    } else {
        let earlier = first_hit(text, wanted, n - 1);
        match next_match(text, wanted[n - 1], 0) {
            Some(p) => match earlier {
                Some(q) => if p < q {
                    Some(p)
                } else {
                    Some(q)
                },
                None => Some(p),
            },
            None => earlier,
        }
    }
}

/// Where a snippet starts: a little before the first hit, counted in characters.
pub open spec fn snippet_start(text: Seq<char>, wanted: Seq<Seq<char>>) -> nat {
    let at = match first_hit(text, wanted, wanted.len() as int) {
        Some(p) => p,
        None => 0,
    };
    if at >= SNIPPET_LEAD {
        (at - SNIPPET_LEAD) as nat
    } else {
        0
    }
}

/// At most `max` characters of `s` from `from` on.
pub open spec fn window(s: Seq<char>, from: nat, max: nat) -> Seq<char> {
    if from >= s.len() {
        seq![]
    } else if s.len() - from <= max {
        s.skip(from as int)
    } else {
        s.subrange(from as int, (from + max) as int)
    }
}

/// The snippet of a content for a query.
pub open spec fn snippet_of(query: Seq<char>, content: Seq<char>) -> Seq<char> {
    let flat = collapsed(content);
    window(flat, snippet_start(lowercase(flat), terms(query)), SNIPPET_MAX as nat)
}

fn white_words(s: &str) -> (r: Vec<String>)
    ensures
        texts(r@) == white_words_from(s@, 0),
{
    let v = chars_of(s);
    let n: usize = v.len();
    let mut out: Vec<String> = Vec::new();
    let mut i: usize = 0;
    while i < n
        invariant
            n == v@.len(),
            v@ == s@,
            i <= n,
            white_words_from(s@, 0) == texts(out@) + white_words_from(s@, i as int),
        decreases n - i,
    {
        if is_whitespace(v[i]) {
            i = i + 1;
        } else {
            let mut j: usize = i + 1;
            while j < n && !is_whitespace(v[j])
                invariant
                    n == v@.len(),
                    v@ == s@,
                    i < j <= n,
                    dark_end(s@, i as int) == dark_end(s@, j as int),
                decreases n - j,
            {
                j = j + 1;
            }
            let ghost prev = texts(out@);
            out.push(string_range(&v, i, j));
            assert(texts(out@) =~= prev.push(s@.subrange(i as int, j as int)));
            assert(prev + (seq![s@.subrange(i as int, j as int)] + white_words_from(s@, j as int))
                =~= texts(out@) + white_words_from(s@, j as int));
            i = j;
        }
    }
    assert(texts(out@) + white_words_from(s@, i as int) =~= texts(out@));
    out
}

fn snippet_offset(text: &str, wanted: &Vec<String>) -> (r: usize)
    ensures
        r == snippet_start(text@, texts(wanted@)),
{
    let v = chars_of(text);
    let ghost w = texts(wanted@);
    let mut best: Option<usize> = None;
    let mut k: usize = 0;
    while k < wanted.len()
        invariant
            k <= wanted@.len(),
            v@ == text@,
            w == texts(wanted@),
            match best {
                Some(b) => first_hit(text@, w, k as int) == Some(b as int) && b <= v@.len(),
                None => first_hit(text@, w, k as int) is None,
            },
        decreases wanted@.len() - k,
    {
        let p = chars_of(wanted[k].as_str());
        assert(w[k as int] == p@);
        match find_pattern(&v, &p, 0) {
            Some(at) => {
                best = match best {
                    Some(b) => if at < b {
                        Some(at)
                    } else {
                        Some(b)
                    },
                    None => Some(at),
                };
            },
            None => {},
        }
        k = k + 1;
    }
    let at: usize = match best {
        Some(b) => b,
        None => 0,
    };
    if at >= SNIPPET_LEAD {
        at - SNIPPET_LEAD
    } else {
        0
    }
}

/// The snippet of a text for a query, once its words and its lower-case
/// one-line form are known.
pub fn cut_snippet(flat: &str, lowered: &str, wanted: &Vec<String>) -> (r: String)
    ensures
        r@ == window(flat@, snippet_start(lowered@, texts(wanted@)), SNIPPET_MAX as nat),
        r@.len() <= SNIPPET_MAX,
{
    let start: usize = snippet_offset(lowered, wanted);
    let v = chars_of(flat);
    let n: usize = v.len();
    if start >= n {
        String::new()
    } else if n - start <= SNIPPET_MAX {
        assert(v@.subrange(start as int, n as int) =~= flat@.skip(start as int));
        string_range(&v, start, n)
    } else {
        string_range(&v, start, start + SNIPPET_MAX)
    }
}

/// A snippet shows where the first hit is: what stands there in the text stands in
/// the snippet, as far as it reaches. Of a text whose lower-case form has another
/// length the places are those of that form.
pub proof fn law_a_snippet_shows_the_hit(
    flat: Seq<char>,
    lowered: Seq<char>,
    wanted: Seq<Seq<char>>,
    len: int,
)
    requires
        first_hit(lowered, wanted, wanted.len() as int) is Some,
        0 < len <= SNIPPET_MAX - SNIPPET_LEAD,
        0 <= first_hit(lowered, wanted, wanted.len() as int)->0 + len <= flat.len(),
    ensures
        ({
            let at = first_hit(lowered, wanted, wanted.len() as int)->0;
            let start = snippet_start(lowered, wanted);
            let shown = window(flat, start, SNIPPET_MAX as nat);
            &&& 0 <= at - start <= SNIPPET_LEAD
            &&& shown.subrange(at - start, at - start + len) == flat.subrange(at, at + len)
        }),
{
    let at = first_hit(lowered, wanted, wanted.len() as int)->0;
    let start = snippet_start(lowered, wanted);
    let shown = window(flat, start, SNIPPET_MAX as nat);
    lemma_first_hit(lowered, wanted, wanted.len() as int);
    assert(shown.subrange(at - start, at - start + len) =~= flat.subrange(at, at + len));
}

proof fn lemma_first_hit(text: Seq<char>, wanted: Seq<Seq<char>>, n: int)
    requires
        0 <= n <= wanted.len(),
    ensures
        first_hit(text, wanted, n) matches Some(p) ==> 0 <= p,
    decreases n,
{
    if n > 0 {
        lemma_first_hit(text, wanted, n - 1);
        lemma_next_match(text, wanted[n - 1], 0);
    }
}

/// A part of `content` around the first term of the query in it.
pub fn make_snippet(query: &str, content: &str) -> (r: String)
    ensures
        r@ == snippet_of(query@, content@),
        r@.len() <= SNIPPET_MAX,
{
    let wanted = tokenize(query);
    let words = white_words(content);
    let flat = join_strings(&words, " ");
    let lowered = lower(flat.as_str());
    cut_snippet(flat.as_str(), lowered.as_str(), &wanted)
}

// ---------------------------------------------------------------------------
// Search
// ---------------------------------------------------------------------------

/// The score of a note for a query: over its title and its content.
pub open spec fn note_score(query: Seq<char>, n: NoteView) -> u32 {
    score(query, n.title + " "@ + n.content)
}

/// The notes from position `i` on that score at all.
pub open spec fn scoring_from(s: Seq<NoteView>, query: Seq<char>, i: int) -> Seq<NoteView>
    decreases s.len() - i,
{
    if i < 0 || i >= s.len() {
        seq![]
    } else if note_score(query, s[i]) > 0 {
        seq![s[i]] + scoring_from(s, query, i + 1)
    } else {
        scoring_from(s, query, i + 1)
    }
}

/// The notes that score, by descending score, ties in the order of ids.
pub open spec fn ranked_notes(s: Seq<NoteView>, query: Seq<char>) -> Seq<NoteView> {
    let found = scoring_from(s, query, 0);
    let scores = found.map_values(|n: NoteView| note_score(query, n));
    stable_order(found.len(), by_score(scores)).map_values(|k: int| found[k])
}

/// The first `k` of a list, or all of it.
pub open spec fn first_of<A>(s: Seq<A>, k: Option<usize>) -> Seq<A> {
    match k {
        Some(n) => if n < s.len() {
            s.take(n as int)
        } else {
            s
        },
        None => s,
    }
}

/// The hit that a note makes.
pub open spec fn hit_of(query: Seq<char>, n: NoteView) -> SearchHitView {
    SearchHitView {
        note_id: n.id,
        title: n.title,
        score: note_score(query, n),
        snippet: snippet_of(query, n.content),
        token_count: token_estimate(snippet_of(query, n.content)),
    }
}

/// The token costs of the hits of notes.
pub open spec fn hit_costs(query: Seq<char>, ns: Seq<NoteView>) -> Seq<nat> {
    ns.map_values(|n: NoteView| hit_of(query, n).token_count)
}

/// The hits of a search.
pub open spec fn search_hits(
    s: Seq<NoteView>,
    query: Seq<char>,
    top_k: Option<usize>,
    budget: Option<usize>,
) -> Seq<SearchHitView> {
    let top = first_of(ranked_notes(s, query), top_k);
    fit(hit_costs(query, top), budget_of(budget), 0, 0).map_values(|k: int| hit_of(query, top[k]))
}

fn score_note(query: &str, n: &Note) -> (r: u32)
    ensures
        r == note_score(query@, n@),
{
    let mut text = n.title.clone();
    text.append(" ");
    text.append(n.content.as_str());
    lexical_score(query, text.as_str())
}

/// Lexical search, answering with snippets under a token budget, never with
/// whole notes.
pub fn search_notes(index: &VaultIndex, query: &str, args: &SearchArgs) -> (r: Vec<SearchHit>)
    ensures
        hits_view(r@) == search_hits(index@, query@, args.top_k, args.token_budget),
{
    let ghost s = index@;
    let ghost q = query@;
    let all = index.all();
    let mut found: Vec<usize> = Vec::new();
    let mut scores: Vec<u32> = Vec::new();
    let ghost mut rel: Seq<NoteView> = seq![];
    let mut i: usize = 0;
    while i < all.len()
        invariant
            i <= all@.len(),
            s == index@,
            q == query@,
            all@.len() == s.len(),
            forall|k: int| 0 <= k < all@.len() ==> (#[trigger] all@[k])@ == s[k],
            found@.len() == rel.len(),
            scores@ == rel.map_values(|n: NoteView| note_score(q, n)),
            forall|k: int|
                0 <= k < found@.len() ==> #[trigger] found@[k] < all@.len() && rel[k]
                    == s[found@[k] as int],
            scoring_from(s, q, 0) == rel + scoring_from(s, q, i as int),
        decreases all@.len() - i,
    {
        let sc: u32 = score_note(query, all[i]);
        assert(all@[i as int]@ == s[i as int]);
        if sc > 0 {
            found.push(i);
            scores.push(sc);
            proof {
                let prev = rel;
                rel = rel.push(s[i as int]);
                assert(scores@ =~= rel.map_values(|n: NoteView| note_score(q, n)));
                assert(prev + (seq![s[i as int]] + scoring_from(s, q, i + 1)) =~= rel
                    + scoring_from(s, q, i + 1));
            }
        }
        i = i + 1;
    }
    assert(rel + scoring_from(s, q, i as int) =~= rel);
    let order = sort_by_score(&scores);
    proof {
        lemma_stable_order_range(rel.len(), by_score(scores@));
    }
    let ghost ranked = ranked_notes(s, q);
    let keep: usize = match args.top_k {
        Some(k) => if k < order.len() {
            k
        } else {
            order.len()
        },
        None => order.len(),
    };
    let ghost top = first_of(ranked, args.top_k);
    assert(top =~= ranked.take(keep as int));
    let budget: usize = match args.token_budget {
        Some(b) => b,
        None => usize::MAX,
    };
    let ghost costs = hit_costs(q, top);
    let ghost chosen = fit(costs, budget as nat, 0, 0);
    let ghost mut picked: Seq<int> = seq![];
    let mut hits: Vec<SearchHit> = Vec::new();
    let mut used: usize = 0;
    let mut n: usize = 0;
    assert(hits_view(hits@) =~= seq![]);
    while n < keep
        invariant
            n <= keep <= order@.len(),
            used <= budget,
            s == index@,
            q == query@,
            all@.len() == s.len(),
            forall|k: int| 0 <= k < all@.len() ==> (#[trigger] all@[k])@ == s[k],
            found@.len() == rel.len(),
            scores@ == rel.map_values(|m: NoteView| note_score(q, m)),
            forall|k: int|
                0 <= k < found@.len() ==> #[trigger] found@[k] < all@.len() && rel[k]
                    == s[found@[k] as int],
            order@.len() == rel.len(),
            positions(order@) == stable_order(rel.len(), by_score(scores@)),
            forall|a: int| 0 <= a < order@.len() ==> #[trigger] order@[a] < rel.len(),
            ranked == stable_order(rel.len(), by_score(scores@)).map_values(|k: int| rel[k]),
            top == ranked.take(keep as int),
            costs == hit_costs(q, top),
            chosen == fit(costs, budget as nat, 0, 0),
            chosen == picked + fit(costs, budget as nat, used as nat, n as int),
            hits_view(hits@) == picked.map_values(|p: int| hit_of(q, top[p])),
        decreases keep - n,
    {
        let at: usize = order[n];
        let note = all[found[at]];
        assert(positions(order@)[n as int] == at as int);
        assert(top[n as int] == note@);
        let snippet = make_snippet(query, note.content.as_str());
        let token_count: usize = estimate(snippet.as_str());
        if fits(used, token_count, budget) {
            let hit = SearchHit {
                note_id: note.id.clone(),
                title: note.title.clone(),
                score: scores[at],
                snippet,
                token_count,
            };
            assert(hit@ == hit_of(q, top[n as int]));
            let ghost prev = hits_view(hits@);
            let ghost was = picked;
            hits.push(hit);
            proof {
                picked = picked.push(n as int);
                assert(hits_view(hits@) =~= prev.push(hit_of(q, top[n as int])));
                assert(hits_view(hits@) =~= picked.map_values(|p: int| hit_of(q, top[p])));
                let rest = fit(costs, budget as nat, (used + token_count) as nat, n + 1);
                assert(was + (seq![n as int] + rest) =~= picked + rest);
            }
            used = used + token_count;
        }
        n = n + 1;
    }
    assert(picked + fit(costs, budget as nat, used as nat, n as int) =~= picked);
    hits
}

/// Search never exceeds its token budget, orders its hits by descending score,
/// and shows no more than a snippet of a note.
pub proof fn law_search_keeps_budget_and_order(
    s: Seq<NoteView>,
    query: Seq<char>,
    top_k: Option<usize>,
    budget: Option<usize>,
)
    ensures
        ({
            let hits = search_hits(s, query, top_k, budget);
            &&& total(hits.map_values(|h: SearchHitView| h.token_count)) <= budget_of(budget)
            &&& top_k matches Some(k) ==> hits.len() <= k
            &&& forall|a: int| 0 <= a < hits.len() ==> (#[trigger] hits[a]).snippet.len() <= SNIPPET_MAX
            &&& forall|a: int, b: int|
                0 <= a < b < hits.len() ==> (#[trigger] hits[a]).score >= (
                #[trigger] hits[b]).score
        }),
{
    let found = scoring_from(s, query, 0);
    let scores = found.map_values(|n: NoteView| note_score(query, n));
    let order = stable_order(found.len(), by_score(scores));
    let ranked = ranked_notes(s, query);
    let top = first_of(ranked, top_k);
    let costs = hit_costs(query, top);
    let picked = fit(costs, budget_of(budget), 0, 0);
    let hits = search_hits(s, query, top_k, budget);
    law_rank_descends(scores);
    law_fit_keeps_budget(costs, budget_of(budget), 0, 0);
    lemma_fit_len(costs, budget_of(budget), 0, 0);
    lemma_total_is_cost(costs, picked);
    assert(hits.map_values(|h: SearchHitView| h.token_count) =~= picked.map_values(
        |k: int| costs[k],
    ));
    assert forall|a: int, b: int| 0 <= a < b < hits.len() implies (#[trigger] hits[a]).score >= (
    #[trigger] hits[b]).score by {
        assert(picked[a] < picked[b]);
        assert(top[picked[a]] == found[order[picked[a]]]);
        assert(top[picked[b]] == found[order[picked[b]]]);
        assert(scores[order[picked[a]]] >= scores[order[picked[b]]]);
    }
}

/// No more is picked than there is.
pub proof fn lemma_fit_len(costs: Seq<nat>, budget: nat, used: nat, i: int)
    requires
        0 <= i <= costs.len(),
    ensures
        fit(costs, budget, used, i).len() <= costs.len() - i,
    decreases costs.len() - i,
{
    if i < costs.len() {
        if used + costs[i] > budget {
            lemma_fit_len(costs, budget, used, i + 1);
        } else {
            lemma_fit_len(costs, budget, used + costs[i], i + 1);
        }
    }
}

proof fn lemma_scoring_has(s: Seq<NoteView>, query: Seq<char>, i: int, n: NoteView)
    requires
        0 <= i <= s.len(),
    ensures
        scoring_from(s, query, i).contains(n) <==> note_score(query, n) > 0 && s.skip(i).contains(n),
    decreases s.len() - i,
{
    if i < s.len() {
        lemma_scoring_has(s, query, i + 1, n);
        let rest = scoring_from(s, query, i + 1);
        let all = scoring_from(s, query, i);
        let tail = s.skip(i);
        let short = s.skip(i + 1);
        assert(tail =~= seq![s[i]] + short);
        assert(tail.contains(n) <==> n == s[i] || short.contains(n)) by {
            if short.contains(n) {
                let a = choose|a: int| 0 <= a < short.len() && short[a] == n;
                assert(tail[a + 1] == n);
            }
            if n == s[i] {
                assert(tail[0] == n);
            }
        }
        if note_score(query, s[i]) > 0 {
            assert(all == seq![s[i]] + rest);
            assert(all.contains(n) <==> n == s[i] || rest.contains(n)) by {
                if rest.contains(n) {
                    let a = choose|a: int| 0 <= a < rest.len() && rest[a] == n;
                    assert(all[a + 1] == n);
                }
                if n == s[i] {
                    assert(all[0] == n);
                }
            }
        }
    }
}

proof fn lemma_ranked_notes_has(s: Seq<NoteView>, query: Seq<char>, n: NoteView)
    ensures
        ranked_notes(s, query).contains(n) <==> note_score(query, n) > 0 && s.contains(n),
{
    let found = scoring_from(s, query, 0);
    let less = by_score(found.map_values(|n: NoteView| note_score(query, n)));
    let order = stable_order(found.len(), less);
    let ranked = ranked_notes(s, query);
    lemma_scoring_has(s, query, 0, n);
    assert(s.skip(0) =~= s);
    lemma_stable_order_range(found.len(), less);
    if ranked.contains(n) {
        let a = choose|a: int| 0 <= a < ranked.len() && ranked[a] == n;
        assert(found[order[a]] == n);
    }
    if found.contains(n) {
        let k = choose|k: int| 0 <= k < found.len() && found[k] == n;
        lemma_stable_order_has(found.len(), less, k);
        let a = choose|a: int| 0 <= a < order.len() && order[a] == k;
        assert(ranked[a] == n);
    }
}

/// Search makes nothing up and, where neither a limit nor the budget stands
/// against it, leaves nothing out: each hit is that of a note that scores, and
/// each note that scores is hit.
pub proof fn law_search_finds_what_scores(
    s: Seq<NoteView>,
    query: Seq<char>,
    top_k: Option<usize>,
    budget: Option<usize>,
    n: NoteView,
)
    ensures
        forall|a: int|
            0 <= a < search_hits(s, query, top_k, budget).len() ==> exists|m: NoteView|
                s.contains(m) && note_score(query, m) > 0 && #[trigger] hit_of(query, m)
                    == #[trigger] search_hits(s, query, top_k, budget)[a],
        s.contains(n) && note_score(query, n) > 0 && top_k is None && total(
            hit_costs(query, ranked_notes(s, query)),
        ) <= budget_of(budget) ==> search_hits(s, query, top_k, budget).contains(hit_of(query, n)),
{
    let ranked = ranked_notes(s, query);
    let top = first_of(ranked, top_k);
    let costs = hit_costs(query, top);
    let picked = fit(costs, budget_of(budget), 0, 0);
    let hits = search_hits(s, query, top_k, budget);
    law_fit_keeps_budget(costs, budget_of(budget), 0, 0);
    assert forall|a: int| 0 <= a < hits.len() implies exists|m: NoteView|
        s.contains(m) && note_score(query, m) > 0 && #[trigger] hit_of(query, m)
            == #[trigger] hits[a] by {
        let m = top[picked[a]];
        assert(ranked[picked[a]] == m);
        lemma_ranked_notes_has(s, query, m);
        assert(hit_of(query, m) == hits[a]);
    }
    lemma_ranked_notes_has(s, query, n);
    if ranked.contains(n) && top_k is None && total(costs) <= budget_of(budget) {
        let k = choose|k: int| 0 <= k < ranked.len() && ranked[k] == n;
        assert(costs.skip(0) =~= costs);
        lemma_all_fit(costs, budget_of(budget), 0, 0);
        assert(picked.contains(k));
        let a = choose|a: int| 0 <= a < picked.len() && picked[a] == k;
        assert(hits[a] == hit_of(query, n));
    }
}

proof fn lemma_scoring_len(s: Seq<NoteView>, query: Seq<char>, i: int)
    requires
        0 <= i <= s.len(),
    ensures
        scoring_from(s, query, i).len() <= s.len() - i,
    decreases s.len() - i,
{
    if i < s.len() {
        lemma_scoring_len(s, query, i + 1);
    }
}

proof fn lemma_search_is_ample(s: Seq<NoteView>, query: Seq<char>, budget: Option<usize>)
    requires
        60 * s.len() <= budget_of(budget),
    ensures
        total(hit_costs(query, ranked_notes(s, query))) <= budget_of(budget),
{
    let found = scoring_from(s, query, 0);
    let ranked = ranked_notes(s, query);
    let costs = hit_costs(query, ranked);
    lemma_scoring_len(s, query, 0);
    lemma_stable_order_range(
        found.len(),
        by_score(found.map_values(|n: NoteView| note_score(query, n))),
    );
    assert forall|k: int| 0 <= k < costs.len() implies #[trigger] costs[k] <= 60 by {
        assert(costs[k] == token_estimate(snippet_of(query, ranked[k].content)));
    }
    lemma_total_bound(costs, 60);
}

/// What search finds, in words: a note of ASCII text is among the hits only where
/// a word of the query is a word of its title or of its content. Its hit has its
/// title, and its score is how often the query's words stand in the title and in
/// the content together. Where no limit is set and the budget holds a snippet of
/// every note, each such note is hit.
///
/// `wanted`, `titled` and `held` are what `tokenize` gives for the query, the title
/// and the content, and `both` for the two with a space between.
pub proof fn law_search_hits_titles_and_contents(
    s: Seq<NoteView>,
    query: Seq<char>,
    top_k: Option<usize>,
    budget: Option<usize>,
    n: NoteView,
    wanted: Seq<Seq<char>>,
    titled: Seq<Seq<char>>,
    held: Seq<Seq<char>>,
    both: Seq<Seq<char>>,
)
    requires
        ids_ascend(s),
        s.contains(n),
        all_ascii(n.title),
        all_ascii(n.content),
        tokenized(query, wanted),
        tokenized(n.title, titled),
        tokenized(n.content, held),
        tokenized(n.title + " "@ + n.content, both),
        occurrences(wanted, titled).len() + occurrences(wanted, held).len() < 0x1_0000_0000,
    ensures
        forall|a: int|
            0 <= a < search_hits(s, query, top_k, budget).len() && (#[trigger] search_hits(
                s,
                query,
                top_k,
                budget,
            )[a]).note_id == n.id ==> {
                let hit = search_hits(s, query, top_k, budget)[a];
                &&& share_a_word(wanted, titled) || share_a_word(wanted, held)
                &&& hit.title == n.title
                &&& hit.score == occurrences(wanted, titled).len() + occurrences(wanted, held).len()
            },
        top_k is None && 60 * s.len() <= budget_of(budget) && (share_a_word(wanted, titled)
            || share_a_word(wanted, held)) ==> exists|a: int|
            0 <= a < search_hits(s, query, top_k, budget).len() && (#[trigger] search_hits(
                s,
                query,
                top_k,
                budget,
            )[a]).note_id == n.id,
{
    let hits = search_hits(s, query, top_k, budget);
    law_a_space_parts_tokens(n.title, n.content, titled, held, both);
    law_score_counts_occurrences(wanted, titled);
    law_score_counts_occurrences(wanted, held);
    law_score_counts_occurrences(wanted, titled + held);
    law_scores_of_parts_sum(wanted, titled, held);
    law_search_finds_what_scores(s, query, top_k, budget, n);
    assert(note_score(query, n) == occurrences(wanted, titled).len() + occurrences(
        wanted,
        held,
    ).len());
    assert forall|a: int| 0 <= a < hits.len() && (#[trigger] hits[a]).note_id == n.id implies (
    share_a_word(wanted, titled) || share_a_word(wanted, held)) && hits[a].title == n.title
        && hits[a].score == note_score(query, n) by {
        let m = choose|m: NoteView|
            s.contains(m) && note_score(query, m) > 0 && #[trigger] hit_of(query, m) == hits[a];
        lemma_same_id(s, m, n);
    }
    if top_k is None && 60 * s.len() <= budget_of(budget) && (share_a_word(wanted, titled)
        || share_a_word(wanted, held)) {
        lemma_search_is_ample(s, query, budget);
        let a = choose|a: int| 0 <= a < hits.len() && hits[a] == hit_of(query, n);
        assert(hits[a].note_id == n.id);
    }
}

proof fn lemma_same_id(s: Seq<NoteView>, m: NoteView, n: NoteView)
    requires
        ids_ascend(s),
        s.contains(m),
        s.contains(n),
        m.id == n.id,
    ensures
        m == n,
{
    let a = choose|a: int| 0 <= a < s.len() && s[a] == m;
    let b = choose|b: int| 0 <= b < s.len() && s[b] == n;
    if a != b {
        lemma_before_asym(m.id, n.id);
    }
}

proof fn lemma_scoring_at(s: Seq<NoteView>, query: Seq<char>, i: int) -> (at: Seq<int>)
    requires
        0 <= i <= s.len(),
    ensures
        at.len() == scoring_from(s, query, i).len(),
        ascends(at),
        forall|a: int|
            0 <= a < at.len() ==> i <= #[trigger] at[a] < s.len() && scoring_from(s, query, i)[a]
                == s[at[a]],
    decreases s.len() - i,
{
    if i < s.len() {
        let rest = lemma_scoring_at(s, query, i + 1);
        if note_score(query, s[i]) > 0 {
            let at = seq![i] + rest;
            lemma_ascends_front(i, rest);
            assert forall|a: int| 0 <= a < at.len() implies i <= #[trigger] at[a] < s.len()
                && scoring_from(s, query, i)[a] == s[at[a]] by {
                if a > 0 {
                    assert(at[a] == rest[a - 1]);
                }
            }
            at
        } else {
            rest
        }
    } else {
        seq![]
    }
}

/// The order of the hits: the higher score first, and of equal ones the note whose
/// id comes first. No note is hit twice, and a hit names its note. `at` says which
/// note each hit is.
pub proof fn law_search_orders_by_score_then_id(
    s: Seq<NoteView>,
    query: Seq<char>,
    top_k: Option<usize>,
    budget: Option<usize>,
) -> (at: Seq<int>)
    ensures
        ({
            let hits = search_hits(s, query, top_k, budget);
            &&& at.len() == hits.len()
            &&& forall|a: int|
                0 <= a < at.len() ==> {
                    &&& 0 <= #[trigger] at[a] < s.len()
                    &&& hits[a].note_id == s[at[a]].id
                    &&& hits[a].title == s[at[a]].title
                    &&& hits[a].snippet.len() <= 4 * hits[a].token_count < hits[a].snippet.len() + 4
                }
            &&& forall|a: int, b: int|
                0 <= a < b < at.len() ==> (#[trigger] hits[a]).score > (
                #[trigger] hits[b]).score || hits[a].score == hits[b].score && at[a] < at[b]
        }),
{
    let found = scoring_from(s, query, 0);
    let from = lemma_scoring_at(s, query, 0);
    let scores = found.map_values(|n: NoteView| note_score(query, n));
    let order = stable_order(found.len(), by_score(scores));
    let ranked = ranked_notes(s, query);
    let top = first_of(ranked, top_k);
    let costs = hit_costs(query, top);
    let picked = fit(costs, budget_of(budget), 0, 0);
    let hits = search_hits(s, query, top_k, budget);
    law_rank_descends(scores);
    law_fit_keeps_budget(costs, budget_of(budget), 0, 0);
    let at = picked.map_values(|k: int| from[order[k]]);
    assert forall|a: int| 0 <= a < at.len() implies {
        &&& 0 <= #[trigger] at[a] < s.len()
        &&& hits[a] == hit_of(query, s[at[a]])
        &&& hits[a].score == scores[order[picked[a]]]
    } by {
        assert(top[picked[a]] == found[order[picked[a]]]);
        assert(0 <= from[order[picked[a]]] < s.len());
        assert(hits[a] == hit_of(query, top[picked[a]]));
    }
    assert forall|a: int, b: int| 0 <= a < b < at.len() implies ((#[trigger] hits[a]).score > (
    #[trigger] hits[b]).score || hits[a].score == hits[b].score && at[a] < at[b]) by {
        let less = by_score(scores);
        let x = picked[a];
        let y = picked[b];
        assert(x < y);
        assert(order[x] != order[y] && !less(order[y], order[x]) && (!less(order[x], order[y])
            ==> order[x] < order[y]));
        assert(at[a] == from[order[x]] && at[b] == from[order[y]]);
        if order[x] < order[y] {
            assert(from[order[x]] < from[order[y]]);
        }
    }
    at
}

/// A limit keeps the best: with a limit of `k` the hits are the first `k` of those
/// without one, where the budget holds a snippet of every note.
pub proof fn law_a_limit_keeps_the_best(
    s: Seq<NoteView>,
    query: Seq<char>,
    k: usize,
    budget: Option<usize>,
)
    requires
        60 * s.len() <= budget_of(budget),
    ensures
        ({
            let all = search_hits(s, query, None, budget);
            search_hits(s, query, Some(k), budget) == if k < all.len() {
                all.take(k as int)
            } else {
                all
            }
        }),
{
    let ranked = ranked_notes(s, query);
    let top = first_of(ranked, Some(k));
    let costs = hit_costs(query, ranked);
    let fewer = hit_costs(query, top);
    lemma_search_is_ample(s, query, budget);
    assert(costs.skip(0) =~= costs);
    assert(fewer.skip(0) =~= fewer);
    let n: int = fewer.len() as int;
    assert(costs.take(n) =~= fewer);
    lemma_total_prefix(costs, n);
    lemma_fit_all(costs, budget_of(budget), 0, 0);
    lemma_fit_all(fewer, budget_of(budget), 0, 0);
    let all = search_hits(s, query, None, budget);
    assert(first_of(ranked, None::<usize>) == ranked);
    assert(search_hits(s, query, Some(k), budget) =~= if k < all.len() {
        all.take(k as int)
    } else {
        all
    });
}

} // verus!

//! Suggesting the wikilinks that a note is missing: the candidates and what
//! speaks for each, and the order and budget of what is suggested. How alike
//! two texts are, and the blend of that with the other signals into a score,
//! is floating-point work: the caller rates each candidate.
use crate::error::{ErrorView, TacitusError};
use crate::lexical::{terms, tokenize};
use crate::memory::rank::{by_score, law_rank_descends, sort_by_score};
use crate::memory::recall::budget_of;
use crate::order::{
    ascends, fit, fits, has_position, law_fit_keeps_budget, lemma_all_fit, lemma_ascends_front,
    lemma_stable_order_has, lemma_stable_order_range, lemma_total_is_cost, positions, stable_order,
    total,
};
use crate::paths::{base_name, base_of};
use crate::text::{has_string, str_eq, texts};
use crate::tokens::{estimate, token_estimate};
use crate::vault::get::{missing_note, no_such_note};
use crate::vault::json::{JsonNumber, JsonNumberView};
use crate::vault::index::{
    backlinks_of, find, ids_ascend, law_links_lead_to_what_they_mean, lemma_find_from,
    lemma_find_is, outgoing_of, points_at, VaultIndex,
};
use crate::vault::search::{first_of, lemma_fit_len, make_snippet, snippet_of};
use crate::vault::types::{Note, NoteView};
use vstd::prelude::*;
use vstd::string::*;

verus! {

/// How many links are suggested where the caller does not say.
pub const DEFAULT_TOP_K: usize = 5;

/// The least length of a name that counts as mentioned.
pub const MENTION_MIN: usize = 3;

/// What bounds the suggestions.
pub struct SuggestArgs {
    pub top_k: Option<usize>,
    pub token_budget: Option<usize>,
}

impl Default for SuggestArgs {
    fn default() -> (r: Self)
        ensures
            r.top_k is None,
            r.token_budget is None,
    {
        SuggestArgs { top_k: None, token_budget: None }
    }
}

/// A note that could be linked, and what speaks for it.
#[derive(Debug)]
pub struct Candidate {
    /// Its position in the index.
    pub at: usize,
    /// The text whose likeness to the source's counts.
    pub text: String,
    pub mentioned: bool,
    pub shared_tags: usize,
    pub backlink: bool,
}

/// The candidates for a note, with the text of the note itself.
#[derive(Debug)]
pub struct Candidates {
    pub source_text: String,
    pub list: Vec<Candidate>,
}

/// How a candidate that is good enough was rated.
#[derive(Debug)]
pub struct Rating {
    /// Orders the candidates: the higher, the better.
    pub rank: u32,
    /// The score that the rank stands for, as callers are shown it.
    pub score: JsonNumber,
    /// Whether the two texts are alike.
    pub semantic: bool,
}

/// One suggested link.
#[derive(Debug)]
pub struct LinkSuggestion {
    pub note_id: String,
    pub title: String,
    pub rank: u32,
    pub score: JsonNumber,
    /// The signals that fired: "title_mentioned", "semantic", "shared_tags",
    /// "backlink".
    pub reasons: Vec<String>,
    pub snippet: String,
    pub token_count: usize,
}

/// The model of a suggested link.
#[verifier::ext_equal]
pub struct SuggestionView {
    pub note_id: Seq<char>,
    pub title: Seq<char>,
    pub rank: u32,
    pub score: JsonNumberView,
    pub reasons: Seq<Seq<char>>,
    pub snippet: Seq<char>,
    pub token_count: nat,
}

impl View for LinkSuggestion {
    type V = SuggestionView;

    open spec fn view(&self) -> SuggestionView {
        SuggestionView {
            note_id: self.note_id@,
            title: self.title@,
            rank: self.rank,
            score: self.score@,
            reasons: texts(self.reasons@),
            snippet: self.snippet@,
            token_count: self.token_count as nat,
        }
    }
}

pub open spec fn suggestions_view(v: Seq<LinkSuggestion>) -> Seq<SuggestionView> {
    v.map_values(|s: LinkSuggestion| s@)
}

// ---------------------------------------------------------------------------
// Signals
// ---------------------------------------------------------------------------

/// The length of the first `n` words together.
pub open spec fn words_len(ws: Seq<Seq<char>>, n: int) -> nat
    decreases n,
{
    if n <= 0 {
        0
    } else {
        words_len(ws, n - 1) + ws[n - 1].len()
    }
}

/// Whether `needle` stands at position `i` of `hay`.
pub open spec fn stands_at(hay: Seq<Seq<char>>, needle: Seq<Seq<char>>, i: int) -> bool {
    0 <= i && i + needle.len() <= hay.len() && hay.subrange(i, i + needle.len()) == needle
}

/// Whether the words of a name stand in a row among `hay`.
pub open spec fn names(hay: Seq<Seq<char>>, name: Seq<char>) -> bool {
    &&& words_len(terms(name), terms(name).len() as int) >= MENTION_MIN
    &&& exists|i: int| #[trigger] stands_at(hay, terms(name), i)
}

/// Whether a content mentions a note by its title or by the last part of its id.
pub open spec fn mentioned(content: Seq<char>, n: NoteView) -> bool {
    names(terms(content), n.title) || names(terms(content), base_name(n.id))
}

/// How many of the first `n` tags are among `others`.
pub open spec fn shared(tags: Seq<Seq<char>>, others: Seq<Seq<char>>, n: int) -> nat
    decreases n,
{
    if n <= 0 {
        0
    } else {
        shared(tags, others, n - 1) + if others.contains(tags[n - 1]) {
            1nat
        } else {
            0
        }
    }
}

/// The text of a note whose likeness counts.
pub open spec fn likeness_text(n: NoteView) -> Seq<char> {
    n.title + " "@ + n.content
}

/// The positions from `i` on of the notes that the note `id` could link to:
/// not the note itself, and none that it links to already.
pub open spec fn candidates_from(s: Seq<NoteView>, id: Seq<char>, i: int) -> Seq<int>
    decreases s.len() - i,
{
    if i < 0 || i >= s.len() {
        seq![]
    } else if s[i].id != id && !outgoing_of(s, id).contains(i) {
        seq![i] + candidates_from(s, id, i + 1)
    } else {
        candidates_from(s, id, i + 1)
    }
}

/// What is known of the candidate at position `p`, for the note at `src`.
pub open spec fn is_candidate(c: Candidate, s: Seq<NoteView>, src: int, p: int) -> bool {
    &&& c.at == p
    &&& c.text@ == likeness_text(s[p])
    &&& c.mentioned == mentioned(s[src].content, s[p])
    &&& c.shared_tags == shared(s[p].tags, s[src].tags, s[p].tags.len() as int)
    &&& c.backlink == backlinks_of(s, s[src].id).contains(p)
}

fn long_enough(ws: &Vec<String>) -> (r: bool)
    ensures
        r == (words_len(texts(ws@), ws@.len() as int) >= MENTION_MIN),
{
    let ghost all = texts(ws@);
    let mut sum: usize = 0;
    let mut i: usize = 0;
    while i < ws.len()
        invariant
            i <= ws@.len(),
            all == texts(ws@),
            sum == words_len(all, i as int),
            sum < MENTION_MIN,
        decreases ws@.len() - i,
    {
        let n: usize = ws[i].as_str().unicode_len();
        assert(all[i as int] == ws@[i as int]@);
        if n >= MENTION_MIN - sum {
            proof {
                lemma_words_len_grows(all, i + 1, all.len() as int);
            }
            return true;
        }
        sum = sum + n;
        i = i + 1;
    }
    false
}

proof fn lemma_words_len_grows(ws: Seq<Seq<char>>, n: int, m: int)
    requires
        0 <= n <= m,
    ensures
        words_len(ws, n) <= words_len(ws, m),
    decreases m - n,
{
    if n < m {
        lemma_words_len_grows(ws, n, m - 1);
    }
}

fn stands(hay: &Vec<String>, needle: &Vec<String>, i: usize) -> (r: bool)
    requires
        i + needle@.len() <= hay@.len(),
    ensures
        r == stands_at(texts(hay@), texts(needle@), i as int),
{
    let ghost h = texts(hay@);
    let ghost w = texts(needle@);
    let n: usize = needle.len();
    let m: usize = hay.len();
    let mut k: usize = 0;
    while k < n
        invariant
            k <= n,
            n == needle@.len(),
            m == hay@.len(),
            i + n <= m,
            h == texts(hay@),
            w == texts(needle@),
            forall|j: int| 0 <= j < k ==> #[trigger] w[j] == h[i + j],
        decreases n - k,
    {
        assert(h[i + k] == hay@[i + k]@);
        assert(w[k as int] == needle@[k as int]@);
        if !str_eq(hay[i + k].as_str(), needle[k].as_str()) {
            assert(h.subrange(i as int, i + n)[k as int] != w[k as int]);
            return false;
        }
        k = k + 1;
    }
    assert(h.subrange(i as int, i + n) =~= w);
    true
}

fn names_among(hay: &Vec<String>, name: &str) -> (r: bool)
    ensures
        r == names(texts(hay@), name@),
{
    let needle = tokenize(name);
    if !long_enough(&needle) {
        return false;
    }
    let n: usize = hay.len();
    let m: usize = needle.len();
    if m > n {
        assert(forall|j: int| !stands_at(texts(hay@), terms(name@), j));
        return false;
    }
    let mut i: usize = 0;
    while i <= n - m
        invariant
            m <= n,
            n == hay@.len(),
            m == needle@.len(),
            i <= n - m + 1,
            texts(needle@) == terms(name@),
            words_len(terms(name@), terms(name@).len() as int) >= MENTION_MIN,
            forall|j: int| 0 <= j < i ==> !#[trigger] stands_at(texts(hay@), terms(name@), j),
        decreases n - m + 1 - i,
    {
        if stands(hay, &needle, i) {
            return true;
        }
        if i == n - m {
            assert(forall|j: int| !stands_at(texts(hay@), terms(name@), j));
            return false;
        }
        i = i + 1;
    }
    false
}

/// Whether the title of a note, or the last part of its id, stands word for
/// word among the words of a source: "Art" is not found inside "start", and
/// case and punctuation do not matter.
pub fn mentions(source_words: &Vec<String>, title: &str, basename: &str) -> (r: bool)
    ensures
        r == (names(texts(source_words@), title@) || names(texts(source_words@), basename@)),
{
    names_among(source_words, title) || names_among(source_words, basename)
}

fn count_shared(tags: &Vec<String>, others: &Vec<String>) -> (r: usize)
    ensures
        r == shared(texts(tags@), texts(others@), tags@.len() as int),
{
    let mut n: usize = 0;
    let mut i: usize = 0;
    while i < tags.len()
        invariant
            i <= tags@.len(),
            n <= i,
            n == shared(texts(tags@), texts(others@), i as int),
        decreases tags@.len() - i,
    {
        assert(texts(tags@)[i as int] == tags@[i as int]@);
        if has_string(others, tags[i].as_str()) {
            n = n + 1;
        }
        i = i + 1;
    }
    n
}

fn text_of(n: &Note) -> (r: String)
    ensures
        r@ == likeness_text(n@),
{
    let mut t = n.title.clone();
    t.append(" ");
    t.append(n.content.as_str());
    t
}

/// The error for a source that does not exist.
pub open spec fn no_source(id: Seq<char>) -> ErrorView {
    no_such_note(id, "Use list_notes to discover valid note ids."@)
}

/// The notes that a note could link to, with the texts to compare and the
/// signals that need no comparison.
pub fn suggest_candidates(index: &VaultIndex, note_id: &str) -> (r: Result<
    Candidates,
    TacitusError,
>)
    ensures
        match find(index@, note_id@) {
            None => r matches Err(e) && e@ == no_source(note_id@),
            Some(src) => r matches Ok(c) && ({
                let cs = candidates_from(index@, note_id@, 0);
                &&& c.source_text@ == likeness_text(index@[src])
                &&& c.list@.len() == cs.len()
                &&& forall|k: int|
                    0 <= k < cs.len() ==> is_candidate(#[trigger] c.list@[k], index@, src, cs[k])
            }),
        },
{
    let ghost s = index@;
    let ghost id = note_id@;
    let src: usize = match index.position(note_id) {
        Some(i) => i,
        None => {
            return Err(missing_note(note_id, "Use list_notes to discover valid note ids."));
        },
    };
    proof {
        lemma_find_from(s, id, 0);
    }
    let source = index.at(src);
    let source_words = tokenize(source.content.as_str());
    let linked = index.outgoing_positions(note_id);
    let backlinkers = index.backlink_positions(note_id);
    let mut list: Vec<Candidate> = Vec::new();
    let ghost mut picked: Seq<int> = seq![];
    let n: usize = index.len();
    let mut i: usize = 0;
    while i < n
        invariant
            i <= n,
            n == s.len(),
            s == index@,
            id == note_id@,
            src < n,
            source@ == s[src as int],
            s[src as int].id == id,
            texts(source_words@) == terms(source@.content),
            positions(linked@) == outgoing_of(s, id),
            positions(backlinkers@) == backlinks_of(s, id),
            candidates_from(s, id, 0) == picked + candidates_from(s, id, i as int),
            list@.len() == picked.len(),
            forall|k: int|
                0 <= k < picked.len() ==> is_candidate(
                    #[trigger] list@[k],
                    s,
                    src as int,
                    picked[k],
                ),
        decreases n - i,
    {
        let note = index.at(i);
        if !str_eq(note.id.as_str(), note_id) && !has_position(&linked, i) {
            let base = base_of(note.id.as_str());
            let c = Candidate {
                at: i,
                text: text_of(note),
                mentioned: mentions(&source_words, note.title.as_str(), base.as_str()),
                shared_tags: count_shared(&note.tags, &source.tags),
                backlink: has_position(&backlinkers, i),
            };
            assert(is_candidate(c, s, src as int, i as int));
            list.push(c);
            proof {
                let prev = picked;
                picked = picked.push(i as int);
                assert(prev + (seq![i as int] + candidates_from(s, id, i + 1)) =~= picked
                    + candidates_from(s, id, i + 1));
            }
        }
        i = i + 1;
    }
    assert(picked + candidates_from(s, id, i as int) =~= picked);
    Ok(Candidates { source_text: text_of(source), list })
}

// ---------------------------------------------------------------------------
// Suggestions
// ---------------------------------------------------------------------------

/// The candidates from `k` on that were rated.
pub open spec fn rated_from(ratings: Seq<Option<Rating>>, n: int, k: int) -> Seq<int>
    decreases n - k,
{
    if k < 0 || k >= n {
        seq![]
    } else if k < ratings.len() && ratings[k] is Some {
        seq![k] + rated_from(ratings, n, k + 1)
    } else {
        rated_from(ratings, n, k + 1)
    }
}

/// The rated candidates, best first, ties in the order of ids.
pub open spec fn ranked_candidates(ratings: Seq<Option<Rating>>, n: int) -> Seq<int> {
    let kept = rated_from(ratings, n, 0);
    let ranks = kept.map_values(|k: int| ratings[k]->0.rank);
    stable_order(kept.len(), by_score(ranks)).map_values(|j: int| kept[j])
}

/// The reasons for a link, in the order of their weight.
pub open spec fn reasons_for(
    by_mention: bool,
    semantic: bool,
    by_tags: bool,
    backlink: bool,
) -> Seq<Seq<char>> {
    (if by_mention {
        seq!["title_mentioned"@]
    } else {
        seq![]
    }) + (if semantic {
        seq!["semantic"@]
    } else {
        seq![]
    }) + (if by_tags {
        seq!["shared_tags"@]
    } else {
        seq![]
    }) + (if backlink {
        seq!["backlink"@]
    } else {
        seq![]
    })
}

/// The snippet of a suggestion: where the source mentions the note, or else
/// what the note says of the source.
pub open spec fn suggestion_snippet(source: NoteView, n: NoteView) -> Seq<char> {
    if mentioned(source.content, n) {
        snippet_of(n.title, source.content)
    } else {
        snippet_of(source.title, n.content)
    }
}

/// The suggestion that a candidate makes.
pub open spec fn suggestion_of(
    s: Seq<NoteView>,
    src: int,
    p: int,
    rating: Rating,
) -> SuggestionView {
    let snippet = suggestion_snippet(s[src], s[p]);
    SuggestionView {
        note_id: s[p].id,
        title: s[p].title,
        rank: rating.rank,
        score: rating.score@,
        reasons: reasons_for(
            mentioned(s[src].content, s[p]),
            rating.semantic,
            shared(s[p].tags, s[src].tags, s[p].tags.len() as int) > 0,
            backlinks_of(s, s[src].id).contains(p),
        ),
        snippet,
        token_count: token_estimate(snippet),
    }
}

/// How many suggestions are wanted.
pub open spec fn wanted_links(top_k: Option<usize>) -> usize {
    match top_k {
        Some(k) => k,
        None => DEFAULT_TOP_K,
    }
}

/// The suggestions in order, before the budget is laid against them.
pub open spec fn top_suggestions(
    s: Seq<NoteView>,
    src: int,
    ratings: Seq<Option<Rating>>,
    top_k: Option<usize>,
) -> Seq<SuggestionView> {
    let cs = candidates_from(s, s[src].id, 0);
    first_of(ranked_candidates(ratings, cs.len() as int), Some(wanted_links(top_k))).map_values(
        |k: int| suggestion_of(s, src, cs[k], ratings[k]->0),
    )
}

/// The token costs of suggestions.
pub open spec fn suggestion_costs(v: Seq<SuggestionView>) -> Seq<nat> {
    v.map_values(|x: SuggestionView| x.token_count)
}

/// The suggestions for the note at position `src`.
pub open spec fn suggestions(
    s: Seq<NoteView>,
    src: int,
    ratings: Seq<Option<Rating>>,
    top_k: Option<usize>,
    budget: Option<usize>,
) -> Seq<SuggestionView> {
    let top = top_suggestions(s, src, ratings, top_k);
    fit(suggestion_costs(top), budget_of(budget), 0, 0).map_values(|p: int| top[p])
}

fn reasons_of(c: &Candidate, semantic: bool) -> (r: Vec<String>)
    ensures
        texts(r@) == reasons_for(c.mentioned, semantic, c.shared_tags > 0, c.backlink),
{
    let mut out: Vec<String> = Vec::new();
    if c.mentioned {
        out.push("title_mentioned".to_owned());
    }
    if semantic {
        out.push("semantic".to_owned());
    }
    if c.shared_tags > 0 {
        out.push("shared_tags".to_owned());
    }
    if c.backlink {
        out.push("backlink".to_owned());
    }
    assert(texts(out@) =~= reasons_for(c.mentioned, semantic, c.shared_tags > 0, c.backlink));
    out
}

fn make_suggestion(source: &Note, note: &Note, c: &Candidate, rating: &Rating) -> (r: LinkSuggestion)
    requires
        c.mentioned == mentioned(source@.content, note@),
    ensures
        r@.note_id == note@.id,
        r@.title == note@.title,
        r@.rank == rating.rank,
        r@.score == rating.score@,
        r@.reasons == reasons_for(c.mentioned, rating.semantic, c.shared_tags > 0, c.backlink),
        r@.snippet == suggestion_snippet(source@, note@),
        r@.token_count == token_estimate(r@.snippet),
{
    let snippet = if c.mentioned {
        make_snippet(note.title.as_str(), source.content.as_str())
    } else {
        make_snippet(source.title.as_str(), note.content.as_str())
    };
    let token_count: usize = estimate(snippet.as_str());
    LinkSuggestion {
        note_id: note.id.clone(),
        title: note.title.clone(),
        rank: rating.rank,
        score: rating.score.copy(),
        reasons: reasons_of(c, rating.semantic),
        snippet,
        token_count,
    }
}

/// Suggests the wikilinks that a note is missing: the rated candidates, best
/// first, at most as many as wanted, under a token budget. The ratings stand in
/// the order of the candidates; one without a rating is not suggested.
pub fn suggest_links(
    index: &VaultIndex,
    note_id: &str,
    ratings: &Vec<Option<Rating>>,
    args: &SuggestArgs,
) -> (r: Result<Vec<LinkSuggestion>, TacitusError>)
    ensures
        match find(index@, note_id@) {
            None => r matches Err(e) && e@ == no_source(note_id@),
            Some(src) => r matches Ok(v) && suggestions_view(v@) == suggestions(
                index@,
                src,
                ratings@,
                args.top_k,
                args.token_budget,
            ),
        },
{
    let ghost s = index@;
    let cands = match suggest_candidates(index, note_id) {
        Ok(c) => c,
        Err(e) => {
            return Err(e);
        },
    };
    let src: usize = match index.position(note_id) {
        Some(i) => i,
        None => {
            return Err(missing_note(note_id, "Use list_notes to discover valid note ids."));
        },
    };
    proof {
        lemma_find_from(s, note_id@, 0);
        lemma_candidates(s, note_id@, 0);
    }
    let source = index.at(src);
    let ghost cs = candidates_from(s, note_id@, 0);
    let n: usize = cands.list.len();
    let mut kept: Vec<usize> = Vec::new();
    let mut ranks: Vec<u32> = Vec::new();
    let mut k: usize = 0;
    assert(positions(kept@) =~= seq![]);
    while k < n
        invariant
            k <= n,
            kept@.len() == ranks@.len(),
            rated_from(ratings@, n as int, 0) == positions(kept@) + rated_from(
                ratings@,
                n as int,
                k as int,
            ),
            ranks@ == positions(kept@).map_values(|j: int| ratings@[j]->0.rank),
            forall|j: int|
                0 <= j < kept@.len() ==> #[trigger] kept@[j] < n && kept@[j] < ratings@.len()
                    && ratings@[kept@[j] as int] is Some,
        decreases n - k,
    {
        if k < ratings.len() {
            match &ratings[k] {
                Some(x) => {
                    let ghost prev = positions(kept@);
                    kept.push(k);
                    ranks.push(x.rank);
                    assert(positions(kept@) =~= prev.push(k as int));
                    assert(ranks@ =~= positions(kept@).map_values(|j: int| ratings@[j]->0.rank));
                    assert(prev + (seq![k as int] + rated_from(ratings@, n as int, k + 1))
                        =~= positions(kept@) + rated_from(ratings@, n as int, k + 1));
                },
                None => {},
            }
        }
        k = k + 1;
    }
    assert(positions(kept@) + rated_from(ratings@, n as int, k as int) =~= positions(kept@));
    let ghost rated = positions(kept@);
    let order = sort_by_score(&ranks);
    proof {
        lemma_stable_order_range(rated.len(), by_score(ranks@));
    }
    let ghost ranked = ranked_candidates(ratings@, n as int);
    let want: usize = match args.top_k {
        Some(w) => w,
        None => DEFAULT_TOP_K,
    };
    let keep: usize = if want < order.len() {
        want
    } else {
        order.len()
    };
    let ghost top = top_suggestions(s, src as int, ratings@, args.top_k);
    let ghost firsts = first_of(ranked, Some(want));
    assert(firsts =~= ranked.take(keep as int));
    let budget: usize = match args.token_budget {
        Some(b) => b,
        None => usize::MAX,
    };
    let ghost costs = suggestion_costs(top);
    let ghost chosen = fit(costs, budget as nat, 0, 0);
    let ghost mut picked: Seq<int> = seq![];
    let mut out: Vec<LinkSuggestion> = Vec::new();
    let mut used: usize = 0;
    let mut i: usize = 0;
    assert(suggestions_view(out@) =~= seq![]);
    while i < keep
        invariant
            i <= keep <= order@.len(),
            used <= budget,
            s == index@,
            src < s.len(),
            s[src as int].id == note_id@,
            source@ == s[src as int],
            cs == candidates_from(s, note_id@, 0),
            n == cs.len(),
            cands.list@.len() == n,
            forall|j: int| 0 <= j < cs.len() ==> 0 <= #[trigger] cs[j] < s.len(),
            forall|j: int|
                0 <= j < cs.len() ==> is_candidate(
                    #[trigger] cands.list@[j],
                    s,
                    src as int,
                    cs[j],
                ),
            rated == positions(kept@),
            kept@.len() == ranks@.len(),
            rated == rated_from(ratings@, n as int, 0),
            ranks@ == rated.map_values(|j: int| ratings@[j]->0.rank),
            forall|j: int|
                0 <= j < kept@.len() ==> #[trigger] kept@[j] < n && kept@[j] < ratings@.len()
                    && ratings@[kept@[j] as int] is Some,
            order@.len() == rated.len(),
            positions(order@) == stable_order(rated.len(), by_score(ranks@)),
            forall|a: int| 0 <= a < order@.len() ==> #[trigger] order@[a] < rated.len(),
            ranked == stable_order(rated.len(), by_score(ranks@)).map_values(|j: int| rated[j]),
            firsts == ranked.take(keep as int),
            top == firsts.map_values(
                |j: int| suggestion_of(s, src as int, cs[j], ratings@[j]->0),
            ),
            costs == suggestion_costs(top),
            chosen == fit(costs, budget as nat, 0, 0),
            chosen == picked + fit(costs, budget as nat, used as nat, i as int),
            suggestions_view(out@) == picked.map_values(|p: int| top[p]),
        decreases keep - i,
    {
        let at: usize = kept[order[i]];
        assert(positions(order@)[i as int] == order@[i as int] as int);
        assert(rated[order@[i as int] as int] == at as int);
        assert(firsts[i as int] == at as int);
        let c = &cands.list[at];
        assert(is_candidate(cands.list@[at as int], s, src as int, cs[at as int]));
        assert(0 <= cs[at as int] < s.len());
        let note = index.at(c.at);
        match &ratings[at] {
            Some(x) => {
                let x: &Rating = x;
                let made = make_suggestion(source, note, c, x);
                assert(made@ =~= suggestion_of(s, src as int, cs[at as int], ratings@[at as int]->0));
                assert(made@ == top[i as int]);
                let cost: usize = made.token_count;
                assert(costs[i as int] == cost);
                if fits(used, cost, budget) {
                    let ghost prev = suggestions_view(out@);
                    let ghost was = picked;
                    out.push(made);
                    proof {
                        picked = picked.push(i as int);
                        assert(suggestions_view(out@) =~= prev.push(top[i as int]));
                        assert(suggestions_view(out@) =~= picked.map_values(|p: int| top[p]));
                        let rest = fit(costs, budget as nat, (used + cost) as nat, i + 1);
                        assert(was + (seq![i as int] + rest) =~= picked + rest);
                    }
                    used = used + cost;
                }
            },
            None => {},
        }
        i = i + 1;
    }
    assert(picked + fit(costs, budget as nat, used as nat, i as int) =~= picked);
    Ok(out)
}

/// Candidates are notes of the vault, other than the source and than those
/// that it links to.
proof fn lemma_candidates(s: Seq<NoteView>, id: Seq<char>, i: int)
    requires
        0 <= i,
    ensures
        forall|k: int|
            0 <= k < candidates_from(s, id, i).len() ==> i <= #[trigger] candidates_from(
                s,
                id,
                i,
            )[k] < s.len() && s[candidates_from(s, id, i)[k]].id != id && !outgoing_of(
                s,
                id,
            ).contains(candidates_from(s, id, i)[k]),
    decreases s.len() - i,
{
    if i < s.len() {
        lemma_candidates(s, id, i + 1);
        let all = candidates_from(s, id, i);
        let rest = candidates_from(s, id, i + 1);
        assert forall|k: int| 0 <= k < all.len() implies i <= #[trigger] all[k] < s.len()
            && s[all[k]].id != id && !outgoing_of(s, id).contains(all[k]) by {
            if s[i].id != id && !outgoing_of(s, id).contains(i) {
                if k > 0 {
                    assert(all[k] == rest[k - 1]);
                }
            } else {
                assert(all == rest);
            }
        }
    }
}

proof fn lemma_rated(ratings: Seq<Option<Rating>>, n: int, i: int)
    requires
        0 <= i,
    ensures
        forall|k: int|
            0 <= k < rated_from(ratings, n, i).len() ==> i <= #[trigger] rated_from(
                ratings,
                n,
                i,
            )[k] < n,
    decreases n - i,
{
    if i < n {
        lemma_rated(ratings, n, i + 1);
        let all = rated_from(ratings, n, i);
        let rest = rated_from(ratings, n, i + 1);
        assert forall|k: int| 0 <= k < all.len() implies i <= #[trigger] all[k] < n by {
            if i < ratings.len() && ratings[i] is Some {
                if k > 0 {
                    assert(all[k] == rest[k - 1]);
                }
            } else {
                assert(all == rest);
            }
        }
    }
}

/// Suggestions never exceed the token budget nor the number wanted, come best
/// first, and name neither the source itself nor a note that it links to
/// already.
pub proof fn law_suggestions_are_bounded_and_new(
    s: Seq<NoteView>,
    src: int,
    ratings: Seq<Option<Rating>>,
    top_k: Option<usize>,
    budget: Option<usize>,
)
    requires
        ids_ascend(s),
        0 <= src < s.len(),
    ensures
        ({
            let v = suggestions(s, src, ratings, top_k, budget);
            &&& total(suggestion_costs(v)) <= budget_of(budget)
            &&& v.len() <= wanted_links(top_k)
            &&& forall|a: int, b: int|
                0 <= a < b < v.len() ==> (#[trigger] v[a]).rank >= (#[trigger] v[b]).rank
            &&& forall|a: int|
                0 <= a < v.len() ==> (#[trigger] v[a]).note_id != s[src].id && find(s, v[a].note_id)
                    is Some && !outgoing_of(s, s[src].id).contains(find(s, v[a].note_id)->0)
        }),
{
    let id = s[src].id;
    let cs = candidates_from(s, id, 0);
    let n = cs.len() as int;
    let kept = rated_from(ratings, n, 0);
    let ranks = kept.map_values(|k: int| ratings[k]->0.rank);
    let order = stable_order(kept.len(), by_score(ranks));
    let ranked = ranked_candidates(ratings, n);
    let firsts = first_of(ranked, Some(wanted_links(top_k)));
    let top = top_suggestions(s, src, ratings, top_k);
    let costs = suggestion_costs(top);
    let picked = fit(costs, budget_of(budget), 0, 0);
    let v = suggestions(s, src, ratings, top_k, budget);
    law_rank_descends(ranks);
    law_fit_keeps_budget(costs, budget_of(budget), 0, 0);
    lemma_fit_len(costs, budget_of(budget), 0, 0);
    lemma_total_is_cost(costs, picked);
    lemma_stable_order_range(kept.len(), by_score(ranks));
    lemma_candidates(s, id, 0);
    lemma_rated(ratings, n, 0);
    assert(suggestion_costs(v) =~= picked.map_values(|k: int| costs[k]));
    assert forall|a: int, b: int| 0 <= a < b < v.len() implies (#[trigger] v[a]).rank >= (
    #[trigger] v[b]).rank by {
        assert(picked[a] < picked[b]);
        assert(firsts[picked[a]] == kept[order[picked[a]]]);
        assert(firsts[picked[b]] == kept[order[picked[b]]]);
        assert(ranks[order[picked[a]]] >= ranks[order[picked[b]]]);
    }
    assert forall|a: int| 0 <= a < v.len() implies (#[trigger] v[a]).note_id != id && find(
        s,
        v[a].note_id,
    ) is Some && !outgoing_of(s, id).contains(find(s, v[a].note_id)->0) by {
        let j = order[picked[a]];
        assert(firsts[picked[a]] == kept[j]);
        let p = cs[kept[j]];
        assert(v[a].note_id == s[p].id);
        lemma_find_is(s, p);
    }
}

proof fn lemma_shared_tag(tags: Seq<Seq<char>>, others: Seq<Seq<char>>, n: int)
    requires
        0 <= n <= tags.len(),
    ensures
        shared(tags, others, n) > 0 <==> exists|i: int, j: int|
            0 <= i < n && 0 <= j < others.len() && #[trigger] tags[i] == #[trigger] others[j],
    decreases n,
{
    if n > 0 {
        lemma_shared_tag(tags, others, n - 1);
        if others.contains(tags[n - 1]) {
            let j = choose|j: int| 0 <= j < others.len() && others[j] == tags[n - 1];
            assert(tags[n - 1] == others[j]);
        }
        if exists|i: int, j: int|
            0 <= i < n && 0 <= j < others.len() && #[trigger] tags[i] == #[trigger] others[j] {
            let (i, j) = choose|i: int, j: int|
                0 <= i < n && 0 <= j < others.len() && #[trigger] tags[i] == #[trigger] others[j];
            if i == n - 1 {
                assert(others.contains(tags[n - 1]));
            } else {
                assert(tags[i] == others[j]);
            }
        }
    }
}

proof fn lemma_candidates_ascend(s: Seq<NoteView>, id: Seq<char>, i: int)
    requires
        0 <= i,
    ensures
        ascends(candidates_from(s, id, i)),
        forall|a: int|
            0 <= a < candidates_from(s, id, i).len() ==> i <= #[trigger] candidates_from(s, id, i)[a],
        forall|p: int|
            i <= p < s.len() && (#[trigger] s[p]).id != id && !outgoing_of(s, id).contains(p)
                ==> candidates_from(s, id, i).contains(p),
    decreases s.len() - i,
{
    if i < s.len() {
        lemma_candidates_ascend(s, id, i + 1);
        let rest = candidates_from(s, id, i + 1);
        let all = candidates_from(s, id, i);
        if s[i].id != id && !outgoing_of(s, id).contains(i) {
            lemma_ascends_front(i, rest);
            assert forall|a: int| 0 <= a < all.len() implies i <= #[trigger] all[a] by {
                if a > 0 {
                    assert(all[a] == rest[a - 1]);
                }
            }
            assert forall|p: int|
                i <= p < s.len() && (#[trigger] s[p]).id != id && !outgoing_of(s, id).contains(
                    p,
                ) implies all.contains(p) by {
                if p == i {
                    assert(all[0] == p);
                } else {
                    assert(rest.contains(p));
                    let a = choose|a: int| 0 <= a < rest.len() && rest[a] == p;
                    assert(all[a + 1] == p);
                }
            }
        }
    }
}

/// The candidates for a link from a note are the other notes that none of its links
/// means, in the order of ids.
pub proof fn law_candidates_are_the_unlinked_others(s: Seq<NoteView>, src: int, p: int)
    requires
        ids_ascend(s),
        0 <= src < s.len(),
    ensures
        ascends(candidates_from(s, s[src].id, 0)),
        candidates_from(s, s[src].id, 0).contains(p) <==> 0 <= p < s.len() && p != src
            && !points_at(s, src, p),
{
    let cs = candidates_from(s, s[src].id, 0);
    lemma_candidates(s, s[src].id, 0);
    lemma_candidates_ascend(s, s[src].id, 0);
    law_links_lead_to_what_they_mean(s, src, p);
    lemma_find_is(s, src);
    if 0 <= p < s.len() {
        lemma_find_is(s, p);
    }
    if cs.contains(p) {
        let a = choose|a: int| 0 <= a < cs.len() && cs[a] == p;
        assert(0 <= cs[a] < s.len());
    }
}

/// Which rated candidates are suggested, and in which order: `at` says which of the
/// candidates each suggestion is. The higher rank comes first, and of equal ones the
/// note whose id does. No candidate comes twice.
pub proof fn law_suggestions_come_by_rank_then_id(
    s: Seq<NoteView>,
    src: int,
    ratings: Seq<Option<Rating>>,
    top_k: Option<usize>,
    budget: Option<usize>,
) -> (at: Seq<int>)
    requires
        0 <= src < s.len(),
    ensures
        ({
            let cs = candidates_from(s, s[src].id, 0);
            let v = suggestions(s, src, ratings, top_k, budget);
            &&& at.len() == v.len()
            &&& forall|a: int|
                0 <= a < at.len() ==> {
                    &&& 0 <= #[trigger] at[a] < cs.len()
                    &&& at[a] < ratings.len()
                    &&& ratings[at[a]] is Some
                    &&& v[a].note_id == s[cs[at[a]]].id
                    &&& v[a].title == s[cs[at[a]]].title
                    &&& v[a].rank == ratings[at[a]]->0.rank
                    &&& v[a].score == ratings[at[a]]->0.score@
                    &&& v[a] == suggestion_of(s, src, cs[at[a]], ratings[at[a]]->0)
                }
            &&& forall|a: int, b: int|
                0 <= a < b < at.len() ==> (#[trigger] v[a]).rank > (#[trigger] v[b]).rank
                    || v[a].rank == v[b].rank && at[a] < at[b]
        }),
{
    let cs = candidates_from(s, s[src].id, 0);
    let n = cs.len() as int;
    let kept = rated_from(ratings, n, 0);
    let ranks = kept.map_values(|k: int| ratings[k]->0.rank);
    let order = stable_order(kept.len(), by_score(ranks));
    let ranked = ranked_candidates(ratings, n);
    let firsts = first_of(ranked, Some(wanted_links(top_k)));
    let top = top_suggestions(s, src, ratings, top_k);
    let costs = suggestion_costs(top);
    let picked = fit(costs, budget_of(budget), 0, 0);
    let v = suggestions(s, src, ratings, top_k, budget);
    law_rank_descends(ranks);
    law_fit_keeps_budget(costs, budget_of(budget), 0, 0);
    lemma_stable_order_range(kept.len(), by_score(ranks));
    lemma_rated(ratings, n, 0);
    lemma_rated_ascend(ratings, n, 0);
    let at = picked.map_values(|k: int| kept[order[k]]);
    assert forall|a: int| 0 <= a < at.len() implies {
        &&& 0 <= #[trigger] at[a] < cs.len()
        &&& at[a] < ratings.len()
        &&& ratings[at[a]] is Some
        &&& v[a] == suggestion_of(s, src, cs[at[a]], ratings[at[a]]->0)
        &&& v[a].rank == ranks[order[picked[a]]]
    } by {
        let j = order[picked[a]];
        assert(firsts[picked[a]] == kept[j]);
        assert(v[a] == top[picked[a]]);
    }
    assert forall|a: int, b: int| 0 <= a < b < at.len() implies ((#[trigger] v[a]).rank > (
    #[trigger] v[b]).rank || v[a].rank == v[b].rank && at[a] < at[b]) by {
        let less = by_score(ranks);
        let x = order[picked[a]];
        let y = order[picked[b]];
        assert(picked[a] < picked[b]);
        assert(x != y && !less(y, x) && (!less(x, y) ==> x < y));
        assert(at[a] == kept[x] && at[b] == kept[y]);
        if x < y {
            assert(kept[x] < kept[y]);
        }
    }
    at
}

proof fn lemma_rated_ascend(ratings: Seq<Option<Rating>>, n: int, i: int)
    requires
        0 <= i,
    ensures
        ascends(rated_from(ratings, n, i)),
        forall|a: int|
            0 <= a < rated_from(ratings, n, i).len() ==> i <= #[trigger] rated_from(ratings, n, i)[a]
                < ratings.len() && ratings[rated_from(ratings, n, i)[a]] is Some,
        forall|k: int|
            i <= k < n && k < ratings.len() && (#[trigger] ratings[k]) is Some ==> rated_from(
                ratings,
                n,
                i,
            ).contains(k),
    decreases n - i,
{
    if i < n {
        lemma_rated_ascend(ratings, n, i + 1);
        let rest = rated_from(ratings, n, i + 1);
        let all = rated_from(ratings, n, i);
        if i < ratings.len() && ratings[i] is Some {
            lemma_ascends_front(i, rest);
            assert forall|a: int| 0 <= a < all.len() implies i <= #[trigger] all[a] < ratings.len()
                && ratings[all[a]] is Some by {
                if a > 0 {
                    assert(all[a] == rest[a - 1]);
                }
            }
            assert forall|k: int|
                i <= k < n && k < ratings.len() && (#[trigger] ratings[k])
                    is Some implies all.contains(k) by {
                if k == i {
                    assert(all[0] == k);
                } else {
                    assert(rest.contains(k));
                    let a = choose|a: int| 0 <= a < rest.len() && rest[a] == k;
                    assert(all[a + 1] == k);
                }
            }
        }
    }
}

/// Every rated candidate is suggested where as many are wanted and the budget holds
/// them.
pub proof fn law_rated_candidates_are_suggested(
    s: Seq<NoteView>,
    src: int,
    ratings: Seq<Option<Rating>>,
    top_k: Option<usize>,
    budget: Option<usize>,
    k: int,
)
    requires
        0 <= src < s.len(),
        0 <= k < candidates_from(s, s[src].id, 0).len(),
        k < ratings.len(),
        ratings[k] is Some,
        rated_from(ratings, candidates_from(s, s[src].id, 0).len() as int, 0).len() <= match top_k {
            Some(n) => n as int,
            None => 5,
        },
        total(suggestion_costs(top_suggestions(s, src, ratings, top_k))) <= budget_of(budget),
    ensures
        suggestions(s, src, ratings, top_k, budget).contains(
            suggestion_of(s, src, candidates_from(s, s[src].id, 0)[k], ratings[k]->0),
        ),
{
    let cs = candidates_from(s, s[src].id, 0);
    let n = cs.len() as int;
    let kept = rated_from(ratings, n, 0);
    let ranks = kept.map_values(|k: int| ratings[k]->0.rank);
    let less = by_score(ranks);
    let order = stable_order(kept.len(), less);
    let ranked = ranked_candidates(ratings, n);
    let top = top_suggestions(s, src, ratings, top_k);
    let costs = suggestion_costs(top);
    let picked = fit(costs, budget_of(budget), 0, 0);
    let v = suggestions(s, src, ratings, top_k, budget);
    lemma_rated_ascend(ratings, n, 0);
    lemma_stable_order_range(kept.len(), less);
    assert(first_of(ranked, Some(wanted_links(top_k))) =~= ranked);
    let j = choose|j: int| 0 <= j < kept.len() && kept[j] == k;
    lemma_stable_order_has(kept.len(), less, j);
    let a = choose|a: int| 0 <= a < order.len() && order[a] == j;
    assert(ranked[a] == k);
    assert(costs.skip(0) =~= costs);
    lemma_all_fit(costs, budget_of(budget), 0, 0);
    assert(picked.contains(a));
    let b = choose|b: int| 0 <= b < picked.len() && picked[b] == a;
    assert(v[b] == top[a]);
}

/// Whether the words of a name stand in a row among those of a text, and are three
/// characters together at least.
pub open spec fn spells_out(text: Seq<Seq<char>>, name: Seq<Seq<char>>) -> bool {
    &&& words_len(name, name.len() as int) >= 3
    &&& exists|i: int|
        0 <= i && i + name.len() <= text.len() && #[trigger] text.subrange(i, i + name.len()) == name
}

proof fn lemma_names_spells(hay: Seq<Seq<char>>, name: Seq<char>)
    ensures
        names(hay, name) <==> spells_out(hay, terms(name)),
{
    let ws = terms(name);
    if names(hay, name) {
        let i = choose|i: int| #[trigger] stands_at(hay, ws, i);
        assert(hay.subrange(i, i + ws.len()) == ws);
    }
    if spells_out(hay, ws) {
        let i = choose|i: int|
            0 <= i && i + ws.len() <= hay.len() && #[trigger] hay.subrange(i, i + ws.len()) == ws;
        assert(stands_at(hay, ws, i));
    }
}

/// A suggestion says why: it gives a reason exactly where it holds, in the order of
/// their weight. The source spells out the title of the note or its name, the two
/// are alike, they have a tag in common, or the note links back. Where the source
/// spells the note out, the snippet is of the source; else of the note.
pub proof fn law_a_suggestion_says_why(s: Seq<NoteView>, src: int, p: int, rating: Rating)
    requires
        ids_ascend(s),
        0 <= src < s.len(),
        0 <= p < s.len(),
        p != src,
    ensures
        ({
            let v = suggestion_of(s, src, p, rating);
            let words = terms(s[src].content);
            let spelled = spells_out(words, terms(s[p].title)) || spells_out(
                words,
                terms(base_name(s[p].id)),
            );
            let tagged = exists|i: int, j: int|
                0 <= i < s[p].tags.len() && 0 <= j < s[src].tags.len() && #[trigger] s[p].tags[i]
                    == #[trigger] s[src].tags[j];
            let back = points_at(s, p, src);
            let semantic = rating.semantic;
            &&& v.reasons.contains("title_mentioned"@) <==> spelled
            &&& v.reasons.contains("semantic"@) <==> semantic
            &&& v.reasons.contains("shared_tags"@) <==> tagged
            &&& v.reasons.contains("backlink"@) <==> back
            &&& v.reasons.len() == (if spelled {
                1int
            } else {
                0
            }) + (if semantic {
                1int
            } else {
                0
            }) + (if tagged {
                1int
            } else {
                0
            }) + (if back {
                1int
            } else {
                0
            })
            &&& spelled ==> v.snippet == snippet_of(s[p].title, s[src].content)
            &&& !spelled ==> v.snippet == snippet_of(s[src].title, s[p].content)
            &&& v.snippet.len() <= 4 * v.token_count < v.snippet.len() + 4
        }),
{
    let v = suggestion_of(s, src, p, rating);
    let words = terms(s[src].content);
    lemma_names_spells(words, s[p].title);
    lemma_names_spells(words, base_name(s[p].id));
    lemma_shared_tag(s[p].tags, s[src].tags, s[p].tags.len() as int);
    law_links_lead_to_what_they_mean(s, src, p);
    lemma_find_is(s, src);
    reveal_strlit("title_mentioned");
    reveal_strlit("semantic");
    reveal_strlit("shared_tags");
    reveal_strlit("backlink");
    let m = mentioned(s[src].content, s[p]);
    let t = shared(s[p].tags, s[src].tags, s[p].tags.len() as int) > 0;
    let b = backlinks_of(s, s[src].id).contains(p);
    lemma_reasons(m, rating.semantic, t, b);
}

proof fn lemma_reasons(m: bool, x: bool, t: bool, b: bool)
    ensures
        reasons_for(m, x, t, b).contains("title_mentioned"@) <==> m,
        reasons_for(m, x, t, b).contains("semantic"@) <==> x,
        reasons_for(m, x, t, b).contains("shared_tags"@) <==> t,
        reasons_for(m, x, t, b).contains("backlink"@) <==> b,
{
    reveal_strlit("title_mentioned");
    reveal_strlit("semantic");
    reveal_strlit("shared_tags");
    reveal_strlit("backlink");
    let r = reasons_for(m, x, t, b);
    assert("title_mentioned"@[0] == 't' && "semantic"@[0] == 's' && "shared_tags"@[0] == 's'
        && "semantic"@[1] == 'e' && "shared_tags"@[1] == 'h' && "backlink"@[0] == 'b');
    let i: int = 0;
    let j: int = if m {
        1
    } else {
        0
    };
    let k: int = if x {
        j + 1
    } else {
        j
    };
    let l: int = if t {
        k + 1
    } else {
        k
    };
    assert(r.len() == l + if b {
        1int
    } else {
        0
    });
    if m {
        assert(r[i] == "title_mentioned"@);
    }
    if x {
        assert(r[j] == "semantic"@);
    }
    if t {
        assert(r[k] == "shared_tags"@);
    }
    if b {
        assert(r[l] == "backlink"@);
    }
}

} // verus!

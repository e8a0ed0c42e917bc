//! What a snippet shows of a text.
use crate::text::{is_white, lemma_next_match, matches_at, next_match};
use crate::vault::search::{dark_end, first_hit, snippet_start, white_words_from, window};
use vstd::prelude::*;

verus! {

proof fn lemma_dark_end(s: Seq<char>, i: int, j: int)
    requires
        0 <= i <= j <= s.len(),
        forall|k: int| i <= k < j ==> !is_white(#[trigger] s[k]),
        j < s.len() ==> is_white(s[j]),
    ensures
        dark_end(s, i) == j,
    decreases j - i,
{
    if i < j {
        assert(!is_white(s[i]));
        lemma_dark_end(s, i + 1, j);
    }
}

proof fn lemma_dark_shape(s: Seq<char>, i: int)
    requires
        0 <= i < s.len(),
        !is_white(s[i]),
    ensures
        i < dark_end(s, i) <= s.len(),
        forall|k: int| i <= k < dark_end(s, i) ==> !is_white(#[trigger] s[k]),
        dark_end(s, i) < s.len() ==> is_white(s[dark_end(s, i)]),
    decreases s.len() - i,
{
    if i + 1 < s.len() && !is_white(s[i + 1]) {
        lemma_dark_shape(s, i + 1);
    } else {
        lemma_dark_end(s, i, i + 1);
    }
}

proof fn lemma_words_behind(p: Seq<char>, y: Seq<char>, i: int)
    requires
        0 <= i <= y.len(),
    ensures
        white_words_from(p + y, p.len() + i) == white_words_from(y, i),
    decreases y.len() - i,
{
    let s = p + y;
    let n: int = p.len() as int;
    if i < y.len() {
        assert(s[n + i] == y[i]);
        if is_white(y[i]) {
            lemma_words_behind(p, y, i + 1);
        } else {
            lemma_dark_shape(y, i);
            let j = dark_end(y, i);
            assert forall|k: int| n + i <= k < n + j implies !is_white(#[trigger] s[k]) by {
                assert(s[k] == y[k - n]);
            }
            if n + j < s.len() {
                assert(s[n + j] == y[j]);
            }
            lemma_dark_end(s, n + i, n + j);
            assert(s.subrange(n + i, n + j) =~= y.subrange(i, j));
            lemma_words_behind(p, y, j);
        }
    }
}

proof fn lemma_words_before(x: Seq<char>, c: char, y: Seq<char>, i: int)
    requires
        is_white(c),
        0 <= i <= x.len(),
    ensures
        white_words_from(x + seq![c] + y, i) == white_words_from(x, i) + white_words_from(y, 0),
    decreases x.len() - i,
{
    let s = x + seq![c] + y;
    let n: int = x.len() as int;
    if i < n {
        assert(s[i] == x[i]);
        if is_white(x[i]) {
            lemma_words_before(x, c, y, i + 1);
        } else {
            lemma_dark_shape(x, i);
            let j = dark_end(x, i);
            assert forall|k: int| i <= k < j implies !is_white(#[trigger] s[k]) by {
                assert(s[k] == x[k]);
            }
            if j < n {
                assert(s[j] == x[j]);
            } else {
                assert(s[j] == c);
            }
            lemma_dark_end(s, i, j);
            assert(s.subrange(i, j) =~= x.subrange(i, j));
            lemma_words_before(x, c, y, j);
            assert(white_words_from(s, i) =~= white_words_from(x, i) + white_words_from(y, 0));
        }
    } else {
        assert(s[n] == c);
        let p = x + seq![c];
        assert(s =~= p + y);
        lemma_words_behind(p, y, 0);
        assert(white_words_from(x, n) =~= seq![]);
        assert(white_words_from(s, n) =~= white_words_from(x, n) + white_words_from(y, 0));
    }
}

/// White space parts words, and belongs to none; what holds no white space is one word.
pub proof fn law_words_stand_between_white_space(x: Seq<char>, c: char, y: Seq<char>)
    ensures
        is_white(c) ==> white_words_from(x + seq![c] + y, 0) == white_words_from(x, 0)
            + white_words_from(y, 0),
        x.len() > 0 && (forall|k: int| 0 <= k < x.len() ==> !is_white(#[trigger] x[k]))
            ==> white_words_from(x, 0) == seq![x],
        x.len() == 0 ==> white_words_from(x, 0).len() == 0,
{
    if is_white(c) {
        lemma_words_before(x, c, y, 0);
    }
    if x.len() > 0 && (forall|k: int| 0 <= k < x.len() ==> !is_white(#[trigger] x[k])) {
        lemma_dark_end(x, 0, x.len() as int);
        assert(!is_white(x[0]));
        assert(x.subrange(0, x.len() as int) =~= x);
        assert(white_words_from(x, x.len() as int) =~= seq![]);
        assert(white_words_from(x, 0) =~= seq![x]);
    }
}

proof fn lemma_first_hit(text: Seq<char>, wanted: Seq<Seq<char>>, n: int, w: int, k: int)
    requires
        0 <= w < n <= wanted.len(),
        0 <= k,
        matches_at(text, wanted[w], k),
    ensures
        first_hit(text, wanted, n) matches Some(p) && p <= k,
    decreases n,
{
    if w < n - 1 {
        lemma_first_hit(text, wanted, n - 1, w, k);
    } else {
        lemma_next_match(text, wanted[w], 0);
        match next_match(text, wanted[w], 0) {
            Some(p) => {
                if k < p {
                    assert(!matches_at(text, wanted[w], k));
                }
            },
            None => {
                assert(!matches_at(text, wanted[w], k));
            },
        }
    }
}

/// The first hit comes no later than any place at which a wanted term stands.
pub proof fn law_the_first_hit_is_the_first(
    text: Seq<char>,
    wanted: Seq<Seq<char>>,
    w: int,
    k: int,
)
    requires
        0 <= w < wanted.len(),
        0 <= k,
        matches_at(text, wanted[w], k),
    ensures
        first_hit(text, wanted, wanted.len() as int) matches Some(p) && p <= k,
{
    lemma_first_hit(text, wanted, wanted.len() as int, w, k);
}

proof fn lemma_hit_term(text: Seq<char>, wanted: Seq<Seq<char>>, n: int) -> (w: int)
    requires
        0 <= n <= wanted.len(),
        first_hit(text, wanted, n) is Some,
    ensures
        0 <= w < n,
        matches_at(text, wanted[w], first_hit(text, wanted, n)->0),
    decreases n,
{
    lemma_next_match(text, wanted[n - 1], 0);
    if next_match(text, wanted[n - 1], 0) == first_hit(text, wanted, n) {
        n - 1
    } else {
        lemma_hit_term(text, wanted, n - 1)
    }
}

/// At the first hit a wanted term stands: `w` says which.
pub proof fn law_a_hit_is_a_wanted_term(text: Seq<char>, wanted: Seq<Seq<char>>) -> (w: int)
    requires
        first_hit(text, wanted, wanted.len() as int) is Some,
    ensures
        0 <= w < wanted.len(),
        matches_at(text, wanted[w], first_hit(text, wanted, wanted.len() as int)->0),
{
    lemma_hit_term(text, wanted, wanted.len() as int)
}

/// A text without a wanted term is shown from its start, one with an early hit too.
pub proof fn law_a_snippet_starts_near_the_hit(text: Seq<char>, wanted: Seq<Seq<char>>)
    ensures
        first_hit(text, wanted, wanted.len() as int) is None ==> snippet_start(text, wanted) == 0,
        first_hit(text, wanted, wanted.len() as int) matches Some(p) ==> (0 <= p <= 40
            ==> snippet_start(text, wanted) == 0) && (p > 40 ==> snippet_start(text, wanted) + 40
            == p),
{
}

/// A window shows the text as it stands from its start on, and ends early only with the
/// text.
pub proof fn law_a_window_shows_the_text(s: Seq<char>, from: nat, max: nat, k: int)
    requires
        from <= s.len(),
    ensures
        window(s, from, max).len() == max || window(s, from, max).len() == s.len() - from && s.len()
            - from <= max,
        0 <= k < window(s, from, max).len() ==> window(s, from, max)[k] == s[from + k],
{
}

} // verus!

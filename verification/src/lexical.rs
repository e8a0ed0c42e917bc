//! Lexical scoring, shared by memory ranking and vault search.
use crate::text::{
    all_ascii, ascii_lower, chars_of, is_alnum, is_alnum_char, join, lemma_join_front, lower,
    lowercase, str_eq, string_range, texts,
};
use vstd::prelude::*;

verus! {

/// The end of the run of letters and digits that starts at `i`.
pub open spec fn run_end(s: Seq<char>, i: int) -> int
    decreases s.len() - i,
{
    if 0 <= i < s.len() && is_alnum(s[i]) {
        run_end(s, i + 1)
    } else {
        i
    }
}

/// The words of `s[i..]`.
pub open spec fn words_from(s: Seq<char>, i: int) -> Seq<Seq<char>>
    decreases s.len() - i,
{
    if i < 0 || i >= s.len() {
        seq![]
    } else if !is_alnum(s[i]) {
        words_from(s, i + 1)
    } else {
        let j = run_end(s, i);
        if i < j <= s.len() {
            seq![s.subrange(i, j)] + words_from(s, j)
        } else {
            seq![]
        }
    }
}

/// The words of a text: its maximal runs of ASCII letters and digits.
pub open spec fn words(s: Seq<char>) -> Seq<Seq<char>> {
    words_from(s, 0)
}

/// The words of a text, whatever their case.
pub open spec fn terms(s: Seq<char>) -> Seq<Seq<char>> {
    words(lowercase(s))
}

/// How often `term` occurs among the first `n` of `among`.
pub open spec fn frequency(among: Seq<Seq<char>>, term: Seq<char>, n: int) -> nat
    decreases n,
{
    if n <= 0 {
        0
    } else {
        frequency(among, term, n - 1) + if among[n - 1] == term {
            1nat
        } else {
            0
        }
    }
}

/// The summed frequency in `among` of the first `n` of `wanted`.
pub open spec fn summed_frequency(wanted: Seq<Seq<char>>, among: Seq<Seq<char>>, n: int) -> nat
    decreases n,
{
    if n <= 0 {
        0
    } else {
        summed_frequency(wanted, among, n - 1) + frequency(
            among,
            wanted[n - 1],
            among.len() as int,
        )
    }
}

/// The score of a text for a query: the summed term frequency of the query's
/// terms in the text. The sum is kept in 32 bits and wraps there.
pub open spec fn score(query: Seq<char>, text: Seq<char>) -> u32 {
    word_score(terms(query), terms(text))
}

/// The score of a list of words for a list of wanted words.
pub open spec fn word_score(wanted: Seq<Seq<char>>, among: Seq<Seq<char>>) -> u32 {
    (summed_frequency(wanted, among, wanted.len() as int) % 0x1_0000_0000) as u32
}

fn run_end_exec(v: &Vec<char>, from: usize) -> (r: usize)
    requires
        from < v@.len(),
        is_alnum(v@[from as int]),
    ensures
        r == run_end(v@, from as int),
        from < r <= v@.len(),
{
    let n: usize = v.len();
    assert(from < n);
    let mut i: usize = from + 1;
    while i < v.len() && is_alnum_char(v[i])
        invariant
            from < i <= v@.len(),
            run_end(v@, from as int) == run_end(v@, i as int),
        decreases v@.len() - i,
    {
        i = i + 1;
    }
    i
}

/// The words of a text that is already in lower case.
pub fn tokenize_lower(lowered: &str) -> (r: Vec<String>)
    ensures
        texts(r@) == words(lowered@),
{
    let v = chars_of(lowered);
    let mut out: Vec<String> = Vec::new();
    let mut i: usize = 0;
    while i < v.len()
        invariant
            v@ == lowered@,
            i <= v@.len(),
            words(v@) == texts(out@) + words_from(v@, i as int),
        decreases v@.len() - i,
    {
        if !is_alnum_char(v[i]) {
            i = i + 1;
        } else {
            let j: usize = run_end_exec(&v, i);
            let ghost prev = texts(out@);
            out.push(string_range(&v, i, j));
            assert(texts(out@) =~= prev.push(v@.subrange(i as int, j as int)));
            assert(prev + (seq![v@.subrange(i as int, j as int)] + words_from(v@, j as int))
                =~= texts(out@) + words_from(v@, j as int));
            i = j;
        }
    }
    assert(texts(out@) + words_from(v@, i as int) =~= texts(out@));
    out
}

/// Whether a text is one word in lower case.
pub open spec fn is_token(t: Seq<char>) -> bool {
    t.len() > 0 && forall|k: int|
        0 <= k < t.len() ==> 'a' <= #[trigger] t[k] <= 'z' || '0' <= t[k] <= '9'
}

/// An ASCII text in lower case.
pub open spec fn in_lower_case(s: Seq<char>) -> Seq<char> {
    s.map_values(|c: char| ascii_lower(c))
}

/// Whether `ts` are the words of a text in lower case: each is a token, and of an
/// ASCII text they are those of the text with its letters in lower case.
pub open spec fn tokenized(s: Seq<char>, ts: Seq<Seq<char>>) -> bool {
    &&& ts == terms(s)
    &&& forall|k: int| 0 <= k < ts.len() ==> is_token(#[trigger] ts[k])
    &&& all_ascii(s) ==> ts == words(in_lower_case(s))
}

/// The words of a text, in lower case.
pub fn tokenize(text: &str) -> (r: Vec<String>)
    ensures
        tokenized(text@, texts(r@)),
{
    let lowered = lower(text);
    let r = tokenize_lower(lowered.as_str());
    proof {
        let t = texts(r@);
        lemma_words_are_words(lowered@, 0);
        assert forall|k: int| 0 <= k < t.len() implies is_token(#[trigger] t[k]) by {
            let (a, b) = choose|a: int, b: int|
                0 <= a < b <= lowered@.len() && t[k] == #[trigger] lowered@.subrange(a, b);
            assert forall|m: int| 0 <= m < t[k].len() implies 'a' <= #[trigger] t[k][m] <= 'z' || '0'
                <= t[k][m] <= '9' by {
                assert(is_alnum(t[k][m]));
                assert(t[k][m] == lowered@[a + m]);
            }
        }
    }
    r
}

/// Whether a text is one word.
pub open spec fn is_word(w: Seq<char>) -> bool {
    w.len() > 0 && forall|k: int| 0 <= k < w.len() ==> is_alnum(#[trigger] w[k])
}

proof fn lemma_run_end(s: Seq<char>, i: int)
    requires
        0 <= i <= s.len(),
    ensures
        i <= run_end(s, i) <= s.len(),
        forall|k: int| i <= k < run_end(s, i) ==> is_alnum(#[trigger] s[k]),
        run_end(s, i) < s.len() ==> !is_alnum(s[run_end(s, i)]),
    decreases s.len() - i,
{
    if i < s.len() && is_alnum(s[i]) {
        lemma_run_end(s, i + 1);
    }
}

proof fn lemma_run_end_is(s: Seq<char>, i: int, j: int)
    requires
        0 <= i <= j <= s.len(),
        forall|k: int| i <= k < j ==> is_alnum(#[trigger] s[k]),
        j < s.len() ==> !is_alnum(s[j]),
    ensures
        run_end(s, i) == j,
    decreases j - i,
{
    if i < j {
        lemma_run_end_is(s, i + 1, j);
    }
}

proof fn lemma_words_are_words(s: Seq<char>, i: int)
    requires
        0 <= i,
    ensures
        forall|k: int|
            0 <= k < words_from(s, i).len() ==> is_word(#[trigger] words_from(s, i)[k]) && exists|
                a: int,
                b: int,
            |
                0 <= a < b <= s.len() && words_from(s, i)[k] == #[trigger] s.subrange(a, b),
    decreases s.len() - i,
{
    let all = words_from(s, i);
    if i < s.len() {
        if !is_alnum(s[i]) {
            lemma_words_are_words(s, i + 1);
            assert(all == words_from(s, i + 1));
        } else {
            lemma_run_end(s, i);
            let j = run_end(s, i);
            lemma_words_are_words(s, j);
            let rest = words_from(s, j);
            assert forall|k: int| 0 <= k < all.len() implies is_word(#[trigger] all[k]) && exists|
                a: int,
                b: int,
            |
                0 <= a < b <= s.len() && all[k] == #[trigger] s.subrange(a, b) by {
                if k > 0 {
                    assert(all[k] == rest[k - 1]);
                } else {
                    assert(all[0] == s.subrange(i, j));
                }
            }
        }
    }
}

proof fn lemma_words_shift(p: Seq<char>, t: Seq<char>, i: int)
    requires
        0 <= i <= t.len(),
    ensures
        words_from(p + t, p.len() + i) == words_from(t, i),
    decreases t.len() - i,
{
    let s = p + t;
    let n = p.len() as int;
    if i < t.len() {
        assert(s[n + i] == t[i]);
        if !is_alnum(t[i]) {
            lemma_words_shift(p, t, i + 1);
        } else {
            lemma_run_end(t, i);
            let j = run_end(t, i);
            assert forall|k: int| n + i <= k < n + j implies is_alnum(#[trigger] s[k]) by {
                assert(s[k] == t[k - n]);
            }
            if j < t.len() {
                assert(s[n + j] == t[j]);
            }
            lemma_run_end_is(s, n + i, n + j);
            assert(s.subrange(n + i, n + j) =~= t.subrange(i, j));
            lemma_words_shift(p, t, j);
        }
    }
}

proof fn lemma_words_before(a: Seq<char>, b: Seq<char>, i: int)
    requires
        0 <= i <= a.len(),
    ensures
        words_from(a + " "@ + b, i) == words_from(a, i) + words(b),
    decreases a.len() - i,
{
    reveal_strlit(" ");
    let s = a + " "@ + b;
    let n = a.len() as int;
    assert(s[n] == ' ');
    if i == n {
        lemma_words_shift(a + " "@, b, 0);
        assert(words_from(a, i) + words(b) =~= words(b));
    } else {
        assert(s[i] == a[i]);
        if !is_alnum(a[i]) {
            lemma_words_before(a, b, i + 1);
        } else {
            lemma_run_end(a, i);
            let j = run_end(a, i);
            assert forall|k: int| i <= k < j implies is_alnum(#[trigger] s[k]) by {
                assert(s[k] == a[k]);
            }
            if j < n {
                assert(s[j] == a[j]);
            }
            lemma_run_end_is(s, i, j);
            assert(s.subrange(i, j) =~= a.subrange(i, j));
            lemma_words_before(a, b, j);
            let w = seq![a.subrange(i, j)];
            assert(w + (words_from(a, j) + words(b)) =~= w + words_from(a, j) + words(b));
        }
    }
}

/// A space parts words: those of two texts with a space between them are those
/// of the one and then those of the other.
pub proof fn law_a_space_parts_words(a: Seq<char>, b: Seq<char>)
    ensures
        words(a + " "@ + b) == words(a) + words(b),
{
    lemma_words_before(a, b, 0);
}

proof fn lemma_joined_words(ws: Seq<Seq<char>>)
    requires
        forall|k: int| 0 <= k < ws.len() ==> is_word(#[trigger] ws[k]),
    ensures
        words(join(ws, " "@)) == ws,
    decreases ws.len(),
{
    if ws.len() == 0 {
        assert(words(join(ws, " "@)) =~= ws);
    } else {
        let first = ws[0];
        let n = first.len() as int;
        lemma_run_end_is(first, 0, n);
        assert(first.subrange(0, n) =~= first);
        assert(is_alnum(first[0]));
        assert(words_from(first, n) =~= seq![]);
        assert(words(first) =~= seq![first]);
        if ws.len() == 1 {
            assert(ws =~= seq![first]);
        } else {
            let rest = ws.skip(1);
            assert forall|k: int| 0 <= k < rest.len() implies is_word(#[trigger] rest[k]) by {
                assert(rest[k] == ws[k + 1]);
            }
            lemma_joined_words(rest);
            lemma_join_front(ws, " "@);
            law_a_space_parts_words(first, join(rest, " "@));
            assert(seq![first] + rest =~= ws);
        }
    }
}

/// Words read again are the same words: those of a text, joined by spaces.
pub proof fn law_words_read_again(s: Seq<char>)
    ensures
        words(join(words(s), " "@)) == words(s),
        forall|k: int| 0 <= k < words(s).len() ==> is_word(#[trigger] words(s)[k]),
{
    lemma_words_are_words(s, 0);
    lemma_joined_words(words(s));
}

/// A character with `a` to `z` in upper case.
pub open spec fn ascii_upper(c: char) -> char {
    if 'a' <= c <= 'z' {
        (c as int - 32) as char
    } else {
        c
    }
}

/// The words of an ASCII text do not depend on its case.
pub proof fn law_words_ignore_case(s: Seq<char>)
    ensures
        words(in_lower_case(s.map_values(|c: char| ascii_upper(c)))) == words(in_lower_case(s)),
{
    assert(in_lower_case(s.map_values(|c: char| ascii_upper(c))) =~= in_lower_case(s));
}

/// The tokens of a text read again, joined by spaces, are the same tokens.
pub proof fn law_tokens_read_again(s: Seq<char>, ts: Seq<Seq<char>>, again: Seq<Seq<char>>)
    requires
        tokenized(s, ts),
        tokenized(join(ts, " "@), again),
    ensures
        again == ts,
{
    let joined = join(ts, " "@);
    lemma_joined_tokens(ts);
    assert(in_lower_case(joined) =~= joined);
    assert forall|k: int| 0 <= k < ts.len() implies is_word(#[trigger] ts[k]) by {
        assert(is_token(ts[k]));
        assert forall|m: int| 0 <= m < ts[k].len() implies is_alnum(#[trigger] ts[k][m]) by {}
    }
    lemma_joined_words(ts);
}

proof fn lemma_joined_tokens(ts: Seq<Seq<char>>)
    requires
        forall|k: int| 0 <= k < ts.len() ==> is_token(#[trigger] ts[k]),
    ensures
        all_ascii(join(ts, " "@)),
        forall|i: int|
            0 <= i < join(ts, " "@).len() ==> !('A' <= #[trigger] join(ts, " "@)[i] <= 'Z'),
    decreases ts.len(),
{
    reveal_strlit(" ");
    let joined = join(ts, " "@);
    if ts.len() > 0 {
        let more = ts.drop_last();
        let last = ts.last();
        assert forall|k: int| 0 <= k < more.len() implies is_token(#[trigger] more[k]) by {
            assert(more[k] == ts[k]);
        }
        lemma_joined_tokens(more);
        assert(is_token(last));
        assert forall|i: int| 0 <= i < joined.len() implies (#[trigger] joined[i] as int) < 128
            && !('A' <= joined[i] <= 'Z') by {
            let before = join(more, " "@);
            if ts.len() > 1 {
                if i < before.len() {
                    assert(joined[i] == before[i]);
                } else if i > before.len() {
                    assert(joined[i] == last[i - before.len() - 1]);
                }
            } else {
                assert(joined[i] == last[i]);
            }
        }
    }
}

/// The tokens of two ASCII texts with a space between them are those of the one
/// and then those of the other.
pub proof fn law_a_space_parts_tokens(
    a: Seq<char>,
    b: Seq<char>,
    of_a: Seq<Seq<char>>,
    of_b: Seq<Seq<char>>,
    of_both: Seq<Seq<char>>,
)
    requires
        all_ascii(a),
        all_ascii(b),
        tokenized(a, of_a),
        tokenized(b, of_b),
        tokenized(a + " "@ + b, of_both),
    ensures
        of_both == of_a + of_b,
{
    reveal_strlit(" ");
    assert(in_lower_case(a + " "@ + b) =~= in_lower_case(a) + " "@ + in_lower_case(b));
    law_a_space_parts_words(in_lower_case(a), in_lower_case(b));
}

/// The tokens of an ASCII text are those of the text in upper case.
pub proof fn law_tokens_ignore_case(
    s: Seq<char>,
    ts: Seq<Seq<char>>,
    of_upper: Seq<Seq<char>>,
)
    requires
        all_ascii(s),
        tokenized(s, ts),
        tokenized(s.map_values(|c: char| ascii_upper(c)), of_upper),
    ensures
        of_upper == ts,
{
    law_words_ignore_case(s);
}

/// The summed frequency of the words `wanted` among the words `among`.
#[verifier::spinoff_prover]
pub fn score_words(wanted: &Vec<String>, among: &Vec<String>) -> (r: u32)
    ensures
        r == word_score(texts(wanted@), texts(among@)),
{
    let ghost w = texts(wanted@);
    let ghost t = texts(among@);
    let mut acc: u64 = 0;
    let mut i: usize = 0;
    while i < wanted.len()
        invariant
            i <= wanted@.len(),
            w == texts(wanted@),
            t == texts(among@),
            acc < 0x1_0000_0000,
            acc == summed_frequency(w, t, i as int) % 0x1_0000_0000,
        decreases wanted@.len() - i,
    {
        let mut j: usize = 0;
        let ghost base = summed_frequency(w, t, i as int);
        while j < among.len()
            invariant
                i < wanted@.len(),
                j <= among@.len(),
                w == texts(wanted@),
                t == texts(among@),
                acc < 0x1_0000_0000,
                acc == (base + frequency(t, w[i as int], j as int)) % 0x1_0000_0000,
            decreases among@.len() - j,
        {
            if str_eq(among[j].as_str(), wanted[i].as_str()) {
                acc = (acc + 1) % 0x1_0000_0000;
            }
            j = j + 1;
        }
        i = i + 1;
    }
    acc as u32
}

/// The score of `text` for `query`: the summed term frequency of query terms
/// within the text.
pub fn lexical_score(query: &str, text: &str) -> (r: u32)
    ensures
        r == score(query@, text@),
{
    let among = tokenize(text);
    let wanted = tokenize(query);
    score_words(&wanted, &among)
}

// ---------------------------------------------------------------------------
// What a score counts
// ---------------------------------------------------------------------------

/// The places where a wanted word stands among the words of a text: which of the
/// wanted, and where.
pub open spec fn occurrences(wanted: Seq<Seq<char>>, among: Seq<Seq<char>>) -> Set<(int, int)> {
    Set::new(
        |p: (int, int)|
            0 <= p.0 < wanted.len() && 0 <= p.1 < among.len() && wanted[p.0] == among[p.1],
    )
}

/// Whether two lists of words have one in common.
pub open spec fn share_a_word(a: Seq<Seq<char>>, b: Seq<Seq<char>>) -> bool {
    exists|i: int, j: int| 0 <= i < a.len() && 0 <= j < b.len() && #[trigger] a[i] == #[trigger] b[j]
}

spec fn occurrences_up_to(
    wanted: Seq<Seq<char>>,
    among: Seq<Seq<char>>,
    n: int,
    m: int,
) -> Set<(int, int)> {
    Set::new(
        |p: (int, int)|
            0 <= p.0 && 0 <= p.1 < among.len() && (p.0 < n || p.0 == n && p.1 < m) && wanted[p.0]
                == among[p.1],
    )
}

proof fn lemma_occurrences_up_to(
    wanted: Seq<Seq<char>>,
    among: Seq<Seq<char>>,
    n: int,
    m: int,
)
    requires
        0 <= n < wanted.len() || n == wanted.len() && m == 0,
        0 <= m <= among.len(),
    ensures
        occurrences_up_to(wanted, among, n, m).finite(),
        occurrences_up_to(wanted, among, n, m).len() == summed_frequency(wanted, among, n)
            + frequency(among, wanted[n], m),
    decreases n, m,
{
    let here = occurrences_up_to(wanted, among, n, m);
    if m > 0 {
        let before = occurrences_up_to(wanted, among, n, m - 1);
        lemma_occurrences_up_to(wanted, among, n, m - 1);
        if wanted[n] == among[m - 1] {
            assert(here =~= before.insert((n, m - 1)));
        } else {
            assert(here =~= before);
        }
    } else if n > 0 {
        let before = occurrences_up_to(wanted, among, n - 1, among.len() as int);
        lemma_occurrences_up_to(wanted, among, n - 1, among.len() as int);
        assert(here =~= before);
    } else {
        assert(here =~= Set::empty());
    }
}

/// A score counts occurrences: it is how many places of the text hold a wanted
/// word, once for each time that the word is wanted. The count is kept in 32 bits.
/// It is none exactly where the two have no word in common.
pub proof fn law_score_counts_occurrences(wanted: Seq<Seq<char>>, among: Seq<Seq<char>>)
    ensures
        occurrences(wanted, among).finite(),
        word_score(wanted, among) == occurrences(wanted, among).len() % 0x1_0000_0000,
        occurrences(wanted, among).len() > 0 <==> share_a_word(wanted, among),
{
    let all = occurrences(wanted, among);
    lemma_occurrences_up_to(wanted, among, wanted.len() as int, 0);
    assert(all =~= occurrences_up_to(wanted, among, wanted.len() as int, 0));
    if share_a_word(wanted, among) {
        let (i, j) = choose|i: int, j: int|
            0 <= i < wanted.len() && 0 <= j < among.len() && #[trigger] wanted[i] == #[trigger] among[j];
        assert(all.contains((i, j)));
        assert(all.len() > 0) by {
            if all.len() == 0 {
                assert(all =~= Set::empty());
            }
        }
    }
    if all.len() > 0 {
        let p = all.choose();
        assert(all.contains(p)) by {
            assert(all != Set::<(int, int)>::empty());
        }
        assert(wanted[p.0] == among[p.1]);
    }
}

proof fn lemma_summed_parts(
    wanted: Seq<Seq<char>>,
    a: Seq<Seq<char>>,
    b: Seq<Seq<char>>,
    n: int,
)
    requires
        0 <= n <= wanted.len(),
    ensures
        summed_frequency(wanted, a + b, n) == summed_frequency(wanted, a, n) + summed_frequency(
            wanted,
            b,
            n,
        ),
    decreases n,
{
    if n > 0 {
        lemma_summed_parts(wanted, a, b, n - 1);
        lemma_frequency_parts(a, b, wanted[n - 1], (a + b).len() as int);
    }
}

proof fn lemma_frequency_parts(a: Seq<Seq<char>>, b: Seq<Seq<char>>, term: Seq<char>, n: int)
    requires
        0 <= n <= a.len() + b.len(),
    ensures
        n <= a.len() ==> frequency(a + b, term, n) == frequency(a, term, n),
        n >= a.len() ==> frequency(a + b, term, n) == frequency(a, term, a.len() as int)
            + frequency(b, term, n - a.len()),
    decreases n,
{
    if n > 0 {
        lemma_frequency_parts(a, b, term, n - 1);
        if n <= a.len() {
            assert((a + b)[n - 1] == a[n - 1]);
        } else {
            assert((a + b)[n - 1] == b[n - 1 - a.len()]);
        }
    }
}

/// The occurrences in two texts, one behind the other, are those in the one and
/// those in the other.
pub proof fn law_scores_of_parts_sum(
    wanted: Seq<Seq<char>>,
    a: Seq<Seq<char>>,
    b: Seq<Seq<char>>,
)
    ensures
        occurrences(wanted, a + b).len() == occurrences(wanted, a).len() + occurrences(
            wanted,
            b,
        ).len(),
        word_score(wanted, a + b) == (word_score(wanted, a) + word_score(wanted, b)) % 0x1_0000_0000,
{
    let n = wanted.len() as int;
    lemma_occurrences_up_to(wanted, a + b, n, 0);
    lemma_occurrences_up_to(wanted, a, n, 0);
    lemma_occurrences_up_to(wanted, b, n, 0);
    assert(occurrences(wanted, a + b) =~= occurrences_up_to(wanted, a + b, n, 0));
    assert(occurrences(wanted, a) =~= occurrences_up_to(wanted, a, n, 0));
    assert(occurrences(wanted, b) =~= occurrences_up_to(wanted, b, n, 0));
    lemma_summed_parts(wanted, a, b, n);
}

proof fn lemma_words_cover(s: Seq<char>, i: int, a: int, b: int)
    requires
        0 <= i <= a < b <= s.len(),
        i == 0 || i == a || !is_alnum(s[i - 1]) || !is_alnum(s[i]),
        forall|k: int| a <= k < b ==> is_alnum(#[trigger] s[k]),
        a > 0 ==> !is_alnum(s[a - 1]),
        b < s.len() ==> !is_alnum(s[b]),
    ensures
        words_from(s, i).contains(s.subrange(a, b)),
    decreases a - i,
{
    let all = words_from(s, i);
    if i == a {
        assert(is_alnum(s[a]));
        lemma_run_end_is(s, a, b);
        assert(all[0] == s.subrange(a, b));
    } else if !is_alnum(s[i]) {
        lemma_words_cover(s, i + 1, a, b);
    } else {
        lemma_run_end(s, i);
        let j = run_end(s, i);
        assert(j <= a) by {
            if j > a {
                assert(is_alnum(s[a - 1]));
            }
        }
        if j < a {
            assert(!is_alnum(s[j]));
        }
        lemma_words_cover(s, j, a, b);
        let rest = words_from(s, j);
        let k = choose|k: int| 0 <= k < rest.len() && rest[k] == s.subrange(a, b);
        assert(all[k + 1] == rest[k]);
    }
}

/// Every longest run of letters and digits of a text is one of its words.
pub proof fn law_words_leave_nothing_out(s: Seq<char>, a: int, b: int)
    requires
        0 <= a < b <= s.len(),
        forall|k: int| a <= k < b ==> is_alnum(#[trigger] s[k]),
        a > 0 ==> !is_alnum(s[a - 1]),
        b < s.len() ==> !is_alnum(s[b]),
    ensures
        words(s).contains(s.subrange(a, b)),
{
    lemma_words_cover(s, 0, a, b);
}

} // verus!

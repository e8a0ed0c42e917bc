//! Text as sequences of characters.
//!
//! Every string operation of the crate is stated over `Seq<char>`, the view of
//! `str` and `String`. Positions count characters, not bytes; where a byte
//! length matters (`utf8_len`) it is the length of the UTF-8 encoding.
use vstd::prelude::*;
use vstd::string::*;
use vstd::utf8::*;

verus! {

/// `String::push` of std: appends one character.
pub assume_specification[ String::push ](s: &mut String, c: char)
    ensures
        final(s)@ == old(s)@.push(c),
;

// ---------------------------------------------------------------------------
// Strings and character vectors
// ---------------------------------------------------------------------------

/// The characters of `s`, in order.
pub(crate) fn chars_of(s: &str) -> (r: Vec<char>)
    ensures
        r@ == s@,
{
    let mut out: Vec<char> = Vec::new();
    for c in it: s.chars()
        invariant
            it.seq() == s@,
            out@ == s@.take(it.index()),
    {
        out.push(c);
        assert(s@.take(it.index() + 1) =~= s@.take(it.index()).push(c));
    }
    assert(s@.take(s@.len() as int) =~= s@);
    out
}

/// The string of the characters `v[from..to]`.
pub(crate) fn string_range(v: &Vec<char>, from: usize, to: usize) -> (r: String)
    requires
        from <= to <= v@.len(),
    ensures
        r@ == v@.subrange(from as int, to as int),
{
    let mut out = String::new();
    let mut i: usize = from;
    while i < to
        invariant
            from <= i <= to <= v@.len(),
            out@ == v@.subrange(from as int, i as int),
        decreases to - i,
    {
        out.push(v[i]);
        assert(v@.subrange(from as int, i as int + 1) =~= v@.subrange(from as int, i as int).push(
            v@[i as int],
        ));
        i = i + 1;
    }
    out
}

/// The characters from `from` on.
pub(crate) fn tail(v: &Vec<char>, from: usize) -> (r: Vec<char>)
    requires
        from <= v@.len(),
    ensures
        r@ == v@.skip(from as int),
{
    let mut out: Vec<char> = Vec::new();
    let mut i: usize = from;
    while i < v.len()
        invariant
            from <= i <= v@.len(),
            out@ == v@.subrange(from as int, i as int),
        decreases v@.len() - i,
    {
        out.push(v[i]);
        assert(v@.subrange(from as int, i + 1) =~= v@.subrange(from as int, i as int).push(
            v@[i as int],
        ));
        i = i + 1;
    }
    assert(v@.subrange(from as int, v@.len() as int) =~= v@.skip(from as int));
    out
}

/// The string of all characters of `v`.
pub(crate) fn string_of(v: &Vec<char>) -> (r: String)
    ensures
        r@ == v@,
{
    assert(v@.subrange(0, v@.len() as int) =~= v@);
    string_range(v, 0, v.len())
}

/// Whether two strings hold the same characters.
pub(crate) fn str_eq(a: &str, b: &str) -> (r: bool)
    ensures
        r == (a@ == b@),
{
    a.to_owned() == b.to_owned()
}

/// The length of the UTF-8 encoding of `s`, in bytes.
pub open spec fn utf8_len(s: Seq<char>) -> nat {
    encode_utf8(s).len()
}

pub(crate) fn byte_len(s: &str) -> (n: usize)
    ensures
        n == utf8_len(s@),
{
    s.as_bytes().len()
}

// ---------------------------------------------------------------------------
// White space
// ---------------------------------------------------------------------------

/// The characters with the Unicode property `White_Space`.
pub open spec fn is_white(c: char) -> bool {
    let n = c as int;
    ||| 0x9 <= n <= 0xD
    ||| n == 0x20 || n == 0x85 || n == 0xA0 || n == 0x1680
    ||| 0x2000 <= n <= 0x200A
    ||| n == 0x2028 || n == 0x2029 || n == 0x202F || n == 0x205F || n == 0x3000
}

/// Whether `c` is white space.
pub fn is_whitespace(c: char) -> (r: bool)
    ensures
        r == is_white(c),
{
    let n: u32 = c as u32;
    (0x9 <= n && n <= 0xD) || n == 0x20 || n == 0x85 || n == 0xA0 || n == 0x1680 || (0x2000 <= n
        && n <= 0x200A) || n == 0x2028 || n == 0x2029 || n == 0x202F || n == 0x205F || n == 0x3000
}

/// The first position from `i` on that holds no white space.
pub open spec fn skip_white(s: Seq<char>, i: int) -> int
    decreases s.len() - i,
{
    if 0 <= i < s.len() && is_white(s[i]) {
        skip_white(s, i + 1)
    } else {
        i
    }
}

/// The end of `s[..j]` once its trailing white space is dropped.
pub open spec fn back_white(s: Seq<char>, j: int) -> int
    decreases j,
{
    if 0 < j <= s.len() && is_white(s[j - 1]) {
        back_white(s, j - 1)
    } else {
        j
    }
}

/// `s` without leading white space.
pub open spec fn trim_start(s: Seq<char>) -> Seq<char> {
    s.subrange(skip_white(s, 0), s.len() as int)
}

/// `s` without trailing white space.
pub open spec fn trim_end(s: Seq<char>) -> Seq<char> {
    s.subrange(0, back_white(s, s.len() as int))
}

/// `s` without leading and trailing white space.
pub open spec fn trim(s: Seq<char>) -> Seq<char> {
    trim_end(trim_start(s))
}

pub proof fn lemma_skip_white(s: Seq<char>, i: int)
    requires
        0 <= i <= s.len(),
    ensures
        i <= skip_white(s, i) <= s.len(),
        skip_white(s, i) < s.len() ==> !is_white(s[skip_white(s, i)]),
        forall|k: int| i <= k < skip_white(s, i) ==> is_white(#[trigger] s[k]),
    decreases s.len() - i,
{
    if i < s.len() && is_white(s[i]) {
        lemma_skip_white(s, i + 1);
    }
}

pub proof fn lemma_back_white(s: Seq<char>, j: int)
    requires
        0 <= j <= s.len(),
    ensures
        0 <= back_white(s, j) <= j,
        back_white(s, j) > 0 ==> !is_white(s[back_white(s, j) - 1]),
        forall|k: int| back_white(s, j) <= k < j ==> is_white(#[trigger] s[k]),
    decreases j,
{
    if 0 < j && is_white(s[j - 1]) {
        lemma_back_white(s, j - 1);
    }
}

/// A text with no white space at its ends is its own trimmed form.
pub proof fn lemma_trim_fixed(s: Seq<char>)
    requires
        s.len() > 0 ==> !is_white(s[0]) && !is_white(s.last()),
    ensures
        trim(s) == s,
        trim_end(s) == s,
{
    assert(s.subrange(0, s.len() as int) =~= s);
    assert(skip_white(s, 0) == 0);
    assert(back_white(s, s.len() as int) == s.len());
}

/// A trimmed text has no white space at its ends.
pub proof fn lemma_trim_shape(s: Seq<char>)
    ensures
        trim(s).len() > 0 ==> !is_white(trim(s)[0]) && !is_white(trim(s).last()),
        trim(trim(s)) == trim(s),
{
    lemma_skip_white(s, 0);
    let t = trim_start(s);
    lemma_back_white(t, t.len() as int);
    let u = trim(s);
    if u.len() > 0 {
        assert(u[0] == t[0]);
        assert(t[0] == s[skip_white(s, 0)]);
        assert(u.last() == t[back_white(t, t.len() as int) - 1]);
    }
    lemma_trim_fixed(u);
}

pub(crate) fn white_end(v: &Vec<char>, from: usize) -> (r: usize)
    requires
        from <= v@.len(),
    ensures
        r == skip_white(v@, from as int),
        from <= r <= v@.len(),
{
    let mut i: usize = from;
    while i < v.len() && is_whitespace(v[i])
        invariant
            from <= i <= v@.len(),
            skip_white(v@, from as int) == skip_white(v@, i as int),
        decreases v@.len() - i,
    {
        i = i + 1;
    }
    i
}

pub(crate) fn trim_start_str(s: &str) -> (r: String)
    ensures
        r@ == trim_start(s@),
{
    let v = chars_of(s);
    let a: usize = white_end(&v, 0);
    string_range(&v, a, v.len())
}

pub(crate) fn trim_end_str(s: &str) -> (r: String)
    ensures
        r@ == trim_end(s@),
{
    let v = chars_of(s);
    let mut j: usize = v.len();
    while j > 0 && is_whitespace(v[j - 1])
        invariant
            j <= v@.len(),
            back_white(v@, v@.len() as int) == back_white(v@, j as int),
        decreases j,
    {
        j = j - 1;
    }
    string_range(&v, 0, j)
}

pub(crate) fn trim_str(s: &str) -> (r: String)
    ensures
        r@ == trim(s@),
{
    let t = trim_start_str(s);
    trim_end_str(t.as_str())
}

// ---------------------------------------------------------------------------
// Searching
// ---------------------------------------------------------------------------

/// The first position from `i` on that holds `c`, or `s.len()`.
pub open spec fn next_char(s: Seq<char>, c: char, i: int) -> int
    decreases s.len() - i,
{
    if i >= s.len() || i < 0 {
        s.len() as int
    } else if s[i] == c {
        i
    } else {
        next_char(s, c, i + 1)
    }
}

pub proof fn lemma_next_char(s: Seq<char>, c: char, i: int)
    requires
        0 <= i <= s.len(),
    ensures
        i <= next_char(s, c, i) <= s.len(),
        next_char(s, c, i) < s.len() ==> s[next_char(s, c, i)] == c,
        forall|k: int| i <= k < next_char(s, c, i) ==> #[trigger] s[k] != c,
    decreases s.len() - i,
{
    if i < s.len() && s[i] != c {
        lemma_next_char(s, c, i + 1);
    }
}

/// A position from `i` on with nothing but other characters before it and `c`
/// (or the end) on it is the one that `next_char` gives.
pub proof fn lemma_next_char_is(s: Seq<char>, c: char, i: int, j: int)
    requires
        0 <= i <= j <= s.len(),
        j < s.len() ==> s[j] == c,
        forall|k: int| i <= k < j ==> #[trigger] s[k] != c,
    ensures
        next_char(s, c, i) == j,
    decreases s.len() - i,
{
    if i < j {
        lemma_next_char_is(s, c, i + 1, j);
    }
}

pub(crate) fn find_char(v: &Vec<char>, c: char, from: usize) -> (r: usize)
    requires
        from <= v@.len(),
    ensures
        r == next_char(v@, c, from as int),
        from <= r <= v@.len(),
        r < v@.len() ==> v@[r as int] == c,
{
    let mut i: usize = from;
    while i < v.len() && v[i] != c
        invariant
            from <= i <= v@.len(),
            next_char(v@, c, from as int) == next_char(v@, c, i as int),
        decreases v@.len() - i,
    {
        i = i + 1;
    }
    i
}

/// Whether `pat` stands in `s` at position `i`.
pub open spec fn matches_at(s: Seq<char>, pat: Seq<char>, i: int) -> bool {
    0 <= i && i + pat.len() <= s.len() && s.subrange(i, i + pat.len()) == pat
}

/// The first position from `i` on at which `pat` stands in `s`.
pub open spec fn next_match(s: Seq<char>, pat: Seq<char>, i: int) -> Option<int>
    decreases s.len() - i,
{
    if i < 0 || i + pat.len() > s.len() {
        None
    } else if matches_at(s, pat, i) {
        Some(i)
    } else if i >= s.len() {
        None
    } else {
        next_match(s, pat, i + 1)
    }
}

/// Whether `pat` stands somewhere in `s`.
pub open spec fn holds(s: Seq<char>, pat: Seq<char>) -> bool {
    next_match(s, pat, 0) is Some
}

/// How often `pat` stands in `s` from `i` on, each time behind the last.
pub open spec fn count_from(s: Seq<char>, pat: Seq<char>, i: int) -> nat
    decreases s.len() - i,
{
    match next_match(s, pat, i) {
        Some(j) => if i <= j && pat.len() > 0 && j + pat.len() <= s.len() {
            1 + count_from(s, pat, (j + pat.len()) as int)
        } else {
            0
        },
        None => 0,
    }
}

pub proof fn lemma_next_match(s: Seq<char>, pat: Seq<char>, i: int)
    requires
        0 <= i <= s.len(),
    ensures
        match next_match(s, pat, i) {
            Some(j) => i <= j && matches_at(s, pat, j) && forall|k: int|
                i <= k < j ==> !#[trigger] matches_at(s, pat, k),
            None => forall|k: int| i <= k ==> !#[trigger] matches_at(s, pat, k),
        },
    decreases s.len() - i,
{
    if i + pat.len() <= s.len() && !matches_at(s, pat, i) && i < s.len() {
        lemma_next_match(s, pat, i + 1);
    }
}

pub(crate) fn pattern_at(v: &Vec<char>, pat: &Vec<char>, i: usize) -> (r: bool)
    requires
        i <= v@.len(),
    ensures
        r == matches_at(v@, pat@, i as int),
{
    if pat.len() > v.len() - i {
        return false;
    }
    let n: usize = v.len();
    let mut k: usize = 0;
    while k < pat.len()
        invariant
            k <= pat@.len(),
            n == v@.len(),
            i + pat@.len() <= n,
            forall|j: int| 0 <= j < k ==> v@[i + j] == pat@[j],
        decreases pat@.len() - k,
    {
        if v[i + k] != pat[k] {
            assert(v@.subrange(i as int, i + pat@.len())[k as int] != pat@[k as int]);
            return false;
        }
        k = k + 1;
    }
    assert(v@.subrange(i as int, i + pat@.len()) =~= pat@);
    true
}

pub(crate) fn find_pattern(v: &Vec<char>, pat: &Vec<char>, from: usize) -> (r: Option<usize>)
    requires
        from <= v@.len(),
    ensures
        match r {
            Some(j) => next_match(v@, pat@, from as int) == Some(j as int) && j + pat@.len()
                <= v@.len() && from <= j,
            None => next_match(v@, pat@, from as int) is None,
        },
{
    let mut i: usize = from;
    loop
        invariant
            from <= i <= v@.len(),
            next_match(v@, pat@, from as int) == next_match(v@, pat@, i as int),
        decreases v@.len() - i,
    {
        if pat.len() > v.len() - i {
            return None;
        }
        if pattern_at(v, pat, i) {
            return Some(i);
        }
        if i >= v.len() {
            return None;
        }
        i = i + 1;
    }
}

/// Whether `pat` stands somewhere in `s`.
pub(crate) fn str_holds(s: &str, pat: &str) -> (r: bool)
    ensures
        r == holds(s@, pat@),
{
    let v = chars_of(s);
    let p = chars_of(pat);
    find_pattern(&v, &p, 0).is_some()
}

/// Whether `s` begins with `pat`.
pub open spec fn has_prefix(s: Seq<char>, pat: Seq<char>) -> bool {
    matches_at(s, pat, 0)
}

/// Whether `s` ends with `pat`.
pub open spec fn has_suffix(s: Seq<char>, pat: Seq<char>) -> bool {
    matches_at(s, pat, s.len() - pat.len())
}

pub(crate) fn starts_with(s: &str, pat: &str) -> (r: bool)
    ensures
        r == has_prefix(s@, pat@),
{
    let v = chars_of(s);
    let p = chars_of(pat);
    pattern_at(&v, &p, 0)
}

/// What follows the prefix `pat` of `s`.
pub(crate) fn after_prefix(s: &str, pat: &str) -> (r: Option<String>)
    ensures
        match r {
            Some(t) => has_prefix(s@, pat@) && t@ == s@.skip(pat@.len() as int),
            None => !has_prefix(s@, pat@),
        },
{
    let v = chars_of(s);
    let p = chars_of(pat);
    if pattern_at(&v, &p, 0) {
        assert(v@.subrange(p@.len() as int, v@.len() as int) =~= v@.skip(p@.len() as int));
        Some(string_range(&v, p.len(), v.len()))
    } else {
        None
    }
}

// ---------------------------------------------------------------------------
// Splitting and joining
// ---------------------------------------------------------------------------

/// The pieces of `s[i..]` between the occurrences of `c`.
pub open spec fn split_from(s: Seq<char>, c: char, i: int) -> Seq<Seq<char>>
    decreases s.len() - i,
{
    if i < 0 || i > s.len() {
        seq![]
    } else {
        let j = next_char(s, c, i);
        if i <= j < s.len() {
            seq![s.subrange(i, j)] + split_from(s, c, j + 1)
        } else {
            seq![s.subrange(i, s.len() as int)]
        }
    }
}

/// The pieces of `s` between the occurrences of `c`.
pub open spec fn split_on(s: Seq<char>, c: char) -> Seq<Seq<char>> {
    split_from(s, c, 0)
}

/// The model of a vector of strings.
pub open spec fn texts(v: Seq<String>) -> Seq<Seq<char>> {
    v.map_values(|s: String| s@)
}

pub(crate) fn split_char(s: &str, c: char) -> (r: Vec<String>)
    ensures
        texts(r@) == split_on(s@, c),
        r@.len() >= 1,
{
    let v = chars_of(s);
    let mut out: Vec<String> = Vec::new();
    let mut i: usize = 0;
    loop
        invariant
            v@ == s@,
            i <= v@.len(),
            split_on(s@, c) == texts(out@) + split_from(s@, c, i as int),
        decreases v@.len() - i,
    {
        let j: usize = find_char(&v, c, i);
        let ghost before = texts(out@);
        let ghost piece = v@.subrange(i as int, j as int);
        out.push(string_range(&v, i, j));
        assert(texts(out@) =~= before.push(piece));
        if j >= v.len() {
            assert(texts(out@) =~= before + seq![piece]);
            return out;
        }
        assert(before + (seq![piece] + split_from(s@, c, j + 1)) =~= texts(out@) + split_from(
            s@,
            c,
            j + 1,
        ));
        i = j + 1;
    }
}

/// The line that starts at `i`: up to the next line feed, without a carriage
/// return right before that line feed.
pub open spec fn line_at(s: Seq<char>, i: int) -> Seq<char> {
    let j = next_char(s, '\n', i);
    if i < j < s.len() && s[j - 1] == '\r' {
        s.subrange(i, j - 1)
    } else {
        s.subrange(i, j)
    }
}

/// The lines of `s[i..]`.
pub open spec fn lines_from(s: Seq<char>, i: int) -> Seq<Seq<char>>
    decreases s.len() - i,
{
    if i < 0 || i >= s.len() {
        seq![]
    } else {
        let j = next_char(s, '\n', i);
        if i <= j < s.len() {
            seq![line_at(s, i)] + lines_from(s, j + 1)
        } else {
            seq![line_at(s, i)]
        }
    }
}

/// The lines of `s`, as a text file has them: each ends with a line feed, or
/// a carriage return and a line feed, and the last may end with neither.
pub open spec fn lines(s: Seq<char>) -> Seq<Seq<char>> {
    lines_from(s, 0)
}

pub(crate) fn lines_of(s: &str) -> (r: Vec<String>)
    ensures
        texts(r@) == lines(s@),
{
    let v = chars_of(s);
    let mut out: Vec<String> = Vec::new();
    let mut i: usize = 0;
    while i < v.len()
        invariant
            v@ == s@,
            i <= v@.len(),
            lines(s@) == texts(out@) + lines_from(s@, i as int),
        decreases v@.len() - i,
    {
        let j: usize = find_char(&v, '\n', i);
        let end: usize = if i < j && j < v.len() && v[j - 1] == '\r' {
            j - 1
        } else {
            j
        };
        let ghost before = texts(out@);
        out.push(string_range(&v, i, end));
        assert(texts(out@) =~= before.push(line_at(s@, i as int)));
        if j >= v.len() {
            assert(texts(out@) =~= before + seq![line_at(s@, i as int)]);
            return out;
        }
        assert(before + (seq![line_at(s@, i as int)] + lines_from(s@, j + 1)) =~= texts(out@)
            + lines_from(s@, j + 1));
        i = j + 1;
    }
    assert(texts(out@) + lines_from(s@, i as int) =~= texts(out@));
    out
}

/// `parts` with `sep` between each two.
pub open spec fn join(parts: Seq<Seq<char>>, sep: Seq<char>) -> Seq<char>
    decreases parts.len(),
{
    if parts.len() == 0 {
        seq![]
    } else if parts.len() == 1 {
        parts[0]
    } else {
        join(parts.drop_last(), sep) + sep + parts.last()
    }
}

pub(crate) fn join_strings(parts: &Vec<String>, sep: &str) -> (r: String)
    ensures
        r@ == join(texts(parts@), sep@),
{
    let mut out = String::new();
    let mut i: usize = 0;
    while i < parts.len()
        invariant
            i <= parts@.len(),
            out@ == join(texts(parts@).take(i as int), sep@),
        decreases parts@.len() - i,
    {
        if i > 0 {
            out.append(sep);
        }
        out.append(parts[i].as_str());
        proof {
            let t = texts(parts@).take(i + 1);
            assert(t.drop_last() =~= texts(parts@).take(i as int));
            assert(t.last() == parts@[i as int]@);
            if i == 0 {
                assert(out@ =~= t[0]);
            }
        }
        i = i + 1;
    }
    assert(texts(parts@).take(parts@.len() as int) =~= texts(parts@));
    out
}

/// `s[i..]` with each occurrence of `from`, read from the left, replaced by `to`.
pub open spec fn replace_from(s: Seq<char>, from: Seq<char>, to: Seq<char>, i: int) -> Seq<char>
    decreases s.len() - i,
{
    if i < 0 || i > s.len() || from.len() == 0 {
        seq![]
    } else {
        match next_match(s, from, i) {
            Some(j) => if i <= j && j + from.len() <= s.len() {
                s.subrange(i, j) + to + replace_from(s, from, to, j + from.len())
            } else {
                seq![]
            },
            None => s.subrange(i, s.len() as int),
        }
    }
}

/// `s` with each occurrence of `from` replaced by `to`.
pub open spec fn replace_all(s: Seq<char>, from: Seq<char>, to: Seq<char>) -> Seq<char> {
    replace_from(s, from, to, 0)
}

pub(crate) fn replace_str(s: &str, from: &str, to: &str) -> (r: String)
    requires
        from@.len() > 0,
    ensures
        r@ == replace_all(s@, from@, to@),
{
    let v = chars_of(s);
    let p = chars_of(from);
    let n: usize = v.len();
    let mut out = String::new();
    let mut i: usize = 0;
    loop
        invariant
            v@ == s@,
            n == v@.len(),
            p@ == from@,
            p@.len() > 0,
            i <= v@.len(),
            replace_all(s@, from@, to@) == out@ + replace_from(s@, from@, to@, i as int),
        decreases v@.len() - i,
    {
        match find_pattern(&v, &p, i) {
            Some(j) => {
                let ghost before = out@;
                out.append(string_range(&v, i, j).as_str());
                out.append(to);
                assert(before + (s@.subrange(i as int, j as int) + to@ + replace_from(
                    s@,
                    from@,
                    to@,
                    j + from@.len(),
                )) =~= out@ + replace_from(s@, from@, to@, j + from@.len()));
                assert(j + p@.len() <= n);
                i = j + p.len();
            },
            None => {
                out.append(string_range(&v, i, v.len()).as_str());
                return out;
            },
        }
    }
}

// ---------------------------------------------------------------------------
// Case, quoting
// ---------------------------------------------------------------------------

/// The lower-case form of a text by the Unicode tables, as `str::to_lowercase`
/// of std gives it.
pub uninterp spec fn lowercase(s: Seq<char>) -> Seq<char>;

/// The lower-case form of an ASCII character.
pub open spec fn ascii_lower(c: char) -> char {
    if 'A' <= c <= 'Z' {
        (c as int + 32) as char
    } else {
        c
    }
}

/// Whether every character of `s` is ASCII.
pub open spec fn all_ascii(s: Seq<char>) -> bool {
    forall|i: int| 0 <= i < s.len() ==> (#[trigger] s[i] as int) < 128
}

/// `str::to_lowercase` of std. The result is a function of the text, and holds
/// none of `A` to `Z`; on ASCII text it maps these one by one to `a` to `z` and
/// keeps the rest.
#[verifier::external_body]
pub(crate) fn lower(s: &str) -> (r: String)
    ensures
        r@ == lowercase(s@),
        all_ascii(s@) ==> r@ == s@.map_values(|c: char| ascii_lower(c)),
        forall|i: int| 0 <= i < r@.len() ==> !('A' <= #[trigger] r@[i] <= 'Z'),
{
    s.to_lowercase()
}

/// The text that the `Debug` form of a string shows: quoted and escaped.
pub uninterp spec fn debug_text(s: Seq<char>) -> Seq<char>;

/// The `Debug` form of a string (`format!("{:?}")` of std).
#[verifier::external_body]
pub(crate) fn quoted(s: &str) -> (r: String)
    ensures
        r@ == debug_text(s@),
{
    format!("{:?}", s)
}

/// Whether `c` is an ASCII letter or digit.
pub open spec fn is_alnum(c: char) -> bool {
    '0' <= c <= '9' || 'A' <= c <= 'Z' || 'a' <= c <= 'z'
}

pub(crate) fn is_alnum_char(c: char) -> (r: bool)
    ensures
        r == is_alnum(c),
{
    ('0' <= c && c <= '9') || ('A' <= c && c <= 'Z') || ('a' <= c && c <= 'z')
}

/// The model of an optional string.
pub open spec fn opt_text(o: Option<String>) -> Option<Seq<char>> {
    match o {
        Some(s) => Some(s@),
        None => None,
    }
}

/// A copy of a vector of strings.
pub(crate) fn copy_strings(v: &Vec<String>) -> (r: Vec<String>)
    ensures
        texts(r@) == texts(v@),
{
    let mut out: Vec<String> = Vec::new();
    let mut i: usize = 0;
    while i < v.len()
        invariant
            i <= v@.len(),
            texts(out@) == texts(v@).take(i as int),
        decreases v@.len() - i,
    {
        let ghost before = texts(out@);
        out.push(v[i].clone());
        assert(texts(out@) =~= before.push(v@[i as int]@));
        assert(texts(v@).take(i + 1) =~= texts(v@).take(i as int).push(v@[i as int]@));
        i = i + 1;
    }
    assert(texts(v@).take(v@.len() as int) =~= texts(v@));
    out
}

/// A copy of an optional string.
pub(crate) fn copy_opt(o: &Option<String>) -> (r: Option<String>)
    ensures
        opt_text(r) == opt_text(*o),
{
    match o {
        Some(s) => Some(s.clone()),
        None => None,
    }
}

/// Whether a vector of strings holds `s`.
pub(crate) fn has_string(v: &Vec<String>, s: &str) -> (r: bool)
    ensures
        r == texts(v@).contains(s@),
{
    let mut i: usize = 0;
    while i < v.len()
        invariant
            i <= v@.len(),
            forall|k: int| 0 <= k < i ==> #[trigger] v@[k]@ != s@,
        decreases v@.len() - i,
    {
        if str_eq(v[i].as_str(), s) {
            assert(texts(v@)[i as int] == s@);
            return true;
        }
        i = i + 1;
    }
    assert forall|k: int| 0 <= k < texts(v@).len() implies #[trigger] texts(v@)[k] != s@ by {
        assert(v@[k]@ != s@);
    }
    false
}

// ---------------------------------------------------------------------------
// Joining lines and reading them back
// ---------------------------------------------------------------------------

proof fn lemma_next_char_shift(p: Seq<char>, t: Seq<char>, c: char, i: int)
    requires
        0 <= i <= t.len(),
    ensures
        next_char(p + t, c, p.len() + i) == p.len() + next_char(t, c, i),
{
    lemma_next_char(t, c, i);
    let j = next_char(t, c, i);
    assert forall|k: int| p.len() + i <= k < p.len() + j implies #[trigger] (p + t)[k] != c by {
        assert((p + t)[k] == t[k - p.len()]);
    }
    lemma_next_char_is(p + t, c, p.len() + i, p.len() + j);
}

proof fn lemma_split_shift(p: Seq<char>, t: Seq<char>, c: char, i: int)
    requires
        0 <= i <= t.len(),
    ensures
        split_from(p + t, c, p.len() + i) == split_from(t, c, i),
    decreases t.len() - i,
{
    let s = p + t;
    let n = p.len() as int;
    lemma_next_char_shift(p, t, c, i);
    lemma_next_char(t, c, i);
    let j = next_char(t, c, i);
    if j < t.len() {
        assert(s.subrange(n + i, n + j) =~= t.subrange(i, j));
        lemma_split_shift(p, t, c, j + 1);
    } else {
        assert(s.subrange(n + i, s.len() as int) =~= t.subrange(i, t.len() as int));
    }
}

proof fn lemma_split_front(a: Seq<char>, b: Seq<char>, c: char, i: int)
    requires
        0 <= i <= a.len(),
    ensures
        split_from(a + seq![c] + b, c, i) == split_from(a, c, i) + split_on(b, c),
    decreases a.len() - i,
{
    let s = a + seq![c] + b;
    lemma_next_char(a, c, i);
    let j = next_char(a, c, i);
    if j < a.len() {
        assert forall|k: int| i <= k < j implies #[trigger] s[k] != c by {
            assert(s[k] == a[k]);
        }
        assert(s[j] == c);
        lemma_next_char_is(s, c, i, j);
        assert(s.subrange(i, j) =~= a.subrange(i, j));
        lemma_split_front(a, b, c, j + 1);
        assert(seq![a.subrange(i, j)] + (split_from(a, c, j + 1) + split_on(b, c)) =~= (seq![
            a.subrange(i, j),
        ] + split_from(a, c, j + 1)) + split_on(b, c));
    } else {
        let m = a.len() as int;
        assert forall|k: int| i <= k < m implies #[trigger] s[k] != c by {
            assert(s[k] == a[k]);
        }
        assert(s[m] == c);
        lemma_next_char_is(s, c, i, m);
        assert(s.subrange(i, m) =~= a.subrange(i, m));
        let p = a + seq![c];
        assert(s =~= p + b);
        lemma_split_shift(p, b, c, 0);
    }
}

/// Splitting two texts with a separator between them gives the pieces of both.
pub proof fn lemma_split_joined(a: Seq<char>, b: Seq<char>, c: char)
    ensures
        split_on(a + seq![c] + b, c) == split_on(a, c) + split_on(b, c),
{
    lemma_split_front(a, b, c, 0);
}

/// No piece of a text holds the character it was split on.
pub proof fn lemma_pieces_are_plain(s: Seq<char>, c: char, i: int)
    requires
        0 <= i <= s.len(),
    ensures
        forall|k: int|
            0 <= k < split_from(s, c, i).len() ==> !(#[trigger] split_from(s, c, i)[k]).contains(c),
    decreases s.len() - i,
{
    lemma_next_char(s, c, i);
    let j = next_char(s, c, i);
    let all = split_from(s, c, i);
    let first = s.subrange(i, j);
    assert(!first.contains(c)) by {
        if first.contains(c) {
            let m = choose|m: int| 0 <= m < first.len() && first[m] == c;
            assert(s[i + m] == c);
        }
    }
    if j < s.len() {
        lemma_pieces_are_plain(s, c, j + 1);
        let rest = split_from(s, c, j + 1);
        assert forall|k: int| 0 <= k < all.len() implies !(#[trigger] all[k]).contains(c) by {
            if k > 0 {
                assert(all[k] == rest[k - 1]);
            }
        }
    }
}

/// Pieces that are joined by a character that none of them holds are split again.
pub proof fn lemma_split_join(parts: Seq<Seq<char>>, c: char)
    requires
        parts.len() > 0,
        forall|k: int| 0 <= k < parts.len() ==> !(#[trigger] parts[k]).contains(c),
    ensures
        split_on(join(parts, seq![c]), c) == parts,
    decreases parts.len(),
{
    let last = parts.last();
    assert(split_on(last, c) =~= seq![last]) by {
        assert forall|k: int| 0 <= k < last.len() implies #[trigger] last[k] != c by {
            if last[k] == c {
                assert(parts[parts.len() - 1].contains(c));
            }
        }
        lemma_next_char_is(last, c, 0, last.len() as int);
        assert(last.subrange(0, last.len() as int) =~= last);
    }
    if parts.len() > 1 {
        let front = parts.drop_last();
        assert forall|k: int| 0 <= k < front.len() implies !(#[trigger] front[k]).contains(c) by {
            assert(front[k] == parts[k]);
        }
        lemma_split_join(front, c);
        lemma_split_joined(join(front, seq![c]), last, c);
        assert(front + seq![last] =~= parts);
    } else {
        assert(seq![last] =~= parts);
    }
}

/// The pieces of a text, joined again, are the text.
pub proof fn lemma_join_split(s: Seq<char>, c: char, i: int)
    requires
        0 <= i <= s.len(),
    ensures
        split_from(s, c, i).len() > 0,
        join(split_from(s, c, i), seq![c]) == s.skip(i),
    decreases s.len() - i,
{
    lemma_next_char(s, c, i);
    let j = next_char(s, c, i);
    let all = split_from(s, c, i);
    if j < s.len() {
        lemma_join_split(s, c, j + 1);
        let rest = split_from(s, c, j + 1);
        assert(all.skip(1) =~= rest);
        lemma_join_front(all, seq![c]);
        assert(s.subrange(i, j) + seq![c] + s.skip(j + 1) =~= s.skip(i));
    } else {
        assert(s.subrange(i, s.len() as int) =~= s.skip(i));
    }
}

proof fn lemma_lines_shift(p: Seq<char>, t: Seq<char>, i: int)
    requires
        0 <= i <= t.len(),
        p.len() > 0 ==> p.last() == '\n',
    ensures
        lines_from(p + t, p.len() + i) == lines_from(t, i),
    decreases t.len() - i,
{
    if i < t.len() {
        lemma_next_char_shift(p, t, '\n', i);
        lemma_next_char(t, '\n', i);
        let j = next_char(t, '\n', i);
        let s = p + t;
        assert(line_at(s, p.len() + i) =~= line_at(t, i)) by {
            assert(s.subrange(p.len() + i, p.len() + j) =~= t.subrange(i, j));
            if i < j < t.len() {
                assert(s[p.len() + j - 1] == t[j - 1]);
                assert(s.subrange(p.len() + i, p.len() + j - 1) =~= t.subrange(i, j - 1));
            }
        }
        if j < t.len() {
            lemma_lines_shift(p, t, j + 1);
        }
    }
}

/// Joining from the front: the first part, the separator, the rest joined.
pub proof fn lemma_join_front(parts: Seq<Seq<char>>, sep: Seq<char>)
    requires
        parts.len() > 1,
    ensures
        join(parts, sep) == parts[0] + sep + join(parts.skip(1), sep),
    decreases parts.len(),
{
    if parts.len() == 2 {
        assert(parts.drop_last() =~= seq![parts[0]]);
        assert(parts.skip(1) =~= seq![parts[1]]);
        assert(join(seq![parts[0]], sep) == parts[0]);
        assert(join(seq![parts[1]], sep) == parts[1]);
    } else {
        lemma_join_front(parts.drop_last(), sep);
        assert(parts.drop_last().skip(1) =~= parts.skip(1).drop_last());
        assert(parts.skip(1).last() == parts.last());
        let mid = join(parts.skip(1).drop_last(), sep);
        assert(parts[0] + sep + mid + sep + parts.last() =~= parts[0] + sep + (mid + sep
            + parts.last()));
    }
}

/// Whether `out` reads as the lines `ls` once they are joined by line feeds: each
/// the same, or without a carriage return at its end, and an empty last one
/// gone.
pub open spec fn reads_as(ls: Seq<Seq<char>>, out: Seq<Seq<char>>) -> bool {
    &&& out.len() == ls.len() || out.len() + 1 == ls.len() && ls.last().len() == 0
    &&& forall|k: int|
        0 <= k < out.len() ==> #[trigger] out[k] == ls[k] || ls[k].len() > 0 && ls[k].last() == '\r'
            && out[k] == ls[k].drop_last()
}

/// How lines that are joined by line feeds read.
pub proof fn lemma_joined_lines(ls: Seq<Seq<char>>)
    requires
        ls.len() > 0,
        forall|k: int, m: int|
            0 <= k < ls.len() && 0 <= m < ls[k].len() ==> #[trigger] ls[k][m] != '\n',
    ensures
        reads_as(ls, lines(join(ls, "\n"@))),
    decreases ls.len(),
{
    reveal_strlit("\n");
    let sep = "\n"@;
    let first = ls[0];
    let n = first.len() as int;
    if ls.len() == 1 {
        lemma_next_char_is(first, '\n', 0, n);
        assert(first.subrange(0, n) =~= first);
        assert(lines_from(first, 0) =~= if n > 0 {
            ls
        } else {
            seq![]
        });
    } else {
        let rest = ls.skip(1);
        lemma_join_front(ls, sep);
        assert forall|k: int, m: int|
            0 <= k < rest.len() && 0 <= m < rest[k].len() implies #[trigger] rest[k][m] != '\n' by {
            assert(rest[k][m] == ls[k + 1][m]);
        }
        assert(rest.last() == ls.last());
        lemma_joined_lines(rest);
        let t = join(rest, sep);
        let p = first + sep;
        let s = p + t;
        assert(join(ls, sep) == s);
        assert(s[n] == '\n');
        assert forall|k: int| 0 <= k < n implies #[trigger] s[k] != '\n' by {
            assert(s[k] == ls[0][k]);
        }
        lemma_next_char_is(s, '\n', 0, n);
        lemma_lines_shift(p, t, 0);
        assert(s.subrange(0, n) =~= first);
        if n > 0 {
            assert(s[n - 1] == first.last());
            assert(s.subrange(0, n - 1) =~= first.drop_last());
        }
        let out = lines(s);
        let more = lines(t);
        assert(out =~= seq![line_at(s, 0)] + more);
        assert forall|k: int| 0 <= k < out.len() implies #[trigger] out[k] == ls[k] || ls[k].len()
            > 0 && ls[k].last() == '\r' && out[k] == ls[k].drop_last() by {
            if k > 0 {
                assert(out[k] == more[k - 1]);
                assert(rest[k - 1] == ls[k]);
            }
        }
    }
}

proof fn lemma_lines_have_no_break(s: Seq<char>, i: int)
    requires
        0 <= i,
    ensures
        forall|k: int, m: int|
            0 <= k < lines_from(s, i).len() && 0 <= m < lines_from(s, i)[k].len()
                ==> #[trigger] lines_from(s, i)[k][m] != '\n',
    decreases s.len() - i,
{
    if i < s.len() {
        lemma_next_char(s, '\n', i);
        let j = next_char(s, '\n', i);
        let l = line_at(s, i);
        assert forall|m: int| 0 <= m < l.len() implies #[trigger] l[m] != '\n' by {
            assert(l[m] == s[i + m]);
        }
        if j < s.len() {
            lemma_lines_have_no_break(s, j + 1);
            let rest = lines_from(s, j + 1);
            assert forall|k: int, m: int|
                0 <= k < lines_from(s, i).len() && 0 <= m < lines_from(s, i)[k].len() implies
                #[trigger] lines_from(s, i)[k][m] != '\n' by {
                if k > 0 {
                    assert(lines_from(s, i)[k] == rest[k - 1]);
                    assert(rest[k - 1][m] != '\n');
                } else {
                    assert(lines_from(s, i)[k] == l);
                }
            }
        } else {
            assert forall|k: int, m: int|
                0 <= k < lines_from(s, i).len() && 0 <= m < lines_from(s, i)[k].len() implies
                #[trigger] lines_from(s, i)[k][m] != '\n' by {
                assert(lines_from(s, i)[k] == l);
            }
        }
    }
}

/// No line of a text holds a line feed.
pub proof fn lemma_lines(s: Seq<char>)
    ensures
        forall|k: int, m: int|
            0 <= k < lines(s).len() && 0 <= m < lines(s)[k].len() ==> #[trigger] lines(s)[k][m]
                != '\n',
{
    lemma_lines_have_no_break(s, 0);
}

} // verus!

//! What a rename does to the links of a text: each link to the renamed note
//! gets the new target, and every other link stays.
use crate::text::{
    lemma_next_char, lemma_next_char_is, lemma_next_match, matches_at, next_char, next_match,
    replace_all, replace_from,
};
use crate::vault::index::{leads_to, lemma_find_from, note_at};
use crate::vault::parse::{link_end, link_parts, wikilinks_from};
use crate::vault::rename::{
    is_target, law_rebuilt_link_keeps_its_parts, lemma_trim_keeps_out, rebuilt, rebuilt_inner,
    rewritten, rewritten_from, Rewrite,
};
use crate::vault::types::{LinkView, NoteView};
use vstd::prelude::*;

verus! {

/// A text without brackets, and not empty.
pub open spec fn is_plain(x: Seq<char>) -> bool {
    x.len() > 0 && forall|k: int| 0 <= k < x.len() ==> #[trigger] x[k] != '[' && x[k] != ']'
}

/// A wikilink with the given text inside.
pub open spec fn bracketed(x: Seq<char>) -> Seq<char> {
    "[["@ + x + "]]"@
}

/// The inside of a wikilink.
pub open spec fn inner_of(raw: Seq<char>) -> Seq<char> {
    raw.subrange(2, raw.len() - 2)
}

/// A link as it is read from a wikilink without a bracket inside.
pub open spec fn is_plain_link(l: LinkView) -> bool {
    &&& l.raw == bracketed(inner_of(l.raw))
    &&& is_plain(inner_of(l.raw))
    &&& l == link_parts(inner_of(l.raw), l.raw)
}

spec fn all_plain(ls: Seq<LinkView>) -> bool {
    forall|k: int| 0 <= k < ls.len() ==> is_plain_link(#[trigger] ls[k])
}

proof fn lemma_bracketed(x: Seq<char>)
    ensures
        bracketed(x).len() == x.len() + 4,
        bracketed(x)[0] == '[',
        bracketed(x)[1] == '[',
        bracketed(x)[x.len() as int + 2] == ']',
        bracketed(x)[x.len() as int + 3] == ']',
        forall|k: int| 0 <= k < x.len() ==> bracketed(x)[k + 2] == #[trigger] x[k],
        inner_of(bracketed(x)) == x,
{
    reveal_strlit("[[");
    reveal_strlit("]]");
    assert(inner_of(bracketed(x)) =~= x);
}

// ---------------------------------------------------------------------------
// Replacing, step by step
// ---------------------------------------------------------------------------

proof fn lemma_replace_hit(c: Seq<char>, raw: Seq<char>, new: Seq<char>, i: int)
    requires
        matches_at(c, raw, i),
        raw.len() > 0,
    ensures
        replace_from(c, raw, new, i) == new + replace_from(c, raw, new, i + raw.len()),
{
    assert(next_match(c, raw, i) == Some(i));
    assert(c.subrange(i, i) + new =~= new);
}

proof fn lemma_replace_pass(c: Seq<char>, raw: Seq<char>, new: Seq<char>, i: int)
    requires
        0 <= i < c.len(),
        raw.len() > 0,
        !matches_at(c, raw, i),
    ensures
        replace_from(c, raw, new, i) == seq![c[i]] + replace_from(c, raw, new, i + 1),
{
    lemma_next_match(c, raw, i);
    lemma_next_match(c, raw, i + 1);
    assert(next_match(c, raw, i) == next_match(c, raw, i + 1));
    match next_match(c, raw, i + 1) {
        Some(j) => {
            assert(c.subrange(i, j) =~= seq![c[i]] + c.subrange(i + 1, j));
            let rest = replace_from(c, raw, new, j + raw.len());
            assert(seq![c[i]] + (c.subrange(i + 1, j) + new + rest) =~= (seq![c[i]] + c.subrange(
                i + 1,
                j,
            )) + new + rest);
        },
        None => {
            assert(c.subrange(i, c.len() as int) =~= seq![c[i]] + c.subrange(
                i + 1,
                c.len() as int,
            ));
        },
    }
}

proof fn lemma_replace_span(c: Seq<char>, raw: Seq<char>, new: Seq<char>, i: int, j: int)
    requires
        0 <= i <= j <= c.len(),
        raw.len() > 0,
        forall|p: int| i <= p < j ==> !#[trigger] matches_at(c, raw, p),
    ensures
        replace_from(c, raw, new, i) == c.subrange(i, j) + replace_from(c, raw, new, j),
    decreases j - i,
{
    if i < j {
        lemma_replace_pass(c, raw, new, i);
        lemma_replace_span(c, raw, new, i + 1, j);
        assert(c.subrange(i, j) =~= seq![c[i]] + c.subrange(i + 1, j));
        let rest = replace_from(c, raw, new, j);
        assert(seq![c[i]] + (c.subrange(i + 1, j) + rest) =~= (seq![c[i]] + c.subrange(i + 1, j))
            + rest);
    } else {
        assert(c.subrange(i, j) + replace_from(c, raw, new, j) =~= replace_from(c, raw, new, j));
    }
}

/// Replacing one wikilink by another keeps the first character.
proof fn lemma_replace_first(c: Seq<char>, x: Seq<char>, y: Seq<char>, i: int)
    requires
        0 <= i < c.len(),
    ensures
        replace_from(c, bracketed(x), bracketed(y), i).len() > 0,
        replace_from(c, bracketed(x), bracketed(y), i)[0] == c[i],
{
    lemma_bracketed(x);
    lemma_bracketed(y);
    if matches_at(c, bracketed(x), i) {
        lemma_replace_hit(c, bracketed(x), bracketed(y), i);
        assert(c.subrange(i, i + bracketed(x).len())[0] == c[i]);
    } else {
        lemma_replace_pass(c, bracketed(x), bracketed(y), i);
    }
}

// ---------------------------------------------------------------------------
// Links behind a text
// ---------------------------------------------------------------------------

proof fn lemma_next_char_shift(a: Seq<char>, b: Seq<char>, c: char, i: int)
    requires
        0 <= i <= b.len(),
    ensures
        next_char(a + b, c, a.len() + i) == a.len() + next_char(b, c, i),
{
    lemma_next_char(b, c, i);
    let j = next_char(b, c, i);
    let s = a + b;
    assert forall|k: int| a.len() + i <= k < a.len() + j implies #[trigger] s[k] != c by {
        assert(s[k] == b[k - a.len()]);
    }
    if j < b.len() {
        assert(s[a.len() + j] == b[j]);
    }
    lemma_next_char_is(s, c, a.len() + i, a.len() + j);
}

proof fn lemma_link_end_shift(a: Seq<char>, b: Seq<char>, i: int)
    requires
        0 <= i <= b.len(),
    ensures
        link_end(a + b, a.len() + i) == match link_end(b, i) {
            Some(j) => Some(a.len() + j),
            None => None,
        },
{
    let s = a + b;
    let at = a.len() + i;
    if i + 2 <= b.len() {
        assert(s[at] == b[i]);
        assert(s[at + 1] == b[i + 1]);
        lemma_next_char_shift(a, b, ']', i + 2);
        lemma_next_char(b, ']', i + 2);
        let j = next_char(b, ']', i + 2);
        if j + 1 < b.len() {
            assert(s[a.len() + j + 1] == b[j + 1]);
        }
    }
}

pub proof fn lemma_links_shift(a: Seq<char>, b: Seq<char>, i: int)
    requires
        0 <= i <= b.len(),
    ensures
        wikilinks_from(a + b, a.len() + i) == wikilinks_from(b, i),
    decreases b.len() - i,
{
    if i < b.len() {
        let s = a + b;
        let n = a.len() as int;
        lemma_link_end_shift(a, b, i);
        match link_end(b, i) {
            Some(j) => {
                assert(s.subrange(n + i + 2, n + j) =~= b.subrange(i + 2, j));
                assert(s.subrange(n + i, n + j + 2) =~= b.subrange(i, j + 2));
                lemma_links_shift(a, b, j + 2);
            },
            None => {
                lemma_links_shift(a, b, i + 1);
            },
        }
    }
}

/// What a link that is read from a text is made of.
proof fn lemma_link_read(c: Seq<char>, i: int, j: int)
    requires
        link_end(c, i) == Some(j),
    ensures
        0 <= i,
        i + 2 < j,
        j + 2 <= c.len(),
        c.subrange(i, j + 2) == bracketed(c.subrange(i + 2, j)),
        inner_of(c.subrange(i, j + 2)) == c.subrange(i + 2, j),
        forall|k: int| i + 2 <= k < j ==> #[trigger] c[k] != ']',
        c[j] == ']',
        c[j + 1] == ']',
{
    reveal_strlit("[[");
    reveal_strlit("]]");
    lemma_next_char(c, ']', i + 2);
    assert(c.subrange(i, j + 2) =~= bracketed(c.subrange(i + 2, j)));
    assert(inner_of(c.subrange(i, j + 2)) =~= c.subrange(i + 2, j));
}

/// Where a wikilink without a bracket inside stands, a link is read.
proof fn lemma_match_is_link(c: Seq<char>, x: Seq<char>, p: int)
    requires
        is_plain(x),
        matches_at(c, bracketed(x), p),
    ensures
        link_end(c, p) == Some(p + 2 + x.len()),
        c.subrange(p + 2, p + 2 + x.len()) == x,
        forall|k: int| p + 2 <= k < p + 2 + x.len() ==> #[trigger] c[k] != ']',
        c[p] == '[',
        c[p + 1] == '[',
        c[p + 2 + x.len()] == ']',
        c[p + 3 + x.len()] == ']',
{
    lemma_bracketed(x);
    let raw = bracketed(x);
    let w = c.subrange(p, p + raw.len());
    assert(w == raw);
    assert(w[0] == c[p] && w[1] == c[p + 1]);
    assert(w[x.len() as int + 2] == c[p + 2 + x.len()]);
    assert(w[x.len() as int + 3] == c[p + 3 + x.len()]);
    assert forall|k: int| p + 2 <= k < p + 2 + x.len() implies #[trigger] c[k] == x[k - p - 2] by {
        assert(w[k - p] == c[k]);
    }
    assert forall|k: int| p + 2 <= k < p + 2 + x.len() implies #[trigger] c[k] != ']' by {
        assert(c[k] == x[k - p - 2]);
    }
    lemma_next_char_is(c, ']', p + 2, p + 2 + x.len());
    assert(c.subrange(p + 2, p + 2 + x.len()) =~= x);
}

// ---------------------------------------------------------------------------
// Links after replacing one
// ---------------------------------------------------------------------------

/// Links with another in place of each whose text is `raw`.
pub open spec fn swapped(ls: Seq<LinkView>, raw: Seq<char>, by: LinkView) -> Seq<LinkView> {
    ls.map_values(
        |l: LinkView|
            if l.raw == raw {
                by
            } else {
                l
            },
    )
}

proof fn lemma_swapped_cons(l: LinkView, ls: Seq<LinkView>, raw: Seq<char>, by: LinkView)
    ensures
        swapped(seq![l] + ls, raw, by) == seq![
            if l.raw == raw {
                by
            } else {
                l
            },
        ] + swapped(ls, raw, by),
{
    assert(swapped(seq![l] + ls, raw, by) =~= seq![
        if l.raw == raw {
            by
        } else {
            l
        },
    ] + swapped(ls, raw, by));
}

/// A wikilink at the front of a text is its first link.
proof fn lemma_first_link(y: Seq<char>, rest: Seq<char>)
    requires
        is_plain(y),
    ensures
        wikilinks_from(bracketed(y) + rest, 0) == seq![link_parts(y, bracketed(y))]
            + wikilinks_from(rest, 0),
{
    lemma_bracketed(y);
    let new = bracketed(y);
    let t = new + rest;
    assert(t.subrange(0, new.len() as int) =~= new);
    assert(matches_at(t, new, 0));
    lemma_match_is_link(t, y, 0);
    assert(t.subrange(0, y.len() as int + 4) =~= new);
    lemma_links_shift(new, rest, 0);
}

/// No link stands at the front of a text that reads like one without a link
/// there up to the first closing bracket and the character behind it.
proof fn lemma_no_link(c: Seq<char>, x: Seq<char>, y: Seq<char>, i: int)
    requires
        0 <= i < c.len(),
        is_plain(x),
        link_end(c, i) is None,
    ensures
        replace_from(c, bracketed(x), bracketed(y), i) == seq![c[i]] + replace_from(
            c,
            bracketed(x),
            bracketed(y),
            i + 1,
        ),
        link_end(replace_from(c, bracketed(x), bracketed(y), i), 0) is None,
{
    let raw = bracketed(x);
    let new = bracketed(y);
    lemma_bracketed(x);
    lemma_bracketed(y);
    if matches_at(c, raw, i) {
        lemma_match_is_link(c, x, i);
    }
    lemma_replace_pass(c, raw, new, i);
    let t = replace_from(c, raw, new, i);
    if i + 1 < c.len() {
        lemma_replace_first(c, x, y, i + 1);
        assert(t[1] == c[i + 1]);
    } else {
        assert(replace_from(c, raw, new, i + 1) =~= seq![]) by {
            lemma_next_match(c, raw, i + 1);
        }
    }
    if i + 2 <= c.len() && c[i] == '[' && c[i + 1] == '[' {
        lemma_next_char(c, ']', i + 2);
        let j = next_char(c, ']', i + 2);
        assert forall|p: int| i <= p < j implies !#[trigger] matches_at(c, raw, p) by {
            if matches_at(c, raw, p) {
                lemma_match_is_link(c, x, p);
                let e = p + 2 + x.len();
                assert forall|k: int| i + 2 <= k < e implies #[trigger] c[k] != ']' by {
                    if k < j {
                    } else {
                        assert(p + 2 <= k);
                    }
                }
                lemma_next_char_is(c, ']', i + 2, e);
            }
        }
        lemma_replace_span(c, raw, new, i, j);
        let rest = replace_from(c, raw, new, j);
        assert forall|k: int| 2 <= k < j - i implies #[trigger] t[k] != ']' by {
            assert(t[k] == c[i + k]);
        }
        if j < c.len() {
            lemma_replace_first(c, x, y, j);
            assert(t[j - i] == rest[0]);
            assert(t[j - i] == ']');
            lemma_next_char_is(t, ']', 2, j - i);
            if matches_at(c, raw, j) {
                lemma_match_is_link(c, x, j);
            }
            lemma_replace_pass(c, raw, new, j);
            let behind = replace_from(c, raw, new, j + 1);
            assert(rest =~= seq![c[j]] + behind);
            if j + 1 < c.len() {
                lemma_replace_first(c, x, y, j + 1);
                assert(t[j + 1 - i] == behind[0]);
                assert(t[j + 1 - i] == c[j + 1]);
            } else {
                assert(behind =~= seq![]) by {
                    lemma_next_match(c, raw, j + 1);
                }
            }
        } else {
            assert(rest =~= seq![]) by {
                lemma_next_match(c, raw, j);
            }
            assert(t.len() == j - i);
            lemma_next_char_is(t, ']', 2, j - i);
        }
    }
}

/// Inside a link without a bracket inside no other such link begins.
proof fn lemma_no_match_in_link(c: Seq<char>, x: Seq<char>, i: int, j: int, p: int)
    requires
        is_plain(x),
        link_end(c, i) == Some(j),
        is_plain(c.subrange(i + 2, j)),
        c.subrange(i + 2, j) != x,
        i <= p < j + 2,
    ensures
        !matches_at(c, bracketed(x), p),
{
    if matches_at(c, bracketed(x), p) {
        lemma_link_read(c, i, j);
        lemma_match_is_link(c, x, p);
        let inner = c.subrange(i + 2, j);
        if p > i && p + 1 < j {
            assert(inner[p + 1 - i - 2] == c[p + 1]);
        }
    }
}

/// What replacing does at a link: the one that is meant gives way to the other,
/// and any other stays.
proof fn lemma_replace_link(c: Seq<char>, x: Seq<char>, y: Seq<char>, i: int, j: int)
    requires
        is_plain(x),
        link_end(c, i) == Some(j),
        is_plain(c.subrange(i + 2, j)),
    ensures
        replace_from(c, bracketed(x), bracketed(y), i) == bracketed(
            if c.subrange(i + 2, j) == x {
                y
            } else {
                c.subrange(i + 2, j)
            },
        ) + replace_from(c, bracketed(x), bracketed(y), j + 2),
{
    let raw = bracketed(x);
    let new = bracketed(y);
    let inner = c.subrange(i + 2, j);
    lemma_bracketed(x);
    lemma_link_read(c, i, j);
    if inner == x {
        assert(c.subrange(i, i + raw.len()) =~= raw);
        lemma_replace_hit(c, raw, new, i);
    } else {
        assert forall|p: int| i <= p < j + 2 implies !#[trigger] matches_at(c, raw, p) by {
            lemma_no_match_in_link(c, x, i, j, p);
        }
        lemma_replace_span(c, raw, new, i, j + 2);
    }
}

/// A link that is read from a text, told by its inside.
proof fn lemma_link_swapped(
    inner: Seq<char>,
    x: Seq<char>,
    y: Seq<char>,
    rest: Seq<LinkView>,
    after: Seq<char>,
)
    requires
        is_plain(inner),
        is_plain(x),
        is_plain(y),
        wikilinks_from(after, 0) == swapped(rest, bracketed(x), link_parts(y, bracketed(y))),
    ensures
        wikilinks_from(
            bracketed(
                if inner == x {
                    y
                } else {
                    inner
                },
            ) + after,
            0,
        ) == swapped(
            seq![link_parts(inner, bracketed(inner))] + rest,
            bracketed(x),
            link_parts(y, bracketed(y)),
        ),
{
    lemma_bracketed(x);
    lemma_bracketed(inner);
    assert(link_parts(inner, bracketed(inner)).raw == bracketed(inner));
    assert(bracketed(inner) == bracketed(x) <==> inner == x);
    lemma_swapped_cons(
        link_parts(inner, bracketed(inner)),
        rest,
        bracketed(x),
        link_parts(y, bracketed(y)),
    );
    if inner == x {
        lemma_first_link(y, after);
    } else {
        lemma_first_link(inner, after);
    }
}

/// The links of a text in which one wikilink was replaced by another: the one
/// has become the other, and every other link is as it was.
proof fn lemma_links_replaced(c: Seq<char>, x: Seq<char>, y: Seq<char>, i: int)
    requires
        0 <= i <= c.len(),
        is_plain(x),
        is_plain(y),
        all_plain(wikilinks_from(c, i)),
    ensures
        wikilinks_from(replace_from(c, bracketed(x), bracketed(y), i), 0) == swapped(
            wikilinks_from(c, i),
            bracketed(x),
            link_parts(y, bracketed(y)),
        ),
    decreases c.len() - i,
{
    let raw = bracketed(x);
    let new = bracketed(y);
    let all = wikilinks_from(c, i);
    if i < c.len() {
        match link_end(c, i) {
            Some(j) => {
                lemma_link_read(c, i, j);
                let inner = c.subrange(i + 2, j);
                let link = link_parts(inner, bracketed(inner));
                let rest = wikilinks_from(c, j + 2);
                assert(all == seq![link] + rest);
                assert(is_plain(inner)) by {
                    assert(is_plain_link(all[0]));
                    assert(link.raw == bracketed(inner));
                    lemma_bracketed(inner);
                }
                assert(all_plain(rest)) by {
                    assert forall|k: int| 0 <= k < rest.len() implies is_plain_link(
                        #[trigger] rest[k],
                    ) by {
                        assert(all[k + 1] == rest[k]);
                    }
                }
                lemma_links_replaced(c, x, y, j + 2);
                lemma_replace_link(c, x, y, i, j);
                lemma_link_swapped(inner, x, y, rest, replace_from(c, raw, new, j + 2));
            },
            None => {
                lemma_no_link(c, x, y, i);
                lemma_links_replaced(c, x, y, i + 1);
                lemma_links_shift(seq![c[i]], replace_from(c, raw, new, i + 1), 0);
            },
        }
    } else {
        lemma_bracketed(x);
        lemma_next_match(c, raw, i);
        assert(replace_from(c, raw, new, i) =~= seq![]);
        assert(swapped(all, raw, link_parts(y, new)) =~= seq![]);
    }
}

// ---------------------------------------------------------------------------
// Links after a rename
// ---------------------------------------------------------------------------

/// A link once the note `from` is `to`: one that led to it has the new target,
/// and its heading, block and alias as they were; any other is as it was.
pub open spec fn retargeted(
    s: Seq<NoteView>,
    l: LinkView,
    from: Seq<char>,
    to: Seq<char>,
) -> LinkView {
    if leads_to(s, l.target, from) {
        LinkView { target: to, raw: rebuilt(l, to), ..l }
    } else {
        l
    }
}

/// A heading that reads like a block.
pub open spec fn reads_like_block(l: LinkView) -> bool {
    l.heading matches Some(h) && h.len() > 0 && h[0] == '^'
}

proof fn lemma_parts_keep_out(inner: Seq<char>, raw: Seq<char>, c: char)
    requires
        forall|k: int| 0 <= k < inner.len() ==> #[trigger] inner[k] != c,
    ensures
        ({
            let l = link_parts(inner, raw);
            &&& l.heading matches Some(h) ==> forall|k: int|
                0 <= k < h.len() ==> #[trigger] h[k] != c
            &&& l.block matches Some(b) ==> forall|k: int| 0 <= k < b.len() ==> #[trigger] b[k] != c
            &&& l.alias matches Some(a) ==> forall|k: int| 0 <= k < a.len() ==> #[trigger] a[k] != c
        }),
{
    let bar = next_char(inner, '|', 0);
    lemma_next_char(inner, '|', 0);
    let link = if bar < inner.len() {
        inner.take(bar)
    } else {
        inner
    };
    if bar < inner.len() {
        let tail = inner.skip(bar + 1);
        assert forall|k: int| 0 <= k < tail.len() implies #[trigger] tail[k] != c by {
            assert(tail[k] == inner[bar + 1 + k]);
        }
        lemma_trim_keeps_out(tail, c);
    }
    let hash = next_char(link, '#', 0);
    lemma_next_char(link, '#', 0);
    if hash < link.len() {
        let after = link.skip(hash + 1);
        assert forall|k: int| 0 <= k < after.len() implies #[trigger] after[k] != c by {
            assert(after[k] == inner[hash + 1 + k]);
        }
        lemma_trim_keeps_out(after, c);
        if after.len() > 0 {
            let named = after.skip(1);
            assert forall|k: int| 0 <= k < named.len() implies #[trigger] named[k] != c by {
                assert(named[k] == after[k + 1]);
            }
            lemma_trim_keeps_out(named, c);
        }
    }
}

proof fn lemma_rebuilt_plain(l: LinkView, to: Seq<char>)
    requires
        is_plain_link(l),
        is_plain(to),
    ensures
        is_plain(rebuilt_inner(l, to)),
{
    reveal_strlit("#");
    reveal_strlit("#^");
    reveal_strlit("|");
    let inner = inner_of(l.raw);
    lemma_parts_keep_out(inner, l.raw, '[');
    lemma_parts_keep_out(inner, l.raw, ']');
    let out = rebuilt_inner(l, to);
    let h = match l.heading {
        Some(h) => "#"@ + h,
        None => seq![],
    };
    let b = match l.block {
        Some(b) => "#^"@ + b,
        None => seq![],
    };
    let a = match l.alias {
        Some(a) => "|"@ + a,
        None => seq![],
    };
    assert(out == to + h + b + a);
    assert forall|k: int| 0 <= k < out.len() implies #[trigger] out[k] != '[' && out[k] != ']' by {
        if k < to.len() {
            assert(out[k] == to[k]);
        } else if k < to.len() + h.len() {
            assert(out[k] == h[k - to.len()]);
        } else if k < to.len() + h.len() + b.len() {
            assert(out[k] == b[k - to.len() - h.len()]);
        } else {
            assert(out[k] == a[k - to.len() - h.len() - b.len()]);
        }
    }
}

/// A link read back after it got a new target.
proof fn lemma_retargeted_read(l: LinkView, to: Seq<char>)
    requires
        is_plain_link(l),
        !reads_like_block(l),
        is_plain(to),
        is_target(to),
    ensures
        rebuilt(l, to) == bracketed(rebuilt_inner(l, to)),
        is_plain(rebuilt_inner(l, to)),
        link_parts(rebuilt_inner(l, to), rebuilt(l, to)) == (LinkView {
            target: to,
            raw: rebuilt(l, to),
            ..l
        }),
        is_plain_link(LinkView { target: to, raw: rebuilt(l, to), ..l }),
{
    lemma_rebuilt_plain(l, to);
    lemma_bracketed(rebuilt_inner(l, to));
    law_rebuilt_link_keeps_its_parts(inner_of(l.raw), l.raw, to, rebuilt(l, to));
}

/// Whether a link has the text of one of the first `k`.
spec fn is_done(links: Seq<LinkView>, l: LinkView, k: int) -> bool {
    exists|j: int| 0 <= j < k && (#[trigger] links[j]).raw == l.raw
}

/// A link once the first `k` are dealt with.
spec fn done(
    s: Seq<NoteView>,
    links: Seq<LinkView>,
    l: LinkView,
    from: Seq<char>,
    to: Seq<char>,
    k: int,
) -> LinkView {
    if is_done(links, l, k) {
        retargeted(s, l, from, to)
    } else {
        l
    }
}

spec fn all_done(
    s: Seq<NoteView>,
    links: Seq<LinkView>,
    from: Seq<char>,
    to: Seq<char>,
    k: int,
) -> Seq<LinkView> {
    links.map_values(|l: LinkView| done(s, links, l, from, to, k))
}

/// What the links and the new target must be like.
spec fn can_retarget(links: Seq<LinkView>, to: Seq<char>) -> bool {
    &&& is_plain(to)
    &&& is_target(to)
    &&& forall|k: int|
        0 <= k < links.len() ==> is_plain_link(#[trigger] links[k]) && !reads_like_block(links[k])
}

/// What becomes of one link when link `k` is dealt with by replacing its text.
proof fn lemma_one_swapped(
    s: Seq<NoteView>,
    links: Seq<LinkView>,
    from: Seq<char>,
    to: Seq<char>,
    k: int,
    p: int,
)
    requires
        can_retarget(links, to),
        0 <= k < links.len(),
        0 <= p < links.len(),
        leads_to(s, links[k].target, from),
        rebuilt(links[k], to) != links[k].raw,
    ensures
        done(s, links, links[p], from, to, k + 1) == if done(s, links, links[p], from, to, k).raw
            == links[k].raw {
            retargeted(s, links[k], from, to)
        } else {
            done(s, links, links[p], from, to, k)
        },
        is_plain_link(done(s, links, links[p], from, to, k)),
{
    let l = links[k];
    let q = links[p];
    lemma_retargeted_read(l, to);
    lemma_retargeted_read(q, to);
    if q.raw == l.raw {
        assert(q == l);
        assert(links[k].raw == q.raw);
        assert(is_done(links, q, k + 1));
    } else {
        if is_done(links, q, k + 1) {
            let j = choose|j: int| 0 <= j < k + 1 && (#[trigger] links[j]).raw == q.raw;
            assert(j < k);
        }
        assert(is_done(links, q, k + 1) == is_done(links, q, k));
        if is_done(links, q, k) && leads_to(s, q.target, from) && rebuilt(q, to) == l.raw {
            lemma_bracketed(rebuilt_inner(q, to));
            assert(l == (LinkView { target: to, raw: l.raw, ..q }));
            assert(rebuilt(l, to) == rebuilt(q, to));
        }
    }
}

/// What becomes of one link when link `k` needs no replacing.
proof fn lemma_one_kept(
    s: Seq<NoteView>,
    links: Seq<LinkView>,
    from: Seq<char>,
    to: Seq<char>,
    k: int,
    p: int,
)
    requires
        can_retarget(links, to),
        0 <= k < links.len(),
        0 <= p < links.len(),
        !leads_to(s, links[k].target, from) || rebuilt(links[k], to) == links[k].raw,
    ensures
        done(s, links, links[p], from, to, k + 1) == done(s, links, links[p], from, to, k),
{
    let l = links[k];
    let q = links[p];
    if q.raw == l.raw {
        assert(q == l);
        lemma_retargeted_read(l, to);
        lemma_bracketed(rebuilt_inner(l, to));
        assert(retargeted(s, l, from, to) == l);
    } else if is_done(links, q, k + 1) {
        let j = choose|j: int| 0 <= j < k + 1 && (#[trigger] links[j]).raw == q.raw;
        assert(j < k);
        assert(is_done(links, q, k));
    }
}

proof fn lemma_rewritten_links(
    s: Seq<NoteView>,
    links: Seq<LinkView>,
    r: Rewrite,
    from: Seq<char>,
    to: Seq<char>,
    k: int,
)
    requires
        can_retarget(links, to),
        0 <= k <= links.len(),
        wikilinks_from(r.content, 0) == all_done(s, links, from, to, k),
    ensures
        wikilinks_from(rewritten_from(s, links, r, from, to, k).content, 0) == links.map_values(
            |l: LinkView| retargeted(s, l, from, to),
        ),
    decreases links.len() - k,
{
    let now = all_done(s, links, from, to, k);
    if k < links.len() {
        let l = links[k];
        let next = all_done(s, links, from, to, k + 1);
        if leads_to(s, l.target, from) && rebuilt(l, to) != l.raw {
            let x = inner_of(l.raw);
            let y = rebuilt_inner(l, to);
            let by = link_parts(y, bracketed(y));
            lemma_retargeted_read(l, to);
            assert forall|p: int| 0 <= p < now.len() implies is_plain_link(#[trigger] now[p]) by {
                lemma_one_swapped(s, links, from, to, k, p);
            }
            lemma_links_replaced(r.content, x, y, 0);
            assert(swapped(now, l.raw, by) =~= next) by {
                assert forall|p: int| 0 <= p < now.len() implies #[trigger] swapped(
                    now,
                    l.raw,
                    by,
                )[p] == next[p] by {
                    lemma_one_swapped(s, links, from, to, k, p);
                }
            }
            let content = replace_all(r.content, l.raw, rebuilt(l, to));
            let step = Rewrite { content, changed: true };
            lemma_rewritten_links(s, links, step, from, to, k + 1);
        } else {
            assert(now =~= next) by {
                assert forall|p: int| 0 <= p < now.len() implies #[trigger] now[p] == next[p] by {
                    lemma_one_kept(s, links, from, to, k, p);
                }
            }
            lemma_rewritten_links(s, links, r, from, to, k + 1);
        }
    } else {
        assert(now =~= links.map_values(|l: LinkView| retargeted(s, l, from, to))) by {
            assert forall|p: int| 0 <= p < links.len() implies #[trigger] now[p] == retargeted(
                s,
                links[p],
                from,
                to,
            ) by {
                assert(links[p].raw == links[p].raw);
                assert(is_done(links, links[p], k));
            }
        }
    }
}

/// No opening bracket stands in a text.
pub open spec fn opens_nothing(x: Seq<char>) -> bool {
    forall|k: int| 0 <= k < x.len() ==> #[trigger] x[k] != '['
}

/// A link that is read from a text is plain where no bracket opens inside it.
proof fn lemma_links_are_plain(c: Seq<char>, i: int)
    requires
        0 <= i,
        forall|k: int|
            0 <= k < wikilinks_from(c, i).len() ==> opens_nothing(
                inner_of((#[trigger] wikilinks_from(c, i)[k]).raw),
            ),
    ensures
        all_plain(wikilinks_from(c, i)),
    decreases c.len() - i,
{
    let all = wikilinks_from(c, i);
    if i < c.len() {
        match link_end(c, i) {
            Some(j) => {
                lemma_link_read(c, i, j);
                let inner = c.subrange(i + 2, j);
                let link = link_parts(inner, c.subrange(i, j + 2));
                let rest = wikilinks_from(c, j + 2);
                assert(all == seq![link] + rest);
                assert(link.raw == bracketed(inner));
                assert(all[0] == link);
                assert(is_plain(inner)) by {
                    assert forall|k: int| 0 <= k < inner.len() implies #[trigger] inner[k] != '['
                        && inner[k] != ']' by {
                        assert(inner[k] == c[i + 2 + k]);
                    }
                }
                assert forall|k: int| 0 <= k < rest.len() implies opens_nothing(
                    inner_of((#[trigger] rest[k]).raw),
                ) by {
                    assert(all[k + 1] == rest[k]);
                }
                lemma_links_are_plain(c, j + 2);
                assert forall|k: int| 0 <= k < all.len() implies is_plain_link(
                    #[trigger] all[k],
                ) by {
                    if k > 0 {
                        assert(all[k] == rest[k - 1]);
                    }
                }
            },
            None => {
                lemma_links_are_plain(c, i + 1);
            },
        }
    }
}

/// A rename retargets every link: read back, the rewritten content of a note
/// has the links that it had, in their order, those that led to the old id with
/// the new one as their target and their heading, block and alias kept, and all
/// others as they were. Where a note has the new id, such a target leads to it.
/// This asks that in no link of the note a bracket opens or a heading reads like
/// a block, and that the new id can stand in a link.
pub proof fn law_rename_retargets_every_link(
    s: Seq<NoteView>,
    n: NoteView,
    from: Seq<char>,
    to: Seq<char>,
    after: Seq<NoteView>,
)
    requires
        n.links == wikilinks_from(n.content, 0),
        forall|k: int|
            0 <= k < n.links.len() ==> opens_nothing(inner_of((#[trigger] n.links[k]).raw))
                && !reads_like_block(n.links[k]),
        is_plain(to),
        is_target(to),
    ensures
        wikilinks_from(rewritten(s, n, from, to).content, 0) == n.links.map_values(
            |l: LinkView| retargeted(s, l, from, to),
        ),
        note_at(after, to) is Some ==> leads_to(after, to, to),
{
    assert forall|k: int| 0 <= k < wikilinks_from(n.content, 0).len() implies opens_nothing(
        inner_of((#[trigger] wikilinks_from(n.content, 0)[k]).raw),
    ) by {
        assert(n.links[k] == wikilinks_from(n.content, 0)[k]);
    }
    lemma_links_are_plain(n.content, 0);
    assert(all_done(s, n.links, from, to, 0) =~= n.links);
    lemma_rewritten_links(
        s,
        n.links,
        Rewrite { content: n.content, changed: false },
        from,
        to,
        0,
    );
    lemma_find_from(after, to, 0);
}

} // verus!

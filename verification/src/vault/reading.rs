//! What reading a Markdown file gives: the parts of the note by what stands in the
//! text.
use crate::lexical::terms;
use crate::order::{ascends, lemma_ascends_front};
use crate::paths::{base_name, without_md};
use crate::text::{
    has_prefix, is_white, join, lemma_next_char_is, lemma_next_match, lines, matches_at, next_match,
    trim,
};
use crate::vault::parse::{
    declared_tags, first_title_from, hashes, heading_of, headings_from, inline_tags_from,
    is_tag_break, is_tag_char, link_end, link_parts, no_frontmatter, parsed, piece_end, pieces_from,
    strings_from, tag_end, tag_start, tags_of, wikilinks_from, with_new,
};
use crate::vault::retarget::lemma_links_shift;
use crate::vault::types::HeadingView;
use crate::vault::value::{yaml_get, yaml_read, yaml_str, YamlView};
use vstd::prelude::*;

verus! {

// ---------------------------------------------------------------------------
// Frontmatter and body
// ---------------------------------------------------------------------------

/// A file with a frontmatter is read in its two parts: the text between a first line
/// of three dashes and the next such line, and the body behind it.
pub proof fn law_a_file_is_read_in_two_parts(front: Seq<char>, body: Seq<char>, path: Seq<char>)
    requires
        forall|k: int|
            0 <= k < front.len() ==> !#[trigger] matches_at(
                front + "\n---\n"@ + body,
                "\n---"@,
                k,
            ),
    ensures
        ({
            let n = parsed("---\n"@ + front + "\n---\n"@ + body, path);
            &&& n.content == body
            &&& yaml_read(front) matches Some(y) ==> n.frontmatter == y
            &&& yaml_read(front) is None ==> n.frontmatter == no_frontmatter()
        }),
{
    reveal_strlit("---\n");
    reveal_strlit("\n---\n");
    reveal_strlit("\n---");
    let raw = "---\n"@ + front + "\n---\n"@ + body;
    let rest = front + "\n---\n"@ + body;
    let at: int = front.len() as int;
    assert(raw.subrange(0, 4) =~= "---\n"@);
    assert(raw.take(4) =~= "---\n"@);
    assert(raw.skip(4) =~= rest);
    assert(rest.subrange(at, at + 4) =~= "\n---"@);
    assert(matches_at(rest, "\n---"@, at));
    lemma_next_match(rest, "\n---"@, 0);
    assert(next_match(rest, "\n---"@, 0) == Some(at));
    assert(rest.take(at) =~= front);
    let after = rest.skip(at + 4);
    assert(after[0] == '\n');
    assert(after.skip(1) =~= body);
}

/// A file that does not begin with a line of three dashes, or where no such line
/// follows, has no frontmatter: all of it is the body.
pub proof fn law_a_file_without_a_frontmatter_is_its_body(raw: Seq<char>, path: Seq<char>)
    requires
        raw.len() < 4 || raw.take(4) != "---\n"@ || forall|k: int|
            0 <= k ==> !#[trigger] matches_at(raw.skip(4), "\n---"@, k),
    ensures
        parsed(raw, path).content == raw,
        parsed(raw, path).frontmatter == no_frontmatter(),
{
    reveal_strlit("---\n");
    if has_prefix(raw, "---\n"@) {
        assert(raw.take(4) =~= "---\n"@);
        lemma_next_match(raw.skip(4), "\n---"@, 0);
    }
}

/// A note is filed under its path without the extension, and its headings, links and
/// tags are those of its body.
pub proof fn law_a_note_is_read_from_its_file(raw: Seq<char>, path: Seq<char>)
    ensures
        ({
            let n = parsed(raw, path);
            &&& n.id == without_md(path)
            &&& n.path == path
            &&& n.headings == headings_from(lines(n.content), 0)
            &&& n.links == wikilinks_from(n.content, 0)
            &&& n.tags == tags_of(n.content, n.frontmatter)
        }),
{
}

// ---------------------------------------------------------------------------
// Titles
// ---------------------------------------------------------------------------

proof fn lemma_first_title(hs: Seq<HeadingView>, i: int)
    requires
        0 <= i,
    ensures
        match first_title_from(hs, i) {
            Some(t) => exists|k: int|
                i <= k < hs.len() && (#[trigger] hs[k]).level == 1 && hs[k].text == t && forall|
                    j: int,
                |
                    i <= j < k ==> (#[trigger] hs[j]).level != 1,
            None => forall|j: int| i <= j < hs.len() ==> (#[trigger] hs[j]).level != 1,
        },
    decreases hs.len() - i,
{
    if i < hs.len() {
        lemma_first_title(hs, i + 1);
        if hs[i].level == 1 {
            assert(hs[i].text == first_title_from(hs, i)->0);
        }
    }
}

/// The title of a note: the text under `title` in its frontmatter, whatever its
/// headings; else its first heading of level one; else the last part of its id.
pub proof fn law_a_title_is_declared_or_headed_or_named(raw: Seq<char>, path: Seq<char>, k: int)
    ensures
        ({
            let n = parsed(raw, path);
            let declared = match yaml_get(n.frontmatter, "title"@) {
                Some(y) => yaml_str(y),
                None => None,
            };
            &&& declared matches Some(t) ==> n.title == t
            &&& declared is None && 0 <= k < n.headings.len() && n.headings[k].level == 1 && (forall|
                j: int,
            |
                0 <= j < k ==> (#[trigger] n.headings[j]).level != 1) ==> n.title
                == n.headings[k].text
            &&& declared is None && (forall|j: int|
                0 <= j < n.headings.len() ==> (#[trigger] n.headings[j]).level != 1) ==> n.title
                == base_name(n.id)
        }),
{
    let n = parsed(raw, path);
    let hs = n.headings;
    lemma_first_title(hs, 0);
    if 0 <= k < hs.len() && hs[k].level == 1 && (forall|j: int|
        0 <= j < k ==> (#[trigger] hs[j]).level != 1) {
        match first_title_from(hs, 0) {
            Some(t) => {
                let m = choose|m: int|
                    0 <= m < hs.len() && (#[trigger] hs[m]).level == 1 && hs[m].text == t && forall|
                        j: int,
                    |
                        0 <= j < m ==> (#[trigger] hs[j]).level != 1;
                assert(m == k);
            },
            None => {
                assert(hs[k].level != 1);
            },
        }
    }
    if forall|j: int| 0 <= j < hs.len() ==> (#[trigger] hs[j]).level != 1 {
        if let Some(t) = first_title_from(hs, 0) {
            let m = choose|m: int|
                0 <= m < hs.len() && (#[trigger] hs[m]).level == 1 && hs[m].text == t && forall|j: int|
                    0 <= j < m ==> (#[trigger] hs[j]).level != 1;
            assert(hs[m].level != 1);
        }
    }
}

// ---------------------------------------------------------------------------
// Headings
// ---------------------------------------------------------------------------

proof fn lemma_hashes(s: Seq<char>, i: int)
    requires
        0 <= i <= s.len(),
    ensures
        i <= hashes(s, i) <= s.len(),
        forall|k: int| i <= k < hashes(s, i) ==> #[trigger] s[k] == '#',
        hashes(s, i) < s.len() ==> s[hashes(s, i)] != '#',
    decreases s.len() - i,
{
    if i < s.len() && s[i] == '#' {
        lemma_hashes(s, i + 1);
    }
}

/// A heading is a line of one to six `#`, white space and a text: its level is how
/// many, and its text has no white space at its ends. Its slug is the words of the
/// text with dashes between. With more than six, or with none, there is no heading.
pub proof fn law_a_heading_has_the_level_of_its_marks(level: nat, gap: char, text: Seq<char>)
    requires
        is_white(gap),
        trim(seq![gap] + text).len() > 0,
    ensures
        ({
            let line = Seq::new(level, |i: int| '#') + seq![gap] + text;
            &&& 1 <= level <= 6 ==> (heading_of(line) matches Some(h) && h.level == level && h.text
                == trim(seq![gap] + text) && h.slug == join(terms(h.text), "-"@))
            &&& level == 0 || level > 6 ==> heading_of(line) is None
        }),
{
    let marks = Seq::new(level, |i: int| '#');
    let line = marks + seq![gap] + text;
    lemma_hashes(line, 0);
    let n = hashes(line, 0);
    assert(line[level as int] == gap);
    if n < level {
        assert(line[n] == marks[n]);
    } else if n > level {
        assert(line[level as int] == '#');
    }
    assert(line.skip(level as int) =~= seq![gap] + text);
}

/// A line without a mark at its start, or with no white space behind its marks, is no
/// heading.
pub proof fn law_a_heading_needs_its_marks(line: Seq<char>, level: int)
    requires
        0 <= level <= line.len(),
        forall|k: int| 0 <= k < level ==> #[trigger] line[k] == '#',
        level < line.len() ==> line[level] != '#' && !is_white(line[level]),
    ensures
        heading_of(line) is None,
{
    lemma_hashes(line, 0);
    let n = hashes(line, 0);
    if n < level {
        assert(line[n] == '#');
    }
}

/// The headings of a text are those of its lines, in order, and none is left out:
/// `at` says on which line each stands.
pub proof fn law_headings_come_in_line_order(ls: Seq<Seq<char>>, i: int) -> (at: Seq<int>)
    requires
        0 <= i <= ls.len(),
    ensures
        at.len() == headings_from(ls, i).len(),
        ascends(at),
        forall|a: int|
            0 <= a < at.len() ==> i <= #[trigger] at[a] < ls.len() && heading_of(ls[at[a]]) == Some(
                headings_from(ls, i)[a],
            ),
        forall|p: int|
            i <= p < ls.len() && heading_of(#[trigger] ls[p]) is Some ==> at.contains(p),
    decreases ls.len() - i,
{
    if i < ls.len() {
        let rest = law_headings_come_in_line_order(ls, i + 1);
        if heading_of(ls[i]) is Some {
            let at = seq![i] + rest;
            lemma_ascends_front(i, rest);
            assert forall|a: int| 0 <= a < at.len() implies i <= #[trigger] at[a] < ls.len()
                && heading_of(ls[at[a]]) == Some(headings_from(ls, i)[a]) by {
                if a > 0 {
                    assert(at[a] == rest[a - 1]);
                }
            }
            assert forall|p: int| i <= p < ls.len() && heading_of(#[trigger] ls[p])
                is Some implies at.contains(p) by {
                if p == i {
                    assert(at[0] == p);
                } else {
                    assert(rest.contains(p));
                    let a = choose|a: int| 0 <= a < rest.len() && rest[a] == p;
                    assert(at[a + 1] == p);
                }
            }
            at
        } else {
            rest
        }
    } else {
        seq![]
    }
}

// ---------------------------------------------------------------------------
// Links
// ---------------------------------------------------------------------------

proof fn lemma_no_links_before(s: Seq<char>, i: int, n: int)
    requires
        0 <= i <= n <= s.len(),
        forall|k: int| i <= k < n ==> #[trigger] s[k] != '[',
    ensures
        wikilinks_from(s, i) == wikilinks_from(s, n),
    decreases n - i,
{
    if i < n {
        assert(s[i] != '[');
        lemma_no_links_before(s, i + 1, n);
    }
}

/// A wikilink is read where it stands: the first of a text is what two opening and the
/// next two closing brackets hold between them, and the others are those behind it.
pub proof fn law_a_wikilink_is_read_where_it_stands(
    early: Seq<char>,
    inner: Seq<char>,
    rest: Seq<char>,
)
    requires
        forall|k: int| 0 <= k < early.len() ==> #[trigger] early[k] != '[',
        inner.len() > 0,
        forall|k: int| 0 <= k < inner.len() ==> #[trigger] inner[k] != ']',
    ensures
        wikilinks_from(early + "[["@ + inner + "]]"@ + rest, 0) == seq![
            link_parts(inner, "[["@ + inner + "]]"@),
        ] + wikilinks_from(rest, 0),
{
    reveal_strlit("[[");
    reveal_strlit("]]");
    let s = early + "[["@ + inner + "]]"@ + rest;
    let n: int = early.len() as int;
    let j: int = n + 2 + inner.len();
    assert forall|k: int| 0 <= k < n implies #[trigger] s[k] != '[' by {
        assert(s[k] == early[k]);
    }
    lemma_no_links_before(s, 0, n);
    assert(s[n] == '[' && s[n + 1] == '[' && s[j] == ']' && s[j + 1] == ']');
    assert forall|k: int| n + 2 <= k < j implies #[trigger] s[k] != ']' by {
        assert(s[k] == inner[k - n - 2]);
    }
    lemma_next_char_is(s, ']', n + 2, j);
    assert(link_end(s, n) == Some(j));
    assert(s.subrange(n + 2, j) =~= inner);
    assert(s.subrange(n, j + 2) =~= "[["@ + inner + "]]"@);
    let front = early + "[["@ + inner + "]]"@;
    assert(s =~= front + rest);
    lemma_links_shift(front, rest, 0);
}

/// A text without an opening bracket has no links.
pub proof fn law_no_bracket_no_link(s: Seq<char>)
    requires
        forall|k: int| 0 <= k < s.len() ==> #[trigger] s[k] != '[',
    ensures
        wikilinks_from(s, 0).len() == 0,
{
    lemma_no_links_before(s, 0, s.len() as int);
}

spec fn lacks(s: Seq<char>, c: char) -> bool {
    forall|k: int| 0 <= k < s.len() ==> #[trigger] s[k] != c
}

/// The parts of a wikilink: what stands before `#` and `|` is its target, what stands
/// behind `#` its heading, or behind `#^` its block, and what stands behind `|` its
/// alias. White space at the ends of a part does not count.
pub proof fn law_a_wikilink_has_its_parts(
    target: Seq<char>,
    part: Seq<char>,
    alias: Seq<char>,
    raw: Seq<char>,
)
    requires
        forall|k: int| 0 <= k < target.len() ==> #[trigger] target[k] != '|' && target[k] != '#',
        forall|k: int| 0 <= k < part.len() ==> #[trigger] part[k] != '|',
        part.len() > 0 ==> part[0] != '^',
    ensures
        ({
            let l = link_parts(target, raw);
            &&& l.target == trim(target)
            &&& l.heading is None && l.block is None && l.alias is None && l.raw == raw
        }),
        ({
            let l = link_parts(target + seq!['|'] + alias, raw);
            &&& l.target == trim(target)
            &&& l.heading is None && l.block is None && l.alias == Some(trim(alias))
        }),
        ({
            let l = link_parts(target + seq!['#'] + part, raw);
            &&& l.target == trim(target)
            &&& l.heading == Some(trim(part)) && l.block is None && l.alias is None
        }),
        ({
            let l = link_parts(target + seq!['#'] + part + seq!['|'] + alias, raw);
            &&& l.target == trim(target)
            &&& l.heading == Some(trim(part)) && l.block is None && l.alias == Some(trim(alias))
        }),
        ({
            let l = link_parts(target + seq!['#', '^'] + part, raw);
            &&& l.target == trim(target)
            &&& l.heading is None && l.block == Some(trim(part)) && l.alias is None
        }),
{
    lemma_bare_link(target, None, raw);
    lemma_bare_link(target, Some(alias), raw);
    let one = target + seq!['#'] + part;
    let two = target + seq!['#', '^'] + part;
    assert(seq!['^'] + part =~= seq!['^'] + part);
    assert(two =~= target + seq!['#'] + (seq!['^'] + part));
    lemma_hash_link(target, part, None, raw);
    lemma_hash_link(target, part, Some(alias), raw);
    lemma_hash_link(target, seq!['^'] + part, None, raw);
    assert((seq!['^'] + part).skip(1) =~= part);
}

spec fn with_alias(link: Seq<char>, alias: Option<Seq<char>>) -> Seq<char> {
    match alias {
        Some(a) => link + seq!['|'] + a,
        None => link,
    }
}

proof fn lemma_alias_parts(link: Seq<char>, alias: Option<Seq<char>>)
    requires
        lacks(link, '|'),
    ensures
        ({
            let inner = with_alias(link, alias);
            let bar = crate::text::next_char(inner, '|', 0);
            &&& bar == link.len()
            &&& alias is Some ==> bar < inner.len() && inner.take(bar) == link && inner.skip(bar + 1)
                == alias->0
            &&& alias is None ==> bar == inner.len()
        }),
{
    let inner = with_alias(link, alias);
    let n: int = link.len() as int;
    assert forall|k: int| 0 <= k < n implies #[trigger] inner[k] != '|' by {
        assert(inner[k] == link[k]);
    }
    lemma_next_char_is(inner, '|', 0, n);
    if let Some(a) = alias {
        assert(inner.take(n) =~= link);
        assert(inner.skip(n + 1) =~= a);
    }
}

proof fn lemma_bare_link(target: Seq<char>, alias: Option<Seq<char>>, raw: Seq<char>)
    requires
        forall|k: int| 0 <= k < target.len() ==> #[trigger] target[k] != '|' && target[k] != '#',
    ensures
        ({
            let l = link_parts(with_alias(target, alias), raw);
            &&& l.target == trim(target)
            &&& l.heading is None && l.block is None && l.raw == raw
            &&& alias is None ==> l.alias is None
            &&& alias is Some ==> l.alias == Some(trim(alias->0))
        }),
{
    lemma_alias_parts(target, alias);
    lemma_next_char_is(target, '#', 0, target.len() as int);
}

proof fn lemma_hash_link(
    target: Seq<char>,
    after: Seq<char>,
    alias: Option<Seq<char>>,
    raw: Seq<char>,
)
    requires
        forall|k: int| 0 <= k < target.len() ==> #[trigger] target[k] != '|' && target[k] != '#',
        lacks(after, '|'),
    ensures
        ({
            let l = link_parts(with_alias(target + seq!['#'] + after, alias), raw);
            let is_block = after.len() > 0 && after[0] == '^';
            &&& l.target == trim(target)
            &&& is_block ==> l.heading is None && l.block == Some(trim(after.skip(1)))
            &&& !is_block ==> l.heading == Some(trim(after)) && l.block is None
            &&& alias is None ==> l.alias is None
            &&& alias is Some ==> l.alias == Some(trim(alias->0))
        }),
{
    let link = target + seq!['#'] + after;
    let n: int = target.len() as int;
    assert(lacks(link, '|')) by {
        assert forall|k: int| 0 <= k < link.len() implies #[trigger] link[k] != '|' by {
            if k < n {
                assert(link[k] == target[k]);
            } else if k > n {
                assert(link[k] == after[k - n - 1]);
            }
        }
    }
    lemma_alias_parts(link, alias);
    assert forall|k: int| 0 <= k < n implies #[trigger] link[k] != '#' by {
        assert(link[k] == target[k]);
    }
    assert(link[n] == '#');
    lemma_next_char_is(link, '#', 0, n);
    assert(link.take(n) =~= target);
    assert(link.skip(n + 1) =~= after);
}

// ---------------------------------------------------------------------------
// Tags
// ---------------------------------------------------------------------------

proof fn lemma_with_new(seen: Seq<Seq<char>>, more: Seq<Seq<char>>, i: int, t: Seq<char>)
    requires
        0 <= i,
        seen.no_duplicates(),
    ensures
        with_new(seen, more, i).no_duplicates(),
        with_new(seen, more, i).contains(t) <==> seen.contains(t) || exists|k: int|
            i <= k < more.len() && #[trigger] more[k] == t,
        with_new(seen, more, i).len() >= seen.len(),
        with_new(seen, more, i).take(seen.len() as int) == seen,
    decreases more.len() - i,
{
    let all = with_new(seen, more, i);
    if i < more.len() {
        if seen.contains(more[i]) {
            lemma_with_new(seen, more, i + 1, t);
        } else {
            let next = seen.push(more[i]);
            assert(next.no_duplicates());
            lemma_with_new(next, more, i + 1, t);
            assert(next.contains(t) <==> seen.contains(t) || t == more[i]) by {
                assert(next[seen.len() as int] == more[i]);
                if seen.contains(t) {
                    let a = choose|a: int| 0 <= a < seen.len() && seen[a] == t;
                    assert(next[a] == t);
                }
                if next.contains(t) && t != more[i] {
                    let a = choose|a: int| 0 <= a < next.len() && next[a] == t;
                    assert(seen[a] == t);
                }
            }
            assert(next.take(seen.len() as int) =~= seen);
            assert(all.take(seen.len() as int) =~= all.take(next.len() as int).take(
                seen.len() as int,
            ));
        }
    } else {
        assert(seen.take(seen.len() as int) =~= seen);
    }
}

/// The tags of a note are those that its frontmatter declares and those in its text,
/// each once, the declared ones first.
pub proof fn law_tags_are_declared_or_in_the_text(body: Seq<char>, fm: YamlView, t: Seq<char>)
    ensures
        tags_of(body, fm).no_duplicates(),
        tags_of(body, fm).contains(t) <==> declared_tags(fm).contains(t) || inline_tags_from(
            body,
            0,
        ).contains(t),
        exists|n: int|
            0 <= n <= tags_of(body, fm).len() && (#[trigger] tags_of(body, fm).take(n).contains(t)
                <==> declared_tags(fm).contains(t)),
{
    let declared = declared_tags(fm);
    let inline = inline_tags_from(body, 0);
    let first = with_new(seq![], declared, 0);
    lemma_with_new(seq![], declared, 0, t);
    lemma_with_new(first, inline, 0, t);
    assert(!Seq::<Seq<char>>::empty().contains(t));
    assert(declared.contains(t) <==> exists|k: int|
        0 <= k < declared.len() && #[trigger] declared[k] == t);
    assert(inline.contains(t) <==> exists|k: int| 0 <= k < inline.len() && #[trigger] inline[k] == t);
    assert(tags_of(body, fm).take(first.len() as int) == first);
}

proof fn lemma_strings_from(items: Seq<YamlView>, i: int, t: Seq<char>)
    requires
        0 <= i,
    ensures
        strings_from(items, i).contains(t) <==> exists|k: int|
            i <= k < items.len() && yaml_str(#[trigger] items[k]) == Some(t),
    decreases items.len() - i,
{
    if i < items.len() {
        lemma_strings_from(items, i + 1, t);
        let rest = strings_from(items, i + 1);
        if let Some(s) = yaml_str(items[i]) {
            let all = seq![s] + rest;
            assert(all[0] == s);
            if rest.contains(t) {
                let a = choose|a: int| 0 <= a < rest.len() && rest[a] == t;
                assert(all[a + 1] == t);
            }
            if all.contains(t) && t != s {
                let a = choose|a: int| 0 <= a < all.len() && all[a] == t;
                assert(rest[a - 1] == t);
            }
        }
    }
}

proof fn lemma_piece_end(s: Seq<char>, i: int)
    requires
        0 <= i <= s.len(),
    ensures
        i <= piece_end(s, i) <= s.len(),
        forall|k: int| i <= k < piece_end(s, i) ==> !is_tag_break(#[trigger] s[k]),
        piece_end(s, i) < s.len() ==> is_tag_break(s[piece_end(s, i)]),
    decreases s.len() - i,
{
    if i < s.len() && !is_tag_break(s[i]) {
        lemma_piece_end(s, i + 1);
    }
}

proof fn lemma_piece_is_there(s: Seq<char>, i: int, a: int, b: int)
    requires
        0 <= i <= a < b <= s.len(),
        i == 0 || i == a || is_tag_break(s[i - 1]) || is_tag_break(s[i]),
        forall|k: int| a <= k < b ==> !is_tag_break(#[trigger] s[k]),
        a > 0 ==> is_tag_break(s[a - 1]),
        b < s.len() ==> is_tag_break(s[b]),
    ensures
        pieces_from(s, i).contains(s.subrange(a, b)),
    decreases a - i,
{
    let all = pieces_from(s, i);
    lemma_piece_end(s, i);
    let j = piece_end(s, i);
    if i == a {
        assert(!is_tag_break(s[a]));
        if j < b {
            assert(!is_tag_break(s[j]));
        } else if j > b {
            assert(is_tag_break(s[b]));
        }
        assert(all[0] == s.subrange(a, b));
    } else if is_tag_break(s[i]) {
        lemma_piece_is_there(s, i + 1, a, b);
    } else {
        assert(j <= a) by {
            if j > a {
                assert(!is_tag_break(s[a - 1]));
            }
        }
        if j < a {
            assert(is_tag_break(s[j]));
        }
        lemma_piece_is_there(s, j, a, b);
        let rest = pieces_from(s, j);
        let k = choose|k: int| 0 <= k < rest.len() && rest[k] == s.subrange(a, b);
        assert(all[k + 1] == rest[k]);
    }
}

/// A frontmatter declares tags as a list, each text of which is one, or as one text,
/// in which every run of other characters between commas, blanks and tabs is one.
pub proof fn law_a_frontmatter_declares_its_tags(
    fm: YamlView,
    t: Seq<char>,
    a: int,
    b: int,
)
    ensures
        yaml_get(fm, "tags"@) matches Some(YamlView::List(items)) ==> (declared_tags(fm).contains(t)
            <==> exists|k: int| 0 <= k < items.len() && yaml_str(#[trigger] items[k]) == Some(t)),
        yaml_get(fm, "tags"@) matches Some(YamlView::Text(s)) ==> (0 <= a < b <= s.len() && (forall|
            k: int,
        |
            a <= k < b ==> #[trigger] s[k] != ',' && s[k] != ' ' && s[k] != '\t') && (a > 0 ==> s[a
            - 1] == ',' || s[a - 1] == ' ' || s[a - 1] == '\t') && (b < s.len() ==> s[b] == ','
            || s[b] == ' ' || s[b] == '\t') ==> declared_tags(fm).contains(s.subrange(a, b))),
        yaml_get(fm, "tags"@) is None ==> declared_tags(fm).len() == 0,
{
    match yaml_get(fm, "tags"@) {
        Some(YamlView::List(items)) => {
            lemma_strings_from(items, 0, t);
        },
        Some(YamlView::Text(s)) => {
            if 0 <= a < b <= s.len() && (forall|k: int|
                a <= k < b ==> #[trigger] s[k] != ',' && s[k] != ' ' && s[k] != '\t') && (a > 0
                ==> s[a - 1] == ',' || s[a - 1] == ' ' || s[a - 1] == '\t') && (b < s.len()
                ==> s[b] == ',' || s[b] == ' ' || s[b] == '\t') {
                lemma_piece_is_there(s, 0, a, b);
            }
        },
        _ => {},
    }
}

proof fn lemma_tag_end(s: Seq<char>, i: int)
    requires
        0 <= i <= s.len(),
    ensures
        i <= tag_end(s, i) <= s.len(),
        forall|k: int| i <= k < tag_end(s, i) ==> is_tag_char(#[trigger] s[k]),
        tag_end(s, i) < s.len() ==> !is_tag_char(s[tag_end(s, i)]),
    decreases s.len() - i,
{
    if i < s.len() && is_tag_char(s[i]) {
        lemma_tag_end(s, i + 1);
    }
}

/// Whether an inline tag stands at `a..b`: a longest run of tag characters behind a
/// `#` that stands at the start of the text or behind white space.
pub open spec fn is_tag_at(s: Seq<char>, a: int, b: int) -> bool {
    &&& 1 <= a < b <= s.len()
    &&& s[a - 1] == '#'
    &&& a == 1 || is_white(s[a - 2])
    &&& forall|k: int| a <= k < b ==> is_tag_char(#[trigger] s[k])
    &&& b < s.len() ==> !is_tag_char(s[b])
}

/// Tag characters are neither a `#` nor white space.
proof fn lemma_tag_char_is_dark(c: char)
    requires
        is_tag_char(c),
    ensures
        c != '#',
        !is_white(c),
{
}

proof fn lemma_tag_is_there(s: Seq<char>, i: int, a: int, b: int)
    requires
        is_tag_at(s, a, b),
        0 <= i,
        i <= a - 2 || i == 0 && a == 1,
    ensures
        inline_tags_from(s, i).contains(s.subrange(a, b)),
    decreases a - i,
{
    let all = inline_tags_from(s, i);
    match tag_start(s, i) {
        Some(f) => {
            lemma_tag_end(s, f);
            let e = tag_end(s, f);
            if f == a {
                if e < b {
                    assert(is_tag_char(s[e]));
                } else if e > b {
                    assert(is_tag_char(s[b]));
                }
                assert(all[0] == s.subrange(a, b));
            } else {
                assert(f < a) by {
                    if f > a {
                        assert(i == a - 1 || i > a - 2);
                    }
                }
                assert(e <= a - 2) by {
                    if e > a - 1 {
                        assert(is_tag_char(s[a - 1]));
                        lemma_tag_char_is_dark(s[a - 1]);
                    }
                    if e == a - 1 {
                        assert(f < e);
                        assert(is_tag_char(s[a - 2]));
                        lemma_tag_char_is_dark(s[a - 2]);
                    }
                }
                lemma_tag_is_there(s, e, a, b);
                let rest = inline_tags_from(s, e);
                let k = choose|k: int| 0 <= k < rest.len() && rest[k] == s.subrange(a, b);
                assert(all[k + 1] == rest[k]);
            }
        },
        None => {
            assert(is_tag_char(s[a]));
            if i == a - 2 {
                assert(s[i + 1] == '#' && is_white(s[i]) && is_tag_char(s[i + 2]));
            }
            if i == 0 && a == 1 {
                assert(s[0] == '#' && is_tag_char(s[1]));
            }
            lemma_tag_is_there(s, i + 1, a, b);
        },
    }
}

proof fn lemma_tag_stands(s: Seq<char>, i: int, k: int) -> (r: (int, int))
    requires
        0 <= i,
        0 <= k < inline_tags_from(s, i).len(),
    ensures
        is_tag_at(s, r.0, r.1),
        s.subrange(r.0, r.1) == inline_tags_from(s, i)[k],
    decreases s.len() - i,
{
    match tag_start(s, i) {
        Some(f) => {
            lemma_tag_end(s, f);
            let e = tag_end(s, f);
            assert(is_tag_char(s[f]));
            assert(f < e);
            assert(inline_tags_from(s, i) == seq![s.subrange(f, e)] + inline_tags_from(s, e));
            if k == 0 {
                (f, e)
            } else {
                lemma_tag_stands(s, e, k - 1)
            }
        },
        None => lemma_tag_stands(s, i + 1, k),
    }
}

/// The inline tags of a text are exactly the names that stand in it behind a `#` at
/// its start or behind white space.
pub proof fn law_inline_tags_stand_in_the_text(s: Seq<char>, t: Seq<char>)
    ensures
        inline_tags_from(s, 0).contains(t) <==> exists|a: int, b: int|
            #[trigger] is_tag_at(s, a, b) && s.subrange(a, b) == t,
{
    let all = inline_tags_from(s, 0);
    if all.contains(t) {
        let k = choose|k: int| 0 <= k < all.len() && all[k] == t;
        let (a, b) = lemma_tag_stands(s, 0, k);
        assert(is_tag_at(s, a, b) && s.subrange(a, b) == t);
    }
    if exists|a: int, b: int| #[trigger] is_tag_at(s, a, b) && s.subrange(a, b) == t {
        let (a, b) = choose|a: int, b: int| #[trigger] is_tag_at(s, a, b) && s.subrange(a, b) == t;
        lemma_tag_is_there(s, 0, a, b);
    }
}

} // verus!

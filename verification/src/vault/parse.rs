//! From the text of a Markdown file to a note.
use crate::lexical::{terms, tokenize};
use crate::paths::{base_name, base_of, strip_md, without_md};
use crate::text::{
    chars_of, find_char, find_pattern, has_prefix, has_string, is_alnum, is_alnum_char, is_white,
    is_whitespace, join, join_strings, lemma_next_char, lines, lines_of, next_char, next_match,
    pattern_at, string_range, tail, texts, trim, trim_str,
};
use crate::vault::types::{
    headings_view, links_view, Heading, HeadingView, LinkView, Note, NoteView, WikiLink,
};
use crate::vault::value::{
    items_view, lemma_model, parse_yaml, yaml_get, yaml_read, yaml_str, Yaml, YamlView,
};
use vstd::prelude::*;
use vstd::string::*;

verus! {

// ---------------------------------------------------------------------------
// Frontmatter
// ---------------------------------------------------------------------------

/// A mapping without entries: the frontmatter of a note that has none.
pub open spec fn no_frontmatter() -> YamlView {
    YamlView::Table(seq![])
}

/// The frontmatter text and the body of a file. The frontmatter stands
/// between a first line of three dashes and the next line that begins with
/// them.
pub open spec fn sections(raw: Seq<char>) -> (Option<Seq<char>>, Seq<char>) {
    if has_prefix(raw, "---\n"@) {
        let rest = raw.skip(4);
        match next_match(rest, "\n---"@, 0) {
            Some(at) => {
                let after = rest.skip(at + 4);
                let body = if after.len() > 0 && after[0] == '\n' {
                    after.skip(1)
                } else {
                    after
                };
                (Some(rest.take(at)), body)
            },
            None => (None, raw),
        }
    } else {
        (None, raw)
    }
}

/// The frontmatter of a file: empty where there is none or it is no YAML.
pub open spec fn frontmatter_of(raw: Seq<char>) -> YamlView {
    match sections(raw).0 {
        Some(text) => match yaml_read(text) {
            Some(y) => y,
            None => no_frontmatter(),
        },
        None => no_frontmatter(),
    }
}

fn empty_table() -> (r: Yaml)
    ensures
        r@ == no_frontmatter(),
{
    let r = Yaml::Table(Vec::new());
    assert(r@->Table_0 =~= seq![]);
    r
}

/// Takes a file apart into its frontmatter text, if any, and its body.
pub fn split_sections(raw: &str) -> (r: (Option<String>, String))
    ensures
        match r.0 {
            Some(t) => sections(raw@) == (Some(t@), r.1@),
            None => sections(raw@) == (None::<Seq<char>>, r.1@),
        },
{
    let v = chars_of(raw);
    let open = chars_of("---\n");
    let close = chars_of("\n---");
    proof {
        reveal_strlit("---\n");
        reveal_strlit("\n---");
    }
    if pattern_at(&v, &open, 0) {
        let rest = tail(&v, 4);
        match find_pattern(&rest, &close, 0) {
            Some(at) => {
                let m: usize = rest.len();
                let ghost after = rest@.skip(at + 4);
                let mut from: usize = at + 4;
                if from < m && rest[from] == '\n' {
                    assert(after[0] == '\n');
                    from = from + 1;
                }
                assert(rest@.subrange(from as int, m as int) =~= if after.len() > 0 && after[0]
                    == '\n' {
                    after.skip(1)
                } else {
                    after
                });
                assert(rest@.subrange(0, at as int) =~= rest@.take(at as int));
                return (Some(string_range(&rest, 0, at)), string_range(&rest, from, m));
            },
            None => {},
        }
    }
    (None, raw.to_owned())
}

// ---------------------------------------------------------------------------
// Headings
// ---------------------------------------------------------------------------

/// The URL form of a heading: its words in lower case, with dashes between.
pub open spec fn slug(text: Seq<char>) -> Seq<char> {
    join(terms(text), "-"@)
}

/// The end of the run of `#` that starts at `i`.
pub open spec fn hashes(s: Seq<char>, i: int) -> int
    decreases s.len() - i,
{
    if 0 <= i < s.len() && s[i] == '#' {
        hashes(s, i + 1)
    } else {
        i
    }
}

/// The heading that a line is: one to six `#`, white space, and some text.
pub open spec fn heading_of(line: Seq<char>) -> Option<HeadingView> {
    let level = hashes(line, 0);
    let text = trim(line.skip(level));
    if 1 <= level <= 6 && level < line.len() && is_white(line[level]) && text.len() > 0 {
        Some(HeadingView { level: level as nat, text, slug: slug(text) })
    } else {
        None
    }
}

/// The headings among the lines from `i` on.
pub open spec fn headings_from(ls: Seq<Seq<char>>, i: int) -> Seq<HeadingView>
    decreases ls.len() - i,
{
    if i < 0 || i >= ls.len() {
        seq![]
    } else {
        match heading_of(ls[i]) {
            Some(h) => seq![h] + headings_from(ls, i + 1),
            None => headings_from(ls, i + 1),
        }
    }
}

fn slugify(text: &str) -> (r: String)
    ensures
        r@ == slug(text@),
{
    let words = tokenize(text);
    join_strings(&words, "-")
}

/// The heading that a line is, if it is one.
pub fn parse_heading(line: &str) -> (r: Option<Heading>)
    ensures
        match r {
            Some(h) => heading_of(line@) == Some(h@) && 1 <= h.level <= 6,
            None => heading_of(line@) is None,
        },
{
    let v = chars_of(line);
    let mut level: usize = 0;
    while level < v.len() && v[level] == '#'
        invariant
            level <= v@.len(),
            hashes(v@, 0) == hashes(v@, level as int),
        decreases v@.len() - level,
    {
        level = level + 1;
    }
    if level == 0 || level > 6 {
        return None;
    }
    if level >= v.len() || !is_whitespace(v[level]) {
        return None;
    }
    let rest = string_range(&v, level, v.len());
    assert(rest@ =~= line@.skip(level as int));
    let text = trim_str(rest.as_str());
    if text.as_str().is_empty() {
        return None;
    }
    let s = slugify(text.as_str());
    Some(Heading { level, text, slug: s })
}

fn parse_headings(body: &str) -> (r: Vec<Heading>)
    ensures
        headings_view(r@) == headings_from(lines(body@), 0),
        forall|k: int| 0 <= k < r@.len() ==> 1 <= (#[trigger] r@[k]).level <= 6,
{
    let ls = lines_of(body);
    let ghost all = texts(ls@);
    let mut out: Vec<Heading> = Vec::new();
    let mut i: usize = 0;
    while i < ls.len()
        invariant
            i <= ls@.len(),
            all == texts(ls@),
            headings_from(all, 0) == headings_view(out@) + headings_from(all, i as int),
            forall|k: int| 0 <= k < out@.len() ==> 1 <= (#[trigger] out@[k]).level <= 6,
        decreases ls@.len() - i,
    {
        match parse_heading(ls[i].as_str()) {
            Some(h) => {
                let ghost prev = headings_view(out@);
                let ghost hv = h@;
                out.push(h);
                assert(headings_view(out@) =~= prev.push(hv));
                assert(prev + (seq![hv] + headings_from(all, i + 1)) =~= headings_view(out@)
                    + headings_from(all, i + 1));
            },
            None => {},
        }
        i = i + 1;
    }
    assert(headings_view(out@) + headings_from(all, i as int) =~= headings_view(out@));
    out
}

// ---------------------------------------------------------------------------
// Wikilinks
// ---------------------------------------------------------------------------

/// Where the text of the wikilink that starts at `i` ends: two brackets, one
/// or more characters other than `]`, two brackets.
pub open spec fn link_end(s: Seq<char>, i: int) -> Option<int> {
    if 0 <= i && i + 2 <= s.len() && s[i] == '[' && s[i + 1] == '[' {
        let j = next_char(s, ']', i + 2);
        if i + 2 < j && j + 1 < s.len() && s[j + 1] == ']' {
            Some(j)
        } else {
            None
        }
    } else {
        None
    }
}

/// The parts of a wikilink: `target#heading|alias` or `target#^block|alias`.
pub open spec fn link_parts(inner: Seq<char>, raw: Seq<char>) -> LinkView {
    let bar = next_char(inner, '|', 0);
    let link = if bar < inner.len() {
        inner.take(bar)
    } else {
        inner
    };
    let alias = if bar < inner.len() {
        Some(trim(inner.skip(bar + 1)))
    } else {
        None
    };
    let hash = next_char(link, '#', 0);
    if hash < link.len() {
        let after = link.skip(hash + 1);
        if after.len() > 0 && after[0] == '^' {
            LinkView {
                target: trim(link.take(hash)),
                heading: None,
                block: Some(trim(after.skip(1))),
                alias,
                raw,
            }
        } else {
            LinkView {
                target: trim(link.take(hash)),
                heading: Some(trim(after)),
                block: None,
                alias,
                raw,
            }
        }
    } else {
        LinkView { target: trim(link), heading: None, block: None, alias, raw }
    }
}

/// The wikilinks of `s[i..]`, from the left, none inside another.
pub open spec fn wikilinks_from(s: Seq<char>, i: int) -> Seq<LinkView>
    decreases s.len() - i,
{
    if i < 0 || i >= s.len() {
        seq![]
    } else {
        match link_end(s, i) {
            Some(j) => if i < j && j + 2 <= s.len() {
                seq![link_parts(s.subrange(i + 2, j), s.subrange(i, j + 2))] + wikilinks_from(
                    s,
                    j + 2,
                )
            } else {
                seq![]
            },
            None => wikilinks_from(s, i + 1),
        }
    }
}

/// A wikilink in a text is never empty.
pub proof fn lemma_links_have_text(s: Seq<char>, i: int)
    requires
        0 <= i,
    ensures
        forall|k: int|
            0 <= k < wikilinks_from(s, i).len() ==> (#[trigger] wikilinks_from(
                s,
                i,
            )[k]).raw.len() > 0,
    decreases s.len() - i,
{
    if i < s.len() {
        match link_end(s, i) {
            Some(j) => {
                lemma_next_char(s, ']', i + 2);
                lemma_links_have_text(s, j + 2);
                let rest = wikilinks_from(s, j + 2);
                let all = wikilinks_from(s, i);
                assert forall|k: int| 0 <= k < all.len() implies (#[trigger] all[k]).raw.len() > 0 by {
                    if k > 0 {
                        assert(all[k] == rest[k - 1]);
                    } else {
                        assert(all[0].raw == s.subrange(i, j + 2));
                    }
                }
            },
            None => {
                lemma_links_have_text(s, i + 1);
            },
        }
    }
}

fn parse_link(inner: &Vec<char>, raw: String) -> (r: WikiLink)
    ensures
        r@ == link_parts(inner@, raw@),
{
    let n: usize = inner.len();
    let bar: usize = find_char(inner, '|', 0);
    let alias: Option<String> = if bar < n {
        let a = string_range(inner, bar + 1, n);
        assert(a@ =~= inner@.skip(bar + 1));
        Some(trim_str(a.as_str()))
    } else {
        None
    };
    let link_str = string_range(inner, 0, bar);
    assert(link_str@ =~= if bar < n {
        inner@.take(bar as int)
    } else {
        inner@
    });
    let link = chars_of(link_str.as_str());
    let m: usize = link.len();
    let hash: usize = find_char(&link, '#', 0);
    if hash < m {
        let target_str = string_range(&link, 0, hash);
        assert(target_str@ =~= link@.take(hash as int));
        let target = trim_str(target_str.as_str());
        let ghost after = link@.skip(hash + 1);
        if hash + 1 < m && link[hash + 1] == '^' {
            assert(after[0] == '^');
            let b = string_range(&link, hash + 2, m);
            assert(b@ =~= after.skip(1));
            let block = Some(trim_str(b.as_str()));
            WikiLink { target, heading: None, block, alias, raw }
        } else {
            let h = string_range(&link, hash + 1, m);
            assert(h@ =~= after);
            let heading = Some(trim_str(h.as_str()));
            WikiLink { target, heading, block: None, alias, raw }
        }
    } else {
        let target = trim_str(link_str.as_str());
        WikiLink { target, heading: None, block: None, alias, raw }
    }
}

/// The wikilinks of a text.
pub fn extract_wikilinks(body: &str) -> (r: Vec<WikiLink>)
    ensures
        links_view(r@) == wikilinks_from(body@, 0),
{
    let v = chars_of(body);
    let n: usize = v.len();
    let mut out: Vec<WikiLink> = Vec::new();
    let mut i: usize = 0;
    while i < n
        invariant
            n == v@.len(),
            v@ == body@,
            i <= n,
            wikilinks_from(body@, 0) == links_view(out@) + wikilinks_from(body@, i as int),
        decreases n - i,
    {
        let mut step: usize = i + 1;
        if n - i >= 2 && v[i] == '[' && v[i + 1] == '[' {
            let j: usize = find_char(&v, ']', i + 2);
            if j > i + 2 && j < n && j + 1 < n && v[j + 1] == ']' {
                assert(link_end(body@, i as int) == Some(j as int));
                let raw = string_range(&v, i, j + 2);
                let inner_str = string_range(&v, i + 2, j);
                let inner = chars_of(inner_str.as_str());
                let link = parse_link(&inner, raw);
                let ghost prev = links_view(out@);
                let ghost lv = link@;
                out.push(link);
                assert(links_view(out@) =~= prev.push(lv));
                assert(prev + (seq![lv] + wikilinks_from(body@, j + 2)) =~= links_view(out@)
                    + wikilinks_from(body@, j + 2));
                step = j + 2;
            }
        }
        i = step;
    }
    assert(links_view(out@) + wikilinks_from(body@, i as int) =~= links_view(out@));
    out
}

// ---------------------------------------------------------------------------
// Tags
// ---------------------------------------------------------------------------

/// The characters of an inline tag.
pub open spec fn is_tag_char(c: char) -> bool {
    is_alnum(c) || c == '_' || c == '/' || c == '-'
}

fn tag_char(c: char) -> (r: bool)
    ensures
        r == is_tag_char(c),
{
    is_alnum_char(c) || c == '_' || c == '/' || c == '-'
}

/// The end of the run of tag characters that starts at `i`.
pub open spec fn tag_end(s: Seq<char>, i: int) -> int
    decreases s.len() - i,
{
    if 0 <= i < s.len() && is_tag_char(s[i]) {
        tag_end(s, i + 1)
    } else {
        i
    }
}

/// Where the name of an inline tag starts that is matched at `i`: a `#` at the
/// very start of the text, or one behind white space, and a name.
pub open spec fn tag_start(s: Seq<char>, i: int) -> Option<int> {
    if i == 0 && s.len() >= 2 && s[0] == '#' && is_tag_char(s[1]) {
        Some(1)
    } else if 0 <= i && i + 3 <= s.len() && is_white(s[i]) && s[i + 1] == '#' && is_tag_char(
        s[i + 2],
    ) {
        Some(i + 2)
    } else {
        None
    }
}

/// The inline tags of `s[i..]`, from the left.
pub open spec fn inline_tags_from(s: Seq<char>, i: int) -> Seq<Seq<char>>
    decreases s.len() - i,
{
    if i < 0 || i >= s.len() {
        seq![]
    } else {
        match tag_start(s, i) {
            Some(a) => {
                let b = tag_end(s, a);
                if i < b <= s.len() {
                    seq![s.subrange(a, b)] + inline_tags_from(s, b)
                } else {
                    seq![]
                }
            },
            None => inline_tags_from(s, i + 1),
        }
    }
}

/// The inline tags of a text, in order, repeats and all.
pub fn inline_tags(body: &str) -> (r: Vec<String>)
    ensures
        texts(r@) == inline_tags_from(body@, 0),
{
    let v = chars_of(body);
    let n: usize = v.len();
    let mut out: Vec<String> = Vec::new();
    let mut i: usize = 0;
    while i < n
        invariant
            n == v@.len(),
            v@ == body@,
            i <= n,
            inline_tags_from(body@, 0) == texts(out@) + inline_tags_from(body@, i as int),
        decreases n - i,
    {
        let mut a: usize = 0;
        if i == 0 && n >= 2 && v[0] == '#' && tag_char(v[1]) {
            a = 1;
        } else if n - i >= 3 && is_whitespace(v[i]) && v[i + 1] == '#' && tag_char(v[i + 2]) {
            a = i + 2;
        }
        if a > 0 {
            assert(tag_start(body@, i as int) == Some(a as int));
            let mut b: usize = a;
            while b < n && tag_char(v[b])
                invariant
                    n == v@.len(),
                    v@ == body@,
                    a <= b <= n,
                    a < n,
                    is_tag_char(v@[a as int]),
                    tag_end(body@, a as int) == tag_end(body@, b as int),
                decreases n - b,
            {
                b = b + 1;
            }
            assert(b > a);
            let ghost prev = texts(out@);
            out.push(string_range(&v, a, b));
            assert(texts(out@) =~= prev.push(body@.subrange(a as int, b as int)));
            assert(prev + (seq![body@.subrange(a as int, b as int)] + inline_tags_from(
                body@,
                b as int,
            )) =~= texts(out@) + inline_tags_from(body@, b as int));
            i = b;
        } else {
            assert(tag_start(body@, i as int) is None);
            i = i + 1;
        }
    }
    assert(texts(out@) + inline_tags_from(body@, i as int) =~= texts(out@));
    out
}

/// The characters that part tags in a frontmatter text.
pub open spec fn is_tag_break(c: char) -> bool {
    c == ',' || c == ' ' || c == '\t'
}

/// The end of the run of other characters that starts at `i`.
pub open spec fn piece_end(s: Seq<char>, i: int) -> int
    decreases s.len() - i,
{
    if 0 <= i < s.len() && !is_tag_break(s[i]) {
        piece_end(s, i + 1)
    } else {
        i
    }
}

/// The non-empty pieces of `s[i..]` between commas, blanks and tabs.
pub open spec fn pieces_from(s: Seq<char>, i: int) -> Seq<Seq<char>>
    decreases s.len() - i,
{
    if i < 0 || i >= s.len() {
        seq![]
    } else if is_tag_break(s[i]) {
        pieces_from(s, i + 1)
    } else {
        let j = piece_end(s, i);
        if i < j <= s.len() {
            seq![s.subrange(i, j)] + pieces_from(s, j)
        } else {
            seq![]
        }
    }
}

fn tag_pieces(text: &str) -> (r: Vec<String>)
    ensures
        texts(r@) == pieces_from(text@, 0),
{
    let v = chars_of(text);
    let n: usize = v.len();
    let mut out: Vec<String> = Vec::new();
    let mut i: usize = 0;
    while i < n
        invariant
            n == v@.len(),
            v@ == text@,
            i <= n,
            pieces_from(text@, 0) == texts(out@) + pieces_from(text@, i as int),
        decreases n - i,
    {
        if v[i] == ',' || v[i] == ' ' || v[i] == '\t' {
            i = i + 1;
        } else {
            let mut j: usize = i + 1;
            while j < n && !(v[j] == ',' || v[j] == ' ' || v[j] == '\t')
                invariant
                    n == v@.len(),
                    v@ == text@,
                    i < j <= n,
                    piece_end(text@, i as int) == piece_end(text@, j as int),
                decreases n - j,
            {
                j = j + 1;
            }
            let ghost prev = texts(out@);
            out.push(string_range(&v, i, j));
            assert(texts(out@) =~= prev.push(text@.subrange(i as int, j as int)));
            assert(prev + (seq![text@.subrange(i as int, j as int)] + pieces_from(text@, j as int))
                =~= texts(out@) + pieces_from(text@, j as int));
            i = j;
        }
    }
    assert(texts(out@) + pieces_from(text@, i as int) =~= texts(out@));
    out
}

/// The texts among the items from `i` on.
pub open spec fn strings_from(items: Seq<YamlView>, i: int) -> Seq<Seq<char>>
    decreases items.len() - i,
{
    if i < 0 || i >= items.len() {
        seq![]
    } else {
        match yaml_str(items[i]) {
            Some(s) => seq![s] + strings_from(items, i + 1),
            None => strings_from(items, i + 1),
        }
    }
}

/// The texts among the items of a sequence.
pub(crate) fn list_strings(items: &Vec<Yaml>) -> (r: Vec<String>)
    ensures
        texts(r@) == strings_from(items_view(items@), 0),
{
    let ghost all = items_view(items@);
    let mut out: Vec<String> = Vec::new();
    let mut i: usize = 0;
    while i < items.len()
        invariant
            i <= items@.len(),
            all == items_view(items@),
            strings_from(all, 0) == texts(out@) + strings_from(all, i as int),
        decreases items@.len() - i,
    {
        assert(all[i as int] == items@[i as int]@);
        match items[i].as_str() {
            Some(s) => {
                let ghost prev = texts(out@);
                out.push(s.to_owned());
                assert(texts(out@) =~= prev.push(s@));
                assert(prev + (seq![s@] + strings_from(all, i + 1)) =~= texts(out@) + strings_from(
                    all,
                    i + 1,
                ));
            },
            None => {},
        }
        i = i + 1;
    }
    assert(texts(out@) + strings_from(all, i as int) =~= texts(out@));
    out
}

/// The tags that a frontmatter declares: a sequence of texts, or one text
/// with several in it.
pub open spec fn declared_tags(fm: YamlView) -> Seq<Seq<char>> {
    match yaml_get(fm, "tags"@) {
        Some(YamlView::List(items)) => strings_from(items, 0),
        Some(YamlView::Text(s)) => pieces_from(s, 0),
        _ => seq![],
    }
}

fn frontmatter_tags(fm: &Yaml) -> (r: Vec<String>)
    ensures
        texts(r@) == declared_tags(fm@),
{
    match fm.get("tags") {
        Some(y) => {
            proof {
                lemma_model(*y);
            }
            match y {
                Yaml::List(items) => list_strings(items),
                Yaml::Text(s) => tag_pieces(s.as_str()),
                _ => {
                    let out: Vec<String> = Vec::new();
                    assert(texts(out@) =~= seq![]);
                    out
                },
            }
        },
        None => {
            let out: Vec<String> = Vec::new();
            assert(texts(out@) =~= seq![]);
            out
        },
    }
}

/// `seen` with those of `more` from `i` on that are not yet there.
pub open spec fn with_new(seen: Seq<Seq<char>>, more: Seq<Seq<char>>, i: int) -> Seq<Seq<char>>
    decreases more.len() - i,
{
    if i < 0 || i >= more.len() {
        seen
    } else if seen.contains(more[i]) {
        with_new(seen, more, i + 1)
    } else {
        with_new(seen.push(more[i]), more, i + 1)
    }
}

pub(crate) fn add_new(seen: Vec<String>, more: &Vec<String>) -> (r: Vec<String>)
    ensures
        texts(r@) == with_new(texts(seen@), texts(more@), 0),
{
    let ghost start = texts(seen@);
    let ghost m = texts(more@);
    let mut out = seen;
    let mut i: usize = 0;
    while i < more.len()
        invariant
            i <= more@.len(),
            m == texts(more@),
            with_new(start, m, 0) == with_new(texts(out@), m, i as int),
        decreases more@.len() - i,
    {
        if !has_string(&out, more[i].as_str()) {
            let ghost prev = texts(out@);
            out.push(more[i].clone());
            assert(texts(out@) =~= prev.push(m[i as int]));
        }
        i = i + 1;
    }
    out
}

/// The tags of a note: those that the frontmatter declares, then those in the
/// text, each once.
pub open spec fn tags_of(body: Seq<char>, fm: YamlView) -> Seq<Seq<char>> {
    with_new(with_new(seq![], declared_tags(fm), 0), inline_tags_from(body, 0), 0)
}

fn extract_tags(body: &str, fm: &Yaml) -> (r: Vec<String>)
    ensures
        texts(r@) == tags_of(body@, fm@),
{
    let declared = frontmatter_tags(fm);
    let none: Vec<String> = Vec::new();
    assert(texts(none@) =~= seq![]);
    let first = add_new(none, &declared);
    let inline = inline_tags(body);
    add_new(first, &inline)
}

// ---------------------------------------------------------------------------
// Notes
// ---------------------------------------------------------------------------

/// The text of the first heading of level one from `i` on.
pub open spec fn first_title_from(hs: Seq<HeadingView>, i: int) -> Option<Seq<char>>
    decreases hs.len() - i,
{
    if i < 0 || i >= hs.len() {
        None
    } else if hs[i].level == 1 {
        Some(hs[i].text)
    } else {
        first_title_from(hs, i + 1)
    }
}

/// The title of a note: the one that the frontmatter declares, else its first
/// heading of level one, else the last part of its id.
pub open spec fn title_of(fm: YamlView, hs: Seq<HeadingView>, id: Seq<char>) -> Seq<char> {
    let declared = match yaml_get(fm, "title"@) {
        Some(y) => yaml_str(y),
        None => None,
    };
    match declared {
        Some(t) => t,
        None => match first_title_from(hs, 0) {
            Some(t) => t,
            None => base_name(id),
        },
    }
}

/// The note of a frontmatter, a body and a path.
pub open spec fn note_of(fm: YamlView, body: Seq<char>, path: Seq<char>) -> NoteView {
    let id = without_md(path);
    let headings = headings_from(lines(body), 0);
    NoteView {
        id,
        path,
        title: title_of(fm, headings, id),
        frontmatter: fm,
        content: body,
        headings,
        links: wikilinks_from(body, 0),
        tags: tags_of(body, fm),
    }
}

/// The note of a raw file.
pub open spec fn parsed(raw: Seq<char>, path: Seq<char>) -> NoteView {
    note_of(frontmatter_of(raw), sections(raw).1, path)
}

/// The note of a frontmatter, a body and a path.
pub fn build_note(frontmatter: Yaml, body: String, rel_path: &str) -> (r: Note)
    ensures
        r@ == note_of(frontmatter@, body@, rel_path@),
        forall|k: int| 0 <= k < r.headings@.len() ==> 1 <= (#[trigger] r.headings@[k]).level <= 6,
{
    let id = strip_md(rel_path);
    let headings = parse_headings(body.as_str());
    let ghost hs = headings_view(headings@);
    let declared: Option<String> = match frontmatter.get("title") {
        Some(y) => match y.as_str() {
            Some(s) => Some(s.to_owned()),
            None => None,
        },
        None => None,
    };
    let title: String = match declared {
        Some(t) => t,
        None => {
            let mut found: Option<String> = None;
            let mut i: usize = 0;
            while i < headings.len() && found.is_none()
                invariant
                    i <= headings@.len(),
                    hs == headings_view(headings@),
                    match found {
                        Some(t) => first_title_from(hs, 0) == Some(t@),
                        None => first_title_from(hs, 0) == first_title_from(hs, i as int),
                    },
                decreases headings@.len() - i,
            {
                assert(hs[i as int] == headings@[i as int]@);
                if headings[i].level == 1 {
                    found = Some(headings[i].text.clone());
                }
                i = i + 1;
            }
            match found {
                Some(t) => t,
                None => base_of(id.as_str()),
            }
        },
    };
    let links = extract_wikilinks(body.as_str());
    let tags = extract_tags(body.as_str(), &frontmatter);
    Note {
        id,
        path: rel_path.to_owned(),
        title,
        frontmatter,
        content: body,
        headings,
        links,
        tags,
    }
}

/// Parses a raw Markdown file into a note.
pub fn parse_note(raw: &str, rel_path: &str) -> (r: Note)
    ensures
        r@ == parsed(raw@, rel_path@),
        forall|k: int| 0 <= k < r.headings@.len() ==> 1 <= (#[trigger] r.headings@[k]).level <= 6,
{
    let (fm_text, body) = split_sections(raw);
    let frontmatter = match fm_text {
        Some(t) => match parse_yaml(t.as_str()) {
            Some(y) => y,
            None => empty_table(),
        },
        None => empty_table(),
    };
    build_note(frontmatter, body, rel_path)
}

} // verus!

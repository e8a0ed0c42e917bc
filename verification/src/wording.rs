//! What holds of texts and paths, whatever way they are walked.
use crate::paths::{base_name, is_markdown_name, join_path, without_md};
use crate::text::{
    back_white, has_suffix, is_white, lemma_next_match, matches_at, next_match, replace_all,
    replace_from, skip_white, trim, trim_end, trim_start,
};
use vstd::prelude::*;

verus! {

/// Whether all characters are white space.
pub open spec fn blank(s: Seq<char>) -> bool {
    forall|k: int| 0 <= k < s.len() ==> is_white(#[trigger] s[k])
}

/// No ASCII character that can be seen is white space; a space, a tab and the ends of a
/// line are.
pub proof fn law_what_can_be_seen_is_not_white(c: char)
    ensures
        0x21 <= c as int <= 0x7e ==> !is_white(c),
        c == ' ' || c == '\t' || c == '\n' || c == '\r' ==> is_white(c),
{
}

proof fn lemma_skip_to(s: Seq<char>, i: int, j: int)
    requires
        0 <= i <= j <= s.len(),
        forall|k: int| i <= k < j ==> is_white(#[trigger] s[k]),
        j < s.len() ==> !is_white(s[j]),
    ensures
        skip_white(s, i) == j,
    decreases j - i,
{
    if i < j {
        assert(is_white(s[i]));
        lemma_skip_to(s, i + 1, j);
    }
}

proof fn lemma_back_to(s: Seq<char>, i: int, j: int)
    requires
        0 <= i <= j <= s.len(),
        forall|k: int| i <= k < j ==> is_white(#[trigger] s[k]),
        i > 0 ==> !is_white(s[i - 1]),
    ensures
        back_white(s, j) == i,
    decreases j - i,
{
    if i < j {
        assert(is_white(s[j - 1]));
        lemma_back_to(s, i, j - 1);
    }
}

/// Trimming drops the white space round a text, and nothing of the text.
pub proof fn law_trimming_drops_white_space_alone(a: Seq<char>, s: Seq<char>, b: Seq<char>)
    requires
        blank(a),
        blank(b),
        s.len() > 0 ==> !is_white(s[0]) && !is_white(s.last()),
    ensures
        trim(a + s + b) == s,
        s.len() > 0 ==> trim_start(a + s + b) == s + b,
        trim_end(s + b) == s,
{
    let t = a + s + b;
    if s.len() > 0 {
        assert forall|k: int| 0 <= k < a.len() implies is_white(#[trigger] t[k]) by {
            assert(t[k] == a[k]);
        }
        assert(t[a.len() as int] == s[0]);
        lemma_skip_to(t, 0, a.len() as int);
        assert(trim_start(t) =~= s + b);
    } else {
        assert forall|k: int| 0 <= k < t.len() implies is_white(#[trigger] t[k]) by {
            if k < a.len() {
                assert(t[k] == a[k]);
            } else {
                assert(t[k] == b[k - a.len()]);
            }
        }
        lemma_skip_to(t, 0, t.len() as int);
        assert(trim_start(t) =~= seq![]);
        assert(trim(t) =~= s);
    }
    let u = s + b;
    assert forall|k: int| s.len() <= k < u.len() implies is_white(#[trigger] u[k]) by {
        assert(u[k] == b[k - s.len()]);
    }
    if s.len() > 0 {
        assert(u[s.len() - 1] == s.last());
    }
    lemma_back_to(u, s.len() as int, u.len() as int);
    assert(trim_end(u) =~= s);
}

proof fn lemma_replace_behind(
    p: Seq<char>,
    y: Seq<char>,
    from: Seq<char>,
    to: Seq<char>,
    i: int,
)
    requires
        0 <= i <= y.len(),
        from.len() > 0,
    ensures
        replace_from(p + y, from, to, p.len() + i) == replace_from(y, from, to, i),
    decreases y.len() - i,
{
    let s = p + y;
    let n: int = p.len() as int;
    lemma_next_match(y, from, i);
    lemma_next_match(s, from, n + i);
    assert forall|k: int| 0 <= k implies #[trigger] matches_at(y, from, k) == matches_at(
        s,
        from,
        n + k,
    ) by {
        if k + from.len() <= y.len() {
            assert(y.subrange(k, k + from.len()) =~= s.subrange(n + k, n + k + from.len()));
        }
    }
    match next_match(y, from, i) {
        Some(j) => {
            assert(matches_at(y, from, j));
            assert(matches_at(s, from, n + j));
            match next_match(s, from, n + i) {
                Some(m) => {
                    if m < n + j {
                        assert(matches_at(y, from, m - n));
                    }
                },
                None => {},
            }
            assert(next_match(s, from, n + i) == Some(n + j));
            assert(s.subrange(n + i, n + j) =~= y.subrange(i, j));
            lemma_replace_behind(p, y, from, to, j + from.len());
        },
        None => {
            match next_match(s, from, n + i) {
                Some(m) => {
                    assert(matches_at(y, from, m - n));
                },
                None => {},
            }
            assert(s.subrange(n + i, s.len() as int) =~= y.subrange(i, y.len() as int));
        },
    }
}

/// What is replaced gives way where it stands first, and the rest goes on behind it; a
/// text in which it does not stand stays.
pub proof fn law_replacing_goes_from_left_to_right(
    a: Seq<char>,
    from: Seq<char>,
    b: Seq<char>,
    to: Seq<char>,
)
    requires
        from.len() > 0,
        forall|k: int| 0 <= k < a.len() ==> !#[trigger] matches_at(a + from + b, from, k),
    ensures
        replace_all(a + from + b, from, to) == a + to + replace_all(b, from, to),
        (forall|k: int| 0 <= k ==> !#[trigger] matches_at(b, from, k)) ==> replace_all(b, from, to)
            == b,
{
    let s = a + from + b;
    let n: int = a.len() as int;
    lemma_next_match(s, from, 0);
    assert(s.subrange(n, n + from.len()) =~= from);
    assert(matches_at(s, from, n));
    assert(next_match(s, from, 0) == Some(n));
    assert(s.subrange(0, n) =~= a);
    let p = a + from;
    assert(s =~= p + b);
    lemma_replace_behind(p, b, from, to, 0);
    lemma_next_match(b, from, 0);
    assert(b.subrange(0, b.len() as int) =~= b);
}

// ---------------------------------------------------------------------------
// Paths
// ---------------------------------------------------------------------------

proof fn lemma_base_behind(dir: Seq<char>, name: Seq<char>)
    requires
        !name.contains('/'),
        dir.len() == 0 || dir.last() == '/',
    ensures
        base_name(dir + name) == name,
    decreases name.len(),
{
    let s = dir + name;
    if name.len() > 0 {
        assert(s.last() == name.last());
        assert(name[name.len() - 1] == name.last());
        assert(s.drop_last() =~= dir + name.drop_last());
        assert(!name.drop_last().contains('/')) by {
            if name.drop_last().contains('/') {
                let k = choose|k: int| 0 <= k < name.len() - 1 && name.drop_last()[k] == '/';
                assert(name[k] == '/');
            }
        }
        lemma_base_behind(dir, name.drop_last());
        assert(name.drop_last().push(name.last()) =~= name);
    } else {
        assert(s =~= dir);
        assert(base_name(s) =~= name);
    }
}

/// A name put under a directory is the last part of the path, and one that starts at the
/// root stands alone.
pub proof fn law_a_path_ends_with_its_name(base: Seq<char>, name: Seq<char>)
    ensures
        !name.contains('/') ==> base_name(join_path(base, name)) == name,
        name.len() > 0 && name[0] == '/' ==> join_path(base, name) == name,
        name.len() == 0 || name[0] != '/' ==> has_suffix(join_path(base, name), name)
            && join_path(base, name).take(base.len() as int) == base
            && join_path(base, name).len() <= base.len() + 1 + name.len(),
{
    reveal_strlit("/");
    let p = join_path(base, name);
    if !name.contains('/') {
        if name.len() > 0 {
            assert(name[0] != '/');
        }
        if base.len() == 0 || base.last() == '/' {
            lemma_base_behind(base, name);
        } else {
            assert((base + "/"@).last() == '/');
            lemma_base_behind(base + "/"@, name);
        }
    }
    if name.len() == 0 || name[0] != '/' {
        assert(p.subrange(p.len() - name.len(), p.len() as int) =~= name);
        assert(p.take(base.len() as int) =~= base);
    }
}

/// The ending of a Markdown file is taken off once, and only at the end.
pub proof fn law_only_the_ending_is_taken_off(stem: Seq<char>)
    ensures
        without_md(stem + ".md"@) == stem,
        !has_suffix(stem, ".md"@) ==> without_md(stem) == stem,
        is_markdown_name(stem + ".md"@) <==> stem.len() > 0,
        is_markdown_name(stem) ==> without_md(stem) + ".md"@ == stem,
{
    reveal_strlit(".md");
    let s = stem + ".md"@;
    assert(s.subrange(s.len() - 3, s.len() as int) =~= ".md"@);
    assert(s.take(s.len() - 3) =~= stem);
    if is_markdown_name(stem) {
        assert(stem =~= stem.take(stem.len() - 3) + stem.subrange(
            stem.len() - 3,
            stem.len() as int,
        ));
    }
}

} // verus!

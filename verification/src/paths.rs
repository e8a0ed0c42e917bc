//! File paths as text, with `/` between their components.
use crate::text::{
    chars_of, has_suffix, join, join_strings, lemma_join_split, lemma_pieces_are_plain,
    lemma_split_join, split_char, split_on, str_eq, string_range, texts,
};
use vstd::prelude::*;
use vstd::string::*;

verus! {

/// `part` under `base`: an absolute `part` stands alone, and a separator is
/// put in where `base` ends without one.
pub open spec fn join_path(base: Seq<char>, part: Seq<char>) -> Seq<char> {
    if part.len() > 0 && part[0] == '/' {
        part
    } else if base.len() == 0 || base.last() == '/' {
        base + part
    } else {
        base + "/"@ + part
    }
}

pub(crate) fn path_join(base: &str, part: &str) -> (r: String)
    ensures
        r@ == join_path(base@, part@),
{
    let b = chars_of(base);
    let p = chars_of(part);
    if p.len() > 0 && p[0] == '/' {
        return part.to_owned();
    }
    let mut out = base.to_owned();
    if !(b.len() == 0 || b[b.len() - 1] == '/') {
        out.append("/");
    }
    out.append(part);
    out
}

/// Whether a file name has the extension `md`: something, a dot, `md`.
pub open spec fn is_markdown_name(name: Seq<char>) -> bool {
    name.len() > 3 && has_suffix(name, ".md"@)
}

pub(crate) fn markdown_name(name: &str) -> (r: bool)
    ensures
        r == is_markdown_name(name@),
{
    let v = chars_of(name);
    proof {
        reveal_strlit(".md");
    }
    if v.len() <= 3 {
        return false;
    }
    let n: usize = v.len();
    let r: bool = v[n - 3] == '.' && v[n - 2] == 'm' && v[n - 1] == 'd';
    proof {
        let tail = name@.subrange(n - 3, n as int);
        assert(tail[0] == v@[n - 3] && tail[1] == v@[n - 2] && tail[2] == v@[n - 1]);
        if r {
            assert(tail =~= ".md"@);
        }
    }
    r
}

/// What stands behind the last `/` of a path.
pub open spec fn base_name(path: Seq<char>) -> Seq<char>
    decreases path.len(),
{
    if path.len() == 0 || path.last() == '/' {
        seq![]
    } else {
        base_name(path.drop_last()).push(path.last())
    }
}

proof fn lemma_base_name(path: Seq<char>, i: int)
    requires
        0 <= i <= path.len(),
        i == 0 || path[i - 1] == '/',
        forall|k: int| i <= k < path.len() ==> #[trigger] path[k] != '/',
    ensures
        base_name(path) == path.subrange(i, path.len() as int),
    decreases path.len(),
{
    if path.len() == i {
        assert(base_name(path) =~= path.subrange(i, path.len() as int));
    } else {
        lemma_base_name(path.drop_last(), i);
        assert(path.drop_last().subrange(i, path.len() - 1).push(path.last()) =~= path.subrange(
            i,
            path.len() as int,
        ));
    }
}

pub(crate) fn base_of(path: &str) -> (r: String)
    ensures
        r@ == base_name(path@),
{
    let v = chars_of(path);
    let mut i: usize = v.len();
    while i > 0 && v[i - 1] != '/'
        invariant
            i <= v@.len(),
            v@ == path@,
            forall|k: int| i <= k < v@.len() ==> #[trigger] v@[k] != '/',
        decreases i,
    {
        i = i - 1;
    }
    proof {
        lemma_base_name(path@, i as int);
    }
    string_range(&v, i, v.len())
}

/// A path without the suffix `.md`.
pub open spec fn without_md(path: Seq<char>) -> Seq<char> {
    if has_suffix(path, ".md"@) {
        path.take(path.len() - 3)
    } else {
        path
    }
}

pub(crate) fn strip_md(path: &str) -> (r: String)
    ensures
        r@ == without_md(path@),
{
    let v = chars_of(path);
    let n: usize = v.len();
    proof {
        reveal_strlit(".md");
    }
    if n >= 3 && v[n - 3] == '.' && v[n - 2] == 'm' && v[n - 1] == 'd' {
        assert(path@.subrange(n - 3, n as int) =~= ".md"@);
        assert(path@.take(n - 3) =~= path@.subrange(0, n - 3));
        string_range(&v, 0, n - 3)
    } else {
        proof {
            if has_suffix(path@, ".md"@) {
                let tail = path@.subrange(n - 3, n as int);
                assert(tail[0] == v@[n - 3] && tail[1] == v@[n - 2] && tail[2] == v@[n - 1]);
            }
        }
        path.to_owned()
    }
}

// ---------------------------------------------------------------------------
// One name for each file
// ---------------------------------------------------------------------------

/// The directories that the first `n` parts of a path lead through: one that
/// stays where it is is left out, and one that goes up takes the one before it
/// away, where there is one.
pub open spec fn folded(parts: Seq<Seq<char>>, n: int) -> Seq<Seq<char>>
    decreases n,
{
    if n <= 0 {
        seq![]
    } else {
        let p = parts[n - 1];
        let prev = folded(parts, n - 1);
        if p == "."@ || p.len() == 0 && n > 1 {
            prev
        } else if p == ".."@ && prev.len() > 0 && prev.last() != ".."@ {
            if prev.last().len() > 0 {
                prev.drop_last()
            } else {
                prev
            }
        } else {
            prev.push(p)
        }
    }
}

/// The one id under which a note is known, whatever way to its file the given
/// one takes. The last part is never a step: it is the name of the file.
pub open spec fn note_key(id: Seq<char>) -> Seq<char> {
    let parts = split_on(id, '/');
    join(folded(parts, parts.len() - 1).push(parts.last()), "/"@)
}

/// The one id under which a note is known.
pub fn key_of_note(id: &str) -> (r: String)
    ensures
        r@ == note_key(id@),
{
    let parts = split_char(id, '/');
    let ghost ps = texts(parts@);
    let last: usize = parts.len() - 1;
    let mut out: Vec<String> = Vec::new();
    assert(texts(out@) =~= seq![]);
    let mut i: usize = 0;
    while i < last
        invariant
            i <= last < parts@.len(),
            ps == texts(parts@),
            texts(out@) == folded(ps, i as int),
        decreases last - i,
    {
        let p = parts[i].as_str();
        assert(ps[i as int] == p@);
        let ghost prev = texts(out@);
        let n: usize = out.len();
        if str_eq(p, ".") || p.unicode_len() == 0 && i > 0 {
        } else if str_eq(p, "..") && n > 0 && !str_eq(out[n - 1].as_str(), "..") {
            assert(prev.last() == out@[n - 1]@);
            if out[n - 1].as_str().unicode_len() > 0 {
                let _ = out.pop();
                assert(texts(out@) =~= prev.drop_last());
            }
        } else {
            if n > 0 {
                assert(prev.last() == out@[n - 1]@);
            }
            out.push(parts[i].clone());
            assert(texts(out@) =~= prev.push(p@));
        }
        i = i + 1;
    }
    let ghost prev = texts(out@);
    out.push(parts[last].clone());
    assert(texts(out@) =~= prev.push(ps.last()));
    join_strings(&out, "/")
}

/// Whether a path takes no detour: no directory in it is empty, stays where it is
/// or goes up.
pub open spec fn is_straight(id: Seq<char>) -> bool {
    let parts = split_on(id, '/');
    forall|k: int|
        0 <= k < parts.len() - 1 ==> (#[trigger] parts[k]).len() > 0 && parts[k] != "."@ && parts[k]
            != ".."@
}

proof fn lemma_folded(parts: Seq<Seq<char>>, n: int)
    requires
        0 <= n <= parts.len(),
        forall|k: int|
            0 <= k < n ==> (#[trigger] parts[k]).len() > 0 && parts[k] != "."@ && parts[k] != ".."@,
    ensures
        folded(parts, n) == parts.take(n),
    decreases n,
{
    if n > 0 {
        lemma_folded(parts, n - 1);
        assert(parts.take(n) =~= parts.take(n - 1).push(parts[n - 1]));
    } else {
        assert(parts.take(0) =~= seq![]);
    }
}

/// An id that takes no detour is its own key.
pub proof fn law_straight_ids_are_their_own_key(id: Seq<char>)
    requires
        is_straight(id),
    ensures
        note_key(id) == id,
{
    let parts = split_on(id, '/');
    lemma_join_split(id, '/', 0);
    lemma_folded(parts, parts.len() - 1);
    assert(parts.take(parts.len() - 1).push(parts.last()) =~= parts);
    reveal_strlit("/");
    assert("/"@ =~= seq!['/']);
    assert(id.skip(0) =~= id);
}

/// Whether nothing is left to fold in the directories of a path: none stays where
/// it is, only the first can be empty, and one that goes up comes first or behind
/// another.
spec fn is_folded(f: Seq<Seq<char>>) -> bool {
    forall|k: int|
        #![trigger f[k]]
        0 <= k < f.len() ==> f[k] != "."@ && (f[k].len() == 0 ==> k == 0) && (f[k] == ".."@ ==> k == 0
            || f[k - 1] == ".."@) && !f[k].contains('/')
}

proof fn lemma_folded_is_folded(parts: Seq<Seq<char>>, n: int)
    requires
        0 <= n <= parts.len(),
        forall|k: int| 0 <= k < parts.len() ==> !(#[trigger] parts[k]).contains('/'),
    ensures
        is_folded(folded(parts, n)),
        folded(parts, n).len() <= n,
    decreases n,
{
    if n > 0 {
        lemma_folded_is_folded(parts, n - 1);
        let prev = folded(parts, n - 1);
        let now = folded(parts, n);
        let p = parts[n - 1];
        assert forall|k: int|
            #![trigger now[k]]
            0 <= k < now.len() implies now[k] != "."@ && (now[k].len() == 0 ==> k == 0) && (now[k]
            == ".."@ ==> k == 0 || now[k - 1] == ".."@) && !now[k].contains('/') by {
            reveal_strlit("..");
            if k < prev.len() {
                assert(now[k] == prev[k]);
                if k > 0 {
                    assert(now[k - 1] == prev[k - 1]);
                }
            }
        }
    }
}

proof fn lemma_folds_no_more(f: Seq<Seq<char>>, last: Seq<char>, n: int)
    requires
        is_folded(f),
        0 <= n <= f.len(),
    ensures
        folded(f.push(last), n) == f.take(n),
    decreases n,
{
    if n > 0 {
        lemma_folds_no_more(f, last, n - 1);
        let p = f.push(last)[n - 1];
        assert(p == f[n - 1]);
        let prev = f.take(n - 1);
        if n > 1 {
            assert(prev.last() == f[n - 2]);
        }
        assert(f.take(n) =~= prev.push(p));
    } else {
        assert(f.take(0) =~= seq![]);
    }
}

/// A key is its own key.
pub proof fn law_a_key_is_its_own_key(id: Seq<char>)
    ensures
        note_key(note_key(id)) == note_key(id),
{
    let parts = split_on(id, '/');
    lemma_join_split(id, '/', 0);
    lemma_pieces_are_plain(id, '/', 0);
    let f = folded(parts, parts.len() - 1);
    let last = parts.last();
    lemma_folded_is_folded(parts, parts.len() - 1);
    let all = f.push(last);
    assert forall|k: int| 0 <= k < all.len() implies !(#[trigger] all[k]).contains('/') by {
        if k < f.len() {
            assert(all[k] == f[k]);
        } else {
            assert(all[k] == parts[parts.len() - 1]);
        }
    }
    reveal_strlit("/");
    assert("/"@ =~= seq!['/']);
    lemma_split_join(all, '/');
    assert(all.len() - 1 == f.len());
    lemma_folds_no_more(f, last, f.len() as int);
    assert(f.take(f.len() as int) =~= f);
}

} // verus!

//! Rename with automatic wikilink rewriting, as one changeset: create the note
//! under its new id (links to itself rewritten), update every note whose links
//! lead to the old id (alias, heading and block parts kept), delete the old
//! note. This module only builds the changeset.
use crate::error::{error, ErrorView, TacitusError};
use crate::order::positions;
use crate::text::{
    debug_text, is_white, lemma_next_char, lemma_next_char_is, lemma_trim_fixed, lemma_trim_shape,
    next_char, quoted, replace_all, replace_str, str_eq, trim, trim_str,
};
use crate::vault::index::{
    backlinks_of, find, ids_ascend, is_sound, law_a_target_resolves_to_what_it_means,
    law_links_lead_to_what_they_mean, leads_to, lemma_find_from, lemma_find_is, means, note_at,
    points_at, resolved, VaultIndex,
};
use crate::vault::parse::{link_parts, no_frontmatter};
use crate::vault::types::{LinkView, Note, NoteView, WikiLink};
use crate::vault::value::{lemma_model, Yaml, YamlView};
use crate::vault::write::{ops_view, ChangeOp, Changeset, OpView};
use vstd::prelude::*;
use vstd::string::*;

verus! {

/// The inside of a wikilink with a new target and its other parts kept.
pub open spec fn rebuilt_inner(l: LinkView, to: Seq<char>) -> Seq<char> {
    to + (match l.heading {
        Some(h) => "#"@ + h,
        None => seq![],
    }) + (match l.block {
        Some(b) => "#^"@ + b,
        None => seq![],
    }) + (match l.alias {
        Some(a) => "|"@ + a,
        None => seq![],
    })
}

/// A wikilink with a new target and its other parts kept.
pub open spec fn rebuilt(l: LinkView, to: Seq<char>) -> Seq<char> {
    "[["@ + rebuilt_inner(l, to) + "]]"@
}

/// A content and whether it was changed.
pub struct Rewrite {
    pub content: Seq<char>,
    pub changed: bool,
}

/// The content once the links from `k` on that lead to `from` lead to `to`.
pub open spec fn rewritten_from(
    s: Seq<NoteView>,
    links: Seq<LinkView>,
    r: Rewrite,
    from: Seq<char>,
    to: Seq<char>,
    k: int,
) -> Rewrite
    decreases links.len() - k,
{
    if k < 0 || k >= links.len() {
        r
    } else {
        let l = links[k];
        if leads_to(s, l.target, from) && rebuilt(l, to) != l.raw {
            rewritten_from(
                s,
                links,
                Rewrite { content: replace_all(r.content, l.raw, rebuilt(l, to)), changed: true },
                from,
                to,
                k + 1,
            )
        } else {
            rewritten_from(s, links, r, from, to, k + 1)
        }
    }
}

/// The content of a note with its links to `from` leading to `to`.
pub open spec fn rewritten(s: Seq<NoteView>, n: NoteView, from: Seq<char>, to: Seq<char>) -> Rewrite {
    rewritten_from(s, n.links, Rewrite { content: n.content, changed: false }, from, to, 0)
}

/// The updates of the notes at the positions `at` from `k` on that need one.
pub open spec fn updates_from(
    s: Seq<NoteView>,
    at: Seq<int>,
    from: Seq<char>,
    to: Seq<char>,
    k: int,
) -> Seq<OpView>
    decreases at.len() - k,
{
    if k < 0 || k >= at.len() {
        seq![]
    } else {
        let n = s[at[k]];
        let w = rewritten(s, n, from, to);
        if w.changed {
            seq![OpView::Update { note_id: n.id, content: Some(w.content), frontmatter: None }]
                + updates_from(s, at, from, to, k + 1)
        } else {
            updates_from(s, at, from, to, k + 1)
        }
    }
}

/// The frontmatter that a moved note carries over: none where it is empty.
pub open spec fn carried(fm: YamlView) -> Option<YamlView> {
    if fm == no_frontmatter() {
        None
    } else {
        Some(fm)
    }
}

/// The changeset that renames a note, or why it cannot be renamed.
pub open spec fn rename_ops(s: Seq<NoteView>, from: Seq<char>, to: Seq<char>) -> Result<
    Seq<OpView>,
    ErrorView,
> {
    let t = trim(to);
    if t.len() == 0 || t == from {
        Err(
            error(
                "INVALID_INPUT"@,
                "Cannot rename "@ + debug_text(from) + " to "@ + debug_text(t) + "."@,
                "Pass a different, non-empty note id."@,
            ),
        )
    } else {
        match note_at(s, from) {
            None => Err(
                error(
                    "NOTE_NOT_FOUND"@,
                    "No note with id "@ + debug_text(from) + "."@,
                    "Check the id with list_notes."@,
                ),
            ),
            Some(n) => if note_at(s, t) is Some {
                Err(
                    error(
                        "CONFLICT"@,
                        "Note "@ + debug_text(t) + " already exists."@,
                        "Choose a different target id."@,
                    ),
                )
            } else {
                Ok(
                    seq![
                        OpView::Create {
                            note_id: t,
                            content: rewritten(s, n, from, t).content,
                            frontmatter: carried(n.frontmatter),
                        },
                    ] + updates_from(s, backlinks_of(s, from), from, t, 0) + seq![
                        OpView::Delete { note_id: from },
                    ],
                )
            },
        }
    }
}

/// A wikilink's text with a new target, its heading, block and alias kept.
pub fn rebuild_link(link: &WikiLink, new_target: &str) -> (r: String)
    ensures
        r@ == rebuilt(link@, new_target@),
{
    let mut s = "[[".to_owned();
    s.append(new_target);
    if let Some(heading) = &link.heading {
        s.append("#");
        s.append(heading.as_str());
    }
    if let Some(block) = &link.block {
        s.append("#^");
        s.append(block.as_str());
    }
    if let Some(alias) = &link.alias {
        s.append("|");
        s.append(alias.as_str());
    }
    s.append("]]");
    assert(s@ =~= rebuilt(link@, new_target@));
    s
}

fn rewrite_note(index: &VaultIndex, note: &Note, from: &str, to: &str) -> (r: (String, bool))
    requires
        is_sound(note@),
    ensures
        rewritten(index@, note@, from@, to@) == (Rewrite { content: r.0@, changed: r.1 }),
{
    let ghost s = index@;
    let ghost ls = note@.links;
    let mut content = note.content.clone();
    let mut changed: bool = false;
    let mut k: usize = 0;
    while k < note.links.len()
        invariant
            k <= note.links@.len(),
            s == index@,
            ls == note@.links,
            is_sound(note@),
            rewritten(s, note@, from@, to@) == rewritten_from(
                s,
                ls,
                Rewrite { content: content@, changed },
                from@,
                to@,
                k as int,
            ),
        decreases note.links@.len() - k,
    {
        let link = &note.links[k];
        assert(ls[k as int] == link@);
        let hits: bool = match index.resolve(link.target.as_str()) {
            Some(n) => str_eq(n.id.as_str(), from),
            None => false,
        };
        assert(hits == leads_to(s, link@.target, from@));
        if hits {
            let new_raw = rebuild_link(link, to);
            if !str_eq(new_raw.as_str(), link.raw.as_str()) {
                content = replace_str(content.as_str(), link.raw.as_str(), new_raw.as_str());
                changed = true;
            }
        }
        k = k + 1;
    }
    (content, changed)
}

fn empty_frontmatter(fm: &Yaml) -> (r: bool)
    ensures
        r == (fm@ == no_frontmatter()),
{
    proof {
        lemma_model(*fm);
    }
    match fm {
        Yaml::Table(e) => {
            proof {
                let v = crate::vault::value::entries_view(e@);
                if e@.len() == 0 {
                    assert(v =~= seq![]);
                } else {
                    assert(v.len() != Seq::<(YamlView, YamlView)>::empty().len());
                }
            }
            e.len() == 0
        },
        _ => false,
    }
}

/// Builds the changeset that renames `from` to `to` and retargets every
/// affected wikilink.
pub fn rename_note_ops(index: &VaultIndex, from: &str, to: &str) -> (r: Result<
    Changeset,
    TacitusError,
>)
    ensures
        match r {
            Ok(c) => rename_ops(index@, from@, to@) == Ok::<Seq<OpView>, ErrorView>(c@),
            Err(e) => rename_ops(index@, from@, to@) == Err::<Seq<OpView>, ErrorView>(e@),
        },
{
    let ghost s = index@;
    let t = trim_str(to);
    if t.as_str().is_empty() || str_eq(t.as_str(), from) {
        let mut reason = "Cannot rename ".to_owned();
        reason.append(quoted(from).as_str());
        reason.append(" to ");
        reason.append(quoted(t.as_str()).as_str());
        reason.append(".");
        return Err(
            TacitusError::new(
                "INVALID_INPUT",
                reason.as_str(),
                "Pass a different, non-empty note id.",
            ),
        );
    }
    let note = match index.get(from) {
        Some(n) => n,
        None => {
            let mut reason = "No note with id ".to_owned();
            reason.append(quoted(from).as_str());
            reason.append(".");
            return Err(
                TacitusError::new(
                    "NOTE_NOT_FOUND",
                    reason.as_str(),
                    "Check the id with list_notes.",
                ),
            );
        },
    };
    if index.get(t.as_str()).is_some() {
        let mut reason = "Note ".to_owned();
        reason.append(quoted(t.as_str()).as_str());
        reason.append(" already exists.");
        return Err(
            TacitusError::new("CONFLICT", reason.as_str(), "Choose a different target id."),
        );
    }
    let mut ops: Vec<ChangeOp> = Vec::new();
    let (moved, _) = rewrite_note(index, note, from, t.as_str());
    let frontmatter: Option<Yaml> = if empty_frontmatter(&note.frontmatter) {
        None
    } else {
        Some(note.frontmatter.copy())
    };
    let first = ChangeOp::Create { note_id: t.clone(), content: moved, frontmatter };
    let ghost fv = first@;
    ops.push(first);
    let ghost head = seq![fv];
    assert(ops_view(ops@) =~= head);
    let at = index.backlink_positions(from);
    let ghost av = positions(at@);
    let ghost all = updates_from(s, av, from@, t@, 0);
    assert(ops_view(ops@) + all =~= head + all);
    let mut k: usize = 0;
    while k < at.len()
        invariant
            k <= at@.len(),
            s == index@,
            av == positions(at@),
            forall|j: int| 0 <= j < at@.len() ==> #[trigger] at@[j] < s.len(),
            head + all == ops_view(ops@) + updates_from(s, av, from@, t@, k as int),
        decreases at@.len() - k,
    {
        let linking = index.at(at[k]);
        assert(av[k as int] == at@[k as int] as int);
        assert(s[av[k as int]] == linking@);
        let (content, changed) = rewrite_note(index, linking, from, t.as_str());
        if changed {
            let op = ChangeOp::Update {
                note_id: linking.id.clone(),
                content: Some(content),
                frontmatter: None,
            };
            let ghost ov = op@;
            let ghost prev = ops_view(ops@);
            ops.push(op);
            assert(ops_view(ops@) =~= prev.push(ov));
            assert(prev + (seq![ov] + updates_from(s, av, from@, t@, k + 1)) =~= ops_view(ops@)
                + updates_from(s, av, from@, t@, k + 1));
        }
        k = k + 1;
    }
    assert(ops_view(ops@) + updates_from(s, av, from@, t@, k as int) =~= ops_view(ops@));
    let last = ChangeOp::Delete { note_id: from.to_owned() };
    let ghost lv = last@;
    let ghost prev = ops_view(ops@);
    ops.push(last);
    assert(ops_view(ops@) =~= prev + seq![lv]);
    Ok(Changeset { ops })
}

/// Whether a text can be the target of a wikilink and come back as it is.
pub open spec fn is_target(to: Seq<char>) -> bool {
    &&& to.len() > 0 ==> !is_white(to[0]) && !is_white(to.last())
    &&& forall|k: int| 0 <= k < to.len() ==> #[trigger] to[k] != '|' && to[k] != '#'
}

/// No bar in a text, and no white space at its ends.
pub open spec fn is_part(p: Seq<char>) -> bool {
    &&& trim(p) == p
    &&& forall|k: int| 0 <= k < p.len() ==> #[trigger] p[k] != '|'
}

/// The parts of a link as reading one gives them.
spec fn is_read(l: LinkView) -> bool {
    &&& l.heading is None || l.block is None
    &&& l.heading matches Some(h) ==> is_part(h)
    &&& l.block matches Some(b) ==> is_part(b)
    &&& l.alias matches Some(a) ==> trim(a) == a
}

proof fn lemma_parts_are_read(inner: Seq<char>, raw: Seq<char>)
    ensures
        is_read(link_parts(inner, raw)),
{
    let bar = next_char(inner, '|', 0);
    lemma_next_char(inner, '|', 0);
    let link = if bar < inner.len() {
        inner.take(bar)
    } else {
        inner
    };
    assert forall|k: int| 0 <= k < link.len() implies #[trigger] link[k] != '|' by {
        assert(link[k] == inner[k]);
    }
    if bar < inner.len() {
        lemma_trim_shape(inner.skip(bar + 1));
    }
    let hash = next_char(link, '#', 0);
    lemma_next_char(link, '#', 0);
    if hash < link.len() {
        let after = link.skip(hash + 1);
        assert forall|k: int| 0 <= k < after.len() implies #[trigger] after[k] != '|' by {
            assert(after[k] == link[hash + 1 + k]);
        }
        lemma_trim_keeps_out(after, '|');
        lemma_trim_shape(after);
        if after.len() > 0 {
            let named = after.skip(1);
            assert forall|k: int| 0 <= k < named.len() implies #[trigger] named[k] != '|' by {
                assert(named[k] == after[k + 1]);
            }
            lemma_trim_keeps_out(named, '|');
            lemma_trim_shape(named);
        }
    }
}

/// The part before the alias, with its bar where there is an alias.
proof fn lemma_alias_splits(link: Seq<char>, alias: Option<Seq<char>>)
    requires
        forall|k: int| 0 <= k < link.len() ==> #[trigger] link[k] != '|',
    ensures
        ({
            let out = link + (match alias {
                Some(a) => "|"@ + a,
                None => seq![],
            });
            let bar = next_char(out, '|', 0);
            &&& bar == link.len()
            &&& alias is Some ==> bar < out.len() && out.take(bar) == link && out.skip(bar + 1)
                == alias->0
            &&& alias is None ==> out == link
        }),
{
    reveal_strlit("|");
    let out = link + (match alias {
        Some(a) => "|"@ + a,
        None => seq![],
    });
    let n = link.len() as int;
    assert forall|k: int| 0 <= k < n implies #[trigger] out[k] != '|' by {
        assert(out[k] == link[k]);
    }
    if alias is Some {
        assert(out[n] == '|');
        lemma_next_char_is(out, '|', 0, n);
        assert(out.take(n) =~= link);
        assert(out.skip(n + 1) =~= alias->0);
    } else {
        assert(out =~= link);
        lemma_next_char_is(out, '|', 0, n);
    }
}

/// A target with something behind a hash, or nothing.
proof fn lemma_hash_splits(to: Seq<char>, rest: Option<Seq<char>>)
    requires
        is_target(to),
    ensures
        ({
            let link = to + (match rest {
                Some(r) => "#"@ + r,
                None => seq![],
            });
            let hash = next_char(link, '#', 0);
            &&& hash == to.len()
            &&& link.take(hash) == to
            &&& rest is Some ==> hash < link.len() && link.skip(hash + 1) == rest->0
            &&& rest is None ==> link == to
        }),
{
    reveal_strlit("#");
    let link = to + (match rest {
        Some(r) => "#"@ + r,
        None => seq![],
    });
    let m = to.len() as int;
    assert forall|k: int| 0 <= k < m implies #[trigger] link[k] != '#' by {
        assert(link[k] == to[k]);
    }
    if rest is Some {
        assert(link[m] == '#');
        assert(link.skip(m + 1) =~= rest->0);
    } else {
        assert(link =~= to);
    }
    lemma_next_char_is(link, '#', 0, m);
    assert(link.take(m) =~= to);
}

/// A retargeted wikilink keeps its parts: read back, it has the new target and
/// the heading, block and alias that it had. The one demand on the link is that
/// its heading does not begin like a block.
pub proof fn law_rebuilt_link_keeps_its_parts(
    inner: Seq<char>,
    raw: Seq<char>,
    to: Seq<char>,
    new_raw: Seq<char>,
)
    requires
        is_target(to),
        link_parts(inner, raw).heading matches Some(h) ==> h.len() == 0 || h[0] != '^',
    ensures
        link_parts(rebuilt_inner(link_parts(inner, raw), to), new_raw) == (LinkView {
            target: to,
            raw: new_raw,
            ..link_parts(inner, raw)
        }),
{
    let l = link_parts(inner, raw);
    lemma_parts_are_read(inner, raw);
    lemma_trim_fixed(to);
    let rest: Option<Seq<char>> = match l.heading {
        Some(h) => Some(h),
        None => match l.block {
            Some(b) => Some("^"@ + b),
            None => None,
        },
    };
    let link = to + (match rest {
        Some(r) => "#"@ + r,
        None => seq![],
    });
    reveal_strlit("#");
    reveal_strlit("#^");
    reveal_strlit("^");
    let out = rebuilt_inner(l, to);
    assert(out =~= link + (match l.alias {
        Some(a) => "|"@ + a,
        None => seq![],
    })) by {
        if l.block is Some {
            assert("#^"@ + l.block->0 =~= "#"@ + ("^"@ + l.block->0));
        }
    }
    assert forall|k: int| 0 <= k < link.len() implies #[trigger] link[k] != '|' by {
        if k < to.len() {
            assert(link[k] == to[k]);
        } else if k > to.len() {
            assert(link[k] == rest->0[k - to.len() - 1]);
            if l.heading is None && k > to.len() + 1 {
                assert(rest->0[k - to.len() - 1] == l.block->0[k - to.len() - 2]);
            }
        }
    }
    lemma_alias_splits(link, l.alias);
    lemma_hash_splits(to, rest);
    if l.heading is None && l.block is Some {
        assert(rest->0[0] == '^');
        assert(rest->0.skip(1) =~= l.block->0);
    }
}

/// A trimmed text holds no character that the text does not hold.
pub proof fn lemma_trim_keeps_out(s: Seq<char>, c: char)
    requires
        forall|k: int| 0 <= k < s.len() ==> #[trigger] s[k] != c,
    ensures
        forall|k: int| 0 <= k < trim(s).len() ==> #[trigger] trim(s)[k] != c,
{
    crate::text::lemma_skip_white(s, 0);
    let t = crate::text::trim_start(s);
    crate::text::lemma_back_white(t, t.len() as int);
    let u = trim(s);
    assert forall|k: int| 0 <= k < u.len() implies #[trigger] u[k] != c by {
        assert(u[k] == t[k]);
        assert(t[k] == s[crate::text::skip_white(s, 0) + k]);
    }
}

/// The update of a note whose links to `from` are to lead to `to`.
pub open spec fn update_of(s: Seq<NoteView>, n: NoteView, from: Seq<char>, to: Seq<char>) -> OpView {
    OpView::Update {
        note_id: n.id,
        content: Some(rewritten(s, n, from, to).content),
        frontmatter: None,
    }
}

/// A rename is one changeset: it begins by creating the note under its new id,
/// ends by deleting the old one, and between them only updates notes, and among
/// them every other note with a link to rewrite.
pub proof fn law_rename_is_one_changeset(s: Seq<NoteView>, from: Seq<char>, to: Seq<char>)
    requires
        rename_ops(s, from, to) is Ok,
    ensures
        ({
            let ops = rename_ops(s, from, to)->Ok_0;
            &&& ops.len() >= 2
            &&& ops[0] matches OpView::Create { note_id, .. } && note_id == trim(to)
            &&& ops.last() == OpView::Delete { note_id: from }
            &&& forall|k: int| 0 < k < ops.len() - 1 ==> (#[trigger] ops[k]) is Update
            &&& forall|p: int|
                0 <= p < backlinks_of(s, from).len() && rewritten(
                    s,
                    s[#[trigger] backlinks_of(s, from)[p]],
                    from,
                    trim(to),
                ).changed ==> ops.contains(
                    update_of(s, s[backlinks_of(s, from)[p]], from, trim(to)),
                )
        }),
{
    let t = trim(to);
    let at = backlinks_of(s, from);
    let mid = updates_from(s, at, from, t, 0);
    lemma_updates(s, at, from, t, 0);
    let ops = rename_ops(s, from, to)->Ok_0;
    assert forall|k: int| 0 < k < ops.len() - 1 implies (#[trigger] ops[k]) is Update by {
        assert(ops[k] == mid[k - 1]);
    }
    assert forall|p: int|
        0 <= p < at.len() && rewritten(s, s[#[trigger] at[p]], from, t).changed implies ops.contains(
        update_of(s, s[at[p]], from, t),
    ) by {
        lemma_updates_has(s, at, from, t, 0, p);
        let op = update_of(s, s[at[p]], from, t);
        let k = choose|k: int| 0 <= k < mid.len() && mid[k] == op;
        assert(ops[k + 1] == op);
    }
}

proof fn lemma_updates_has(
    s: Seq<NoteView>,
    at: Seq<int>,
    from: Seq<char>,
    to: Seq<char>,
    k: int,
    p: int,
)
    requires
        0 <= k <= p < at.len(),
        rewritten(s, s[at[p]], from, to).changed,
    ensures
        updates_from(s, at, from, to, k).contains(update_of(s, s[at[p]], from, to)),
    decreases at.len() - k,
{
    let op = update_of(s, s[at[p]], from, to);
    let all = updates_from(s, at, from, to, k);
    if k == p {
        assert(all[0] == op);
    } else {
        lemma_updates_has(s, at, from, to, k + 1, p);
        let rest = updates_from(s, at, from, to, k + 1);
        let j = choose|j: int| 0 <= j < rest.len() && rest[j] == op;
        if rewritten(s, s[at[k]], from, to).changed {
            assert(all[j + 1] == op);
        } else {
            assert(all[j] == op);
        }
    }
}

proof fn lemma_updates(s: Seq<NoteView>, at: Seq<int>, from: Seq<char>, to: Seq<char>, k: int)
    requires
        0 <= k,
    ensures
        forall|j: int|
            0 <= j < updates_from(s, at, from, to, k).len() ==> (#[trigger] updates_from(
                s,
                at,
                from,
                to,
                k,
            )[j]) is Update,
    decreases at.len() - k,
{
    if k < at.len() {
        lemma_updates(s, at, from, to, k + 1);
        let rest = updates_from(s, at, from, to, k + 1);
        let all = updates_from(s, at, from, to, k);
        assert forall|j: int| 0 <= j < all.len() implies (#[trigger] all[j]) is Update by {
            if rewritten(s, s[at[k]], from, to).changed {
                if j > 0 {
                    assert(all[j] == rest[j - 1]);
                }
            } else {
                assert(all[j] == rest[j]);
            }
        }
    }
}

proof fn lemma_update_at(
    s: Seq<NoteView>,
    at: Seq<int>,
    from: Seq<char>,
    to: Seq<char>,
    k: int,
    j: int,
) -> (p: int)
    requires
        0 <= k,
        0 <= j < updates_from(s, at, from, to, k).len(),
    ensures
        k <= p < at.len(),
        updates_from(s, at, from, to, k)[j] == update_of(s, s[at[p]], from, to),
    decreases at.len() - k,
{
    if rewritten(s, s[at[k]], from, to).changed {
        if j == 0 {
            k
        } else {
            lemma_update_at(s, at, from, to, k + 1, j - 1)
        }
    } else {
        lemma_update_at(s, at, from, to, k + 1, j)
    }
}

/// A rename moves a note and touches no other that does not link to it: the new note
/// has the content of the old one, but for its links to itself, and its frontmatter;
/// where that is empty the new file has none. Each update is of another note with a
/// link to the old one, and leaves its frontmatter alone.
pub proof fn law_rename_moves_the_note(s: Seq<NoteView>, p: int, to: Seq<char>, k: int)
    requires
        ids_ascend(s),
        0 <= p < s.len(),
        rename_ops(s, s[p].id, to) is Ok,
    ensures
        ({
            let ops = rename_ops(s, s[p].id, to)->Ok_0;
            &&& ops[0] matches OpView::Create { note_id, content, frontmatter } && note_id == trim(to)
                && (frontmatter is None <==> s[p].frontmatter == no_frontmatter()) && (frontmatter
                is Some ==> frontmatter->0 == s[p].frontmatter) && (!points_at(s, p, p) ==> content
                == s[p].content)
            &&& 0 < k < ops.len() - 1 ==> (ops[k] matches OpView::Update {
                note_id,
                content,
                frontmatter,
            } && frontmatter is None && content is Some && exists|q: int|
                0 <= q < s.len() && q != p && note_id == (#[trigger] s[q]).id && points_at(s, q, p))
        }),
{
    let from = s[p].id;
    let t = trim(to);
    let ops = rename_ops(s, from, to)->Ok_0;
    let at = backlinks_of(s, from);
    let mid = updates_from(s, at, from, t, 0);
    lemma_find_is(s, p);
    if !points_at(s, p, p) {
        assert forall|j: int| 0 <= j < s[p].links.len() implies !leads_to(
            s,
            (#[trigger] s[p].links[j]).target,
            from,
        ) by {
            let target = s[p].links[j].target;
            if let Some(q) = resolved(s, target) {
                law_a_target_resolves_to_what_it_means(s, target, q);
                lemma_find_is(s, q);
                if s[q].id == from {
                    assert(means(s, s[p].links[j].target, p));
                }
            }
        }
        lemma_nothing_rewritten(
            s,
            s[p].links,
            Rewrite { content: s[p].content, changed: false },
            from,
            t,
            0,
        );
    }
    if 0 < k < ops.len() - 1 {
        assert(ops[k] == mid[k - 1]);
        let a = lemma_update_at(s, at, from, t, 0, k - 1);
        let q = at[a];
        assert(at.contains(q));
        law_links_lead_to_what_they_mean(s, p, q);
        assert(s[q].id == s[q].id);
    }
}

proof fn lemma_nothing_rewritten(
    s: Seq<NoteView>,
    links: Seq<LinkView>,
    r: Rewrite,
    from: Seq<char>,
    to: Seq<char>,
    k: int,
)
    requires
        0 <= k,
        forall|j: int| 0 <= j < links.len() ==> !leads_to(s, (#[trigger] links[j]).target, from),
    ensures
        rewritten_from(s, links, r, from, to, k) == r,
    decreases links.len() - k,
{
    if k < links.len() {
        assert(!leads_to(s, links[k].target, from));
        lemma_nothing_rewritten(s, links, r, from, to, k + 1);
    }
}

/// What a rename refuses: an id that is blank or the old one, a note that is not there,
/// and an id that is taken. It goes through on all else.
pub proof fn law_rename_refuses_only_what_cannot_be(s: Seq<NoteView>, from: Seq<char>, to: Seq<char>)
    ensures
        ({
            let blank = trim(to).len() == 0 || trim(to) == from;
            let gone = forall|k: int| 0 <= k < s.len() ==> (#[trigger] s[k]).id != from;
            let taken = exists|k: int| 0 <= k < s.len() && (#[trigger] s[k]).id == trim(to);
            &&& rename_ops(s, from, to) is Ok <==> !blank && !gone && !taken
            &&& blank ==> rename_ops(s, from, to)->Err_0.code == "INVALID_INPUT"@
            &&& !blank && gone ==> rename_ops(s, from, to)->Err_0.code == "NOTE_NOT_FOUND"@
            &&& !blank && !gone && taken ==> rename_ops(s, from, to)->Err_0.code == "CONFLICT"@
        }),
{
    lemma_find_from(s, from, 0);
    lemma_find_from(s, trim(to), 0);
    if find(s, trim(to)) is Some {
        assert(s[find(s, trim(to))->0].id == trim(to));
    }
}

} // verus!

//! What a write leaves behind: in the files, in the history and in the audit log.
use crate::error::{ErrorView, TacitusError};
use crate::paths::note_key;
use crate::strmap::ascending;
use crate::text::{
    holds, is_white, lemma_back_white, lemma_next_match, matches_at, opt_text, trim_end,
};
use crate::vault::parse::{frontmatter_of, no_frontmatter, sections};
use crate::vault::value::{entry_from, lemma_entry_from, yaml_as_json_text, yaml_get, YamlView};
use crate::vault::write::{
    change_id_of, diff_of, follows, frontmatter_part, is_blocked, json_quoted,
    law_a_diff_follows_its_changeset, law_commit_brings_the_diff, note_file, op_json, raw_of,
    target_of, DiffView, OpView, PermissionScope,
};
use crate::vault::writer::{
    after_states, applied, apply_made, audit_view, before_states, commit_entry, committed,
    filled_lines_from, keys_of_states, linked_content, newest, revert_done, revert_entry, reverted,
    tagged_frontmatter, version_changes, version_of, with_notes, AuditView, CommitResult,
    NoteWriter, RevertResult, SnapshotView, Vault,
};
use vstd::prelude::*;

verus! {

proof fn lemma_applied(
    w: NoteWriter,
    v0: Vault,
    v1: Vault,
    ops: Seq<OpView>,
    millis: u64,
    now: Seq<char>,
    c: CommitResult,
) -> (r: (Seq<char>, Seq<DiffView>, Seq<Seq<char>>))
    requires
        apply_made(w, v0, v1, ops, millis, now, Ok(c)),
    ensures
        w.scope == PermissionScope::ReadWrite,
        change_id_of(ops) == Ok::<Seq<char>, ErrorView>(r.0),
        diff_of(ops, v0.notes()) == Ok::<Seq<DiffView>, ErrorView>(r.1),
        r.1.len() == ops.len(),
        forall|i: int|
            0 <= i < ops.len() ==> follows(#[trigger] r.1[i], ops[i], v0.notes()) && !is_blocked(
                ops[i],
                v0.notes(),
            ),
        committed(
            v0,
            v1,
            r.1,
            with_notes(commit_entry(r.0, millis, now, w.scope, opt_text(w.origin)), r.2),
            r.0,
        ),
        c.version_id@ == version_of(r.0, millis),
{
    let p = applied(w.scope, ops, v0.notes())->Ok_0;
    let entry = commit_entry(p.0, millis, now, w.scope, opt_text(w.origin));
    let notes = choose|notes: Seq<Seq<char>>|
        committed(v0, v1, p.1, #[trigger] with_notes(entry, notes), p.0);
    law_a_diff_follows_its_changeset(ops, v0.notes());
    (p.0, p.1, notes)
}

/// A write lands: a new note has the given frontmatter and content in its file, an
/// updated one what is given of the two and what its file had of the rest, and a
/// deleted one has no file. No other file is touched.
pub proof fn law_a_write_lands(
    w: NoteWriter,
    v0: Vault,
    v1: Vault,
    op: OpView,
    millis: u64,
    now: Seq<char>,
    c: CommitResult,
    key: Seq<char>,
)
    requires
        apply_made(w, v0, v1, seq![op], millis, now, Ok(c)),
    ensures
        ({
            let at = note_key(target_of(op));
            let old_file = raw_of(v0.notes(), at);
            let new_file = raw_of(v1.notes(), at);
            &&& key != at ==> raw_of(v1.notes(), key) == raw_of(v0.notes(), key)
            &&& op matches OpView::Create { content, frontmatter, .. } ==> old_file is None
                && new_file == Some(note_file(frontmatter, content))
            &&& op matches OpView::Update { content, frontmatter, .. } ==> old_file is Some
                && new_file == Some(
                note_file(
                    Some(
                        if frontmatter is Some {
                            frontmatter->0
                        } else {
                            frontmatter_of(old_file->0)
                        },
                    ),
                    if content is Some {
                        content->0
                    } else {
                        sections(old_file->0).1
                    },
                ),
            )
            &&& op is Delete ==> old_file is Some && new_file is None
            &&& op matches OpView::SetRaw { raw, .. } ==> new_file == raw
        }),
{
    let (id, ds, notes) = lemma_applied(w, v0, v1, seq![op], millis, now, c);
    let d = ds[0];
    let ops = seq![op];
    assert(ops[0] == op);
    assert(follows(ds[0], ops[0], v0.notes()));
    law_commit_brings_the_diff(ds, v0.notes(), key);
    assert(raw_of(v1.notes(), note_key(d.note_id)) == d.after);
    if key != note_key(target_of(op)) {
        assert forall|k: int| 0 <= k < ds.len() implies note_key((#[trigger] ds[k]).note_id) != key by {
            assert(k == 0);
        }
    }
}

proof fn lemma_states_of(ds: Seq<DiffView>, n: int, id: Seq<char>)
    requires
        0 <= n <= ds.len(),
    ensures
        after_states(ds, n).contains_key(id) <==> exists|k: int|
            0 <= k < n && (#[trigger] ds[k]).note_id == id,
        before_states(ds, n).contains_key(id) <==> exists|k: int|
            0 <= k < n && (#[trigger] ds[k]).note_id == id,
    decreases n,
{
    if n > 0 {
        lemma_states_of(ds, n - 1, id);
        if ds[n - 1].note_id == id {
            assert(ds[n - 1].note_id == id);
        }
    }
}

proof fn lemma_before_is(ds: Seq<DiffView>, n: int, id: Seq<char>, raw: Option<Seq<char>>)
    requires
        0 <= n <= ds.len(),
        forall|k: int| 0 <= k < n && (#[trigger] ds[k]).note_id == id ==> ds[k].before == raw,
        before_states(ds, n).contains_key(id),
    ensures
        before_states(ds, n)[id] == raw,
    decreases n,
{
    if n > 0 && ds[n - 1].note_id != id {
        lemma_before_is(ds, n - 1, id, raw);
    }
}

proof fn lemma_after_is_last(ds: Seq<DiffView>, n: int, k: int)
    requires
        0 <= k < n <= ds.len(),
        forall|j: int| k < j < n ==> (#[trigger] ds[j]).note_id != ds[k].note_id,
    ensures
        after_states(ds, n).contains_key(ds[k].note_id),
        after_states(ds, n)[ds[k].note_id] == ds[k].after,
    decreases n,
{
    if n - 1 > k {
        assert(ds[n - 1].note_id != ds[k].note_id);
        lemma_after_is_last(ds, n - 1, k);
    }
}

/// A write is audited with what it was: the log keeps its entries and has one more,
/// which says when, by which session and scope, as which version of which change, and
/// names the notes that it was on, each once and in the order of ids.
pub proof fn law_a_write_is_audited(
    w: NoteWriter,
    v0: Vault,
    v1: Vault,
    ops: Seq<OpView>,
    millis: u64,
    now: Seq<char>,
    c: CommitResult,
    id: Seq<char>,
)
    requires
        apply_made(w, v0, v1, ops, millis, now, Ok(c)),
    ensures
        ({
            let log0 = audit_view(v0.audit@);
            let log1 = audit_view(v1.audit@);
            let e = log1[log1.len() - 1];
            &&& log1.len() == log0.len() + 1
            &&& log1.take(log0.len() as int) == log0
            &&& e.ts == now
            &&& e.action == "commit"@
            &&& e.version_id == c.version_id@
            &&& change_id_of(ops) is Ok
            &&& e.change_id == Some(change_id_of(ops)->Ok_0)
            &&& e.scope == PermissionScope::ReadWrite
            &&& e.origin == opt_text(w.origin)
            &&& ascending(e.notes)
            &&& e.notes.contains(id) <==> exists|k: int|
                0 <= k < ops.len() && target_of(#[trigger] ops[k]) == id
        }),
{
    let (change, ds, notes) = lemma_applied(w, v0, v1, ops, millis, now, c);
    let log0 = audit_view(v0.audit@);
    let log1 = audit_view(v1.audit@);
    let n = ds.len() as int;
    assert(log1.take(log0.len() as int) =~= log0);
    lemma_states_of(ds, n, id);
    if exists|k: int| 0 <= k < ops.len() && target_of(#[trigger] ops[k]) == id {
        let k = choose|k: int| 0 <= k < ops.len() && target_of(#[trigger] ops[k]) == id;
        assert(follows(ds[k], ops[k], v0.notes()));
        assert(ds[k].note_id == id);
    }
    if notes.contains(id) {
        let j = choose|j: int| 0 <= j < notes.len() && notes[j] == id;
        assert(after_states(ds, n).contains_key(notes[j]));
        let k = choose|k: int| 0 <= k < n && (#[trigger] ds[k]).note_id == id;
        assert(follows(ds[k], ops[k], v0.notes()));
        assert(target_of(ops[k]) == id);
    }
}

/// A write is kept as a version: its record holds, for each note it was on, the file
/// as it was and, for a note that no later operation is on, the file as it is. Every
/// other version stands as it stood.
pub proof fn law_a_write_is_kept_as_a_version(
    w: NoteWriter,
    v0: Vault,
    v1: Vault,
    ops: Seq<OpView>,
    millis: u64,
    now: Seq<char>,
    c: CommitResult,
    k: int,
    other: Seq<char>,
)
    requires
        apply_made(w, v0, v1, ops, millis, now, Ok(c)),
        0 <= k < ops.len(),
        forall|j: int|
            k < j < ops.len() ==> note_key(target_of(#[trigger] ops[j])) != note_key(
                target_of(ops[k]),
            ),
    ensures
        v1.history@.contains_key(c.version_id@),
        ({
            let r = v1.history@[c.version_id@]@;
            let id = target_of(ops[k]);
            &&& r.version_id == c.version_id@
            &&& change_id_of(ops) is Ok && r.change_id == change_id_of(ops)->Ok_0
            &&& r.before.contains_key(id) && r.before[id] == raw_of(v0.notes(), note_key(id))
            &&& r.after.contains_key(id) && r.after[id] == raw_of(v1.notes(), note_key(id))
        }),
        other != c.version_id@ ==> (v1.history@.contains_key(other) <==> v0.history@.contains_key(
            other,
        )) && (v0.history@.contains_key(other) ==> v1.history@[other] == v0.history@[other]),
{
    let (change, ds, notes) = lemma_applied(w, v0, v1, ops, millis, now, c);
    let n = ds.len() as int;
    let id = target_of(ops[k]);
    let raw = raw_of(v0.notes(), note_key(id));
    assert(follows(ds[k], ops[k], v0.notes()));
    lemma_states_of(ds, n, id);
    assert(ds[k].note_id == id);
    assert forall|j: int| 0 <= j < n && (#[trigger] ds[j]).note_id == id implies ds[j].before == raw by {
        assert(follows(ds[j], ops[j], v0.notes()));
    }
    lemma_before_is(ds, n, id, raw);
    assert forall|j: int| k < j < n implies (#[trigger] ds[j]).note_id != ds[k].note_id
        && note_key(ds[j].note_id) != note_key(ds[k].note_id) by {
        assert(follows(ds[j], ops[j], v0.notes()));
        assert(note_key(target_of(ops[j])) != note_key(target_of(ops[k])));
    }
    lemma_after_is_last(ds, n, k);
    law_commit_brings_the_diff(ds, v0.notes(), seq![]);
    let v = c.version_id@;
    assert(v1.history@.remove(v) == v0.history@.remove(v));
    if other != v {
        assert(v1.history@.remove(v).contains_key(other) == v0.history@.remove(v).contains_key(other));
        if v0.history@.contains_key(other) {
            assert(v1.history@.remove(v)[other] == v0.history@.remove(v)[other]);
        }
    }
}

/// What a write refuses: one in a read-only session, one with an operation that
/// cannot be done, and one that has no id. Then nothing is written. All else goes
/// through.
pub proof fn law_a_refused_write_leaves_no_trace(
    w: NoteWriter,
    v0: Vault,
    v1: Vault,
    ops: Seq<OpView>,
    millis: u64,
    now: Seq<char>,
    r: Result<CommitResult, TacitusError>,
)
    requires
        apply_made(w, v0, v1, ops, millis, now, r),
    ensures
        r is Err ==> v1 == v0,
        r is Ok <==> w.scope == PermissionScope::ReadWrite && change_id_of(ops) is Ok && forall|i: int|
            0 <= i < ops.len() ==> !is_blocked(#[trigger] ops[i], v0.notes()),
{
    law_a_diff_follows_its_changeset(ops, v0.notes());
}

/// A revert is audited with what it was: one more entry, which says when, by which
/// session, of which version, and names the notes of that version. The history stays
/// as it was.
pub proof fn law_a_revert_is_audited_as_one(
    w: NoteWriter,
    v0: Vault,
    v1: Vault,
    version_id: Seq<char>,
    now: Seq<char>,
    c: RevertResult,
    id: Seq<char>,
)
    requires
        revert_done(w, v0, v1, version_id, now, Ok(c)),
    ensures
        ({
            let log0 = audit_view(v0.audit@);
            let log1 = audit_view(v1.audit@);
            let e = log1[log1.len() - 1];
            &&& log1.len() == log0.len() + 1
            &&& log1.take(log0.len() as int) == log0
            &&& e.ts == now
            &&& e.action == "revert"@
            &&& e.version_id == version_id
            &&& e.change_id is None
            &&& e.scope == PermissionScope::ReadWrite
            &&& e.origin == opt_text(w.origin)
            &&& ascending(e.notes)
            &&& e.notes.contains(id) <==> v0.history@[version_id]@.before.contains_key(id)
        }),
        v1.history@ == v0.history@,
        c.reverted,
        c.version_id@ == version_id,
{
    let states = v0.history@[version_id]@.before;
    let back = revert_entry(version_id, now, w.scope, opt_text(w.origin));
    let notes = choose|notes: Seq<Seq<char>>|
        reverted(v0, v1, states, #[trigger] with_notes(back, notes));
    let log0 = audit_view(v0.audit@);
    let log1 = audit_view(v1.audit@);
    assert(log1.take(log0.len() as int) =~= log0);
    if notes.contains(id) {
        let j = choose|j: int| 0 <= j < notes.len() && notes[j] == id;
        assert(states.contains_key(notes[j]));
    }
}

/// The audit log is read backwards: the newest entry first, each as it was written, as
/// many as asked for or as there are.
pub proof fn law_the_log_is_read_backwards(audit: Seq<AuditView>, limit: nat, k: int)
    ensures
        newest(audit, limit).len() <= limit,
        newest(audit, limit).len() <= audit.len(),
        newest(audit, limit).len() == limit || newest(audit, limit).len() == audit.len(),
        0 <= k < newest(audit, limit).len() ==> newest(audit, limit)[k] == audit[audit.len() - 1 - k],
{
}

/// Only the lines with text of a log are entries, in their order.
pub proof fn law_blank_lines_are_no_entries(ls: Seq<Seq<char>>, i: int)
    requires
        0 <= i <= ls.len(),
    ensures
        filled_lines_from(ls, i) == ls.skip(i).filter(|l: Seq<char>| l.len() > 0),
    decreases ls.len() - i,
{
    let keep = |l: Seq<char>| l.len() > 0;
    if i < ls.len() {
        law_blank_lines_are_no_entries(ls, i + 1);
        assert(ls.skip(i) =~= seq![ls[i]] + ls.skip(i + 1));
        lemma_filter_front(ls[i], ls.skip(i + 1));
    } else {
        assert(ls.skip(i) =~= seq![]);
        reveal(Seq::filter);
        assert(filled_lines_from(ls, i) =~= ls.skip(i).filter(keep));
    }
}

proof fn lemma_filter_front(first: Seq<char>, rest: Seq<Seq<char>>)
    ensures
        (seq![first] + rest).filter(|l: Seq<char>| l.len() > 0) == (if first.len() > 0 {
            seq![first]
        } else {
            seq![]
        }) + rest.filter(|l: Seq<char>| l.len() > 0),
    decreases rest.len(),
{
    let keep = |l: Seq<char>| l.len() > 0;
    reveal(Seq::filter);
    let all = seq![first] + rest;
    let front = if first.len() > 0 {
        seq![first]
    } else {
        seq![]
    };
    if rest.len() == 0 {
        assert(all.drop_last() =~= seq![]);
        assert(all.last() == first);
        assert(all.filter(keep) =~= front + rest.filter(keep));
    } else {
        let less = rest.drop_last();
        assert(all.drop_last() =~= seq![first] + less);
        lemma_filter_front(first, less);
        assert(all.filter(keep) =~= front + rest.filter(keep));
    }
}

/// A version shows what it did to each note: a note without a file before it was
/// created, one without a file after it deleted, and any other updated.
pub proof fn law_a_version_shows_each_change(keys: Seq<Seq<char>>, s: SnapshotView, k: int)
    requires
        keys_of_states(keys, s.before),
        0 <= k < keys.len(),
    ensures
        ({
            let changes = version_changes(keys, s);
            let c = changes[k];
            let after = if s.after.contains_key(keys[k]) {
                s.after[keys[k]]
            } else {
                None
            };
            &&& changes.len() == keys.len()
            &&& c.note_id == keys[k]
            &&& c.before == s.before[keys[k]]
            &&& c.after == after
            &&& c.op == "created"@ <==> c.before is None && c.after is Some
            &&& c.op == "deleted"@ <==> c.before is Some && c.after is None
            &&& c.op == "updated"@ <==> c.before is Some == c.after is Some
        }),
{
    reveal_strlit("created");
    reveal_strlit("deleted");
    reveal_strlit("updated");
    assert("created"@[0] != "deleted"@[0] && "created"@[0] != "updated"@[0] && "deleted"@[0]
        != "updated"@[0]);
}

/// Tagging touches the tags alone: every other entry of a frontmatter that is a
/// mapping stays as it was.
pub proof fn law_tagging_touches_the_tags_alone(fm: YamlView, tag: Seq<char>, key: Seq<char>)
    requires
        fm is Table,
        key != "tags"@,
    ensures
        yaml_get(tagged_frontmatter(fm, tag), key) == yaml_get(fm, key),
{
    let e = fm->Table_0;
    let f = tagged_frontmatter(fm, tag)->Table_0;
    lemma_entry_from(e, "tags"@, 0);
    lemma_entry_from(e, key, 0);
    lemma_entry_from(f, key, 0);
    match entry_from(e, key, 0) {
        Some(i) => {
            assert(f[i] == e[i]);
            let j = entry_from(f, key, 0)->0;
            if j < i {
                assert(f[j].0 == YamlView::Text(key));
                assert(e[j].0 != YamlView::Text(key));
            }
        },
        None => {
            if let Some(j) = entry_from(f, key, 0) {
                assert(f[j].0 == YamlView::Text(key));
                if j < e.len() {
                    assert(e[j].0 != YamlView::Text(key));
                }
            }
        },
    }
}

/// A link goes to the end: the content keeps all that it had but the white space at its
/// end, and ends with the link on a line of its own, a blank line before it.
pub proof fn law_a_link_goes_to_the_end(content: Seq<char>, to: Seq<char>)
    ensures
        ({
            let out = linked_content(content, to);
            let n = out.len() - to.len() - 7;
            &&& 0 <= n <= content.len()
            &&& out.take(n) == content.take(n)
            &&& forall|k: int| n <= k < content.len() ==> is_white(#[trigger] content[k])
            &&& out.skip(n) == seq!['\n', '\n', '[', '['] + to + seq![']', ']', '\n']
        }),
{
    reveal_strlit("\n\n");
    reveal_strlit("[[");
    reveal_strlit("]]");
    reveal_strlit("\n");
    let out = linked_content(content, to);
    let kept = trim_end(content);
    lemma_back_white(content, content.len() as int);
    let n: int = kept.len() as int;
    assert(out.take(n) =~= content.take(n));
    assert(out.skip(n) =~= seq!['\n', '\n', '[', '['] + to + seq![']', ']', '\n']);
}

/// A frontmatter with nothing in it is not written: the file is then the content and a
/// line feed, as without a frontmatter.
pub proof fn law_an_empty_frontmatter_is_not_written(content: Seq<char>)
    ensures
        note_file(Some(no_frontmatter()), content) == content.push('\n'),
        note_file(Some(YamlView::Null), content) == content.push('\n'),
        note_file(None, content) == content.push('\n'),
{
    reveal_strlit("\n");
    assert(content + "\n"@ =~= content.push('\n'));
}

proof fn lemma_holds_middle(a: Seq<char>, part: Seq<char>, b: Seq<char>)
    ensures
        holds(a + part + b, part),
{
    let s = a + part + b;
    let n: int = a.len() as int;
    assert(s.subrange(n, n + part.len()) =~= part);
    assert(matches_at(s, part, n));
    lemma_next_match(s, part, 0);
}

/// What a change is known by shows all of it: the text of an operation shows its note,
/// its content where it gives one, and its frontmatter where it gives one.
pub proof fn law_a_change_is_known_by_all_of_it(op: OpView)
    requires
        op_json(op) is Ok,
    ensures
        holds(op_json(op)->Ok_0, json_quoted(target_of(op))),
        op matches OpView::Create { content, frontmatter, .. } ==> holds(
            op_json(op)->Ok_0,
            json_quoted(content),
        ) && (frontmatter is Some ==> holds(
            op_json(op)->Ok_0,
            yaml_as_json_text(frontmatter->0)->Ok_0,
        )),
        op matches OpView::Update { content, frontmatter, .. } ==> (content is Some ==> holds(
            op_json(op)->Ok_0,
            json_quoted(content->0),
        )) && (frontmatter is Some ==> holds(
            op_json(op)->Ok_0,
            yaml_as_json_text(frontmatter->0)->Ok_0,
        )),
        op matches OpView::SetRaw { raw, .. } ==> (raw is Some ==> holds(
            op_json(op)->Ok_0,
            json_quoted(raw->0),
        )),
{
    let text = op_json(op)->Ok_0;
    match op {
        OpView::Create { note_id, content, frontmatter } => {
            let part = frontmatter_part(frontmatter)->Ok_0;
            let a = "{\"op\":\"create\",\"note_id\":"@;
            let b = ",\"content\":"@;
            let id = json_quoted(note_id);
            let c = json_quoted(content);
            assert(text =~= a + id + (b + c + part + "}"@));
            lemma_holds_middle(a, id, b + c + part + "}"@);
            assert(text =~= (a + id + b) + c + (part + "}"@));
            lemma_holds_middle(a + id + b, c, part + "}"@);
            if let Some(y) = frontmatter {
                let t = yaml_as_json_text(y)->Ok_0;
                let f = ",\"frontmatter\":"@;
                assert(text =~= (a + id + b + c + f) + t + "}"@);
                lemma_holds_middle(a + id + b + c + f, t, "}"@);
            }
        },
        OpView::Update { note_id, content, frontmatter } => {
            let part = frontmatter_part(frontmatter)->Ok_0;
            let a = "{\"op\":\"update\",\"note_id\":"@;
            let b = ",\"content\":"@;
            let id = json_quoted(note_id);
            let mid = match content {
                Some(c) => b + json_quoted(c),
                None => seq![],
            };
            assert(text =~= a + id + (mid + part + "}"@));
            lemma_holds_middle(a, id, mid + part + "}"@);
            if let Some(c) = content {
                assert(text =~= (a + id + b) + json_quoted(c) + (part + "}"@));
                lemma_holds_middle(a + id + b, json_quoted(c), part + "}"@);
            }
            if let Some(y) = frontmatter {
                let t = yaml_as_json_text(y)->Ok_0;
                let f = ",\"frontmatter\":"@;
                assert(text =~= (a + id + mid + f) + t + "}"@);
                lemma_holds_middle(a + id + mid + f, t, "}"@);
            }
        },
        OpView::Delete { note_id } => {
            lemma_holds_middle("{\"op\":\"delete\",\"note_id\":"@, json_quoted(note_id), "}"@);
        },
        OpView::SetRaw { note_id, raw } => {
            let a = "{\"op\":\"setraw\",\"note_id\":"@;
            let b = ",\"raw\":"@;
            let id = json_quoted(note_id);
            let t = match raw {
                Some(r) => json_quoted(r),
                None => "null"@,
            };
            assert(text =~= a + id + (b + t + "}"@));
            lemma_holds_middle(a, id, b + t + "}"@);
            assert(text =~= (a + id + b) + t + "}"@);
            lemma_holds_middle(a + id + b, t, "}"@);
        },
    }
}

} // verus!

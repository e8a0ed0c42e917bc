//! The shape of answers: what stands under which name.
use crate::error::TacitusError;
use crate::memory::recall::RecallItemView;
use crate::memory::conflict::ConflictView;
use crate::memory::types::MemoryView;
use crate::tools::answer::{
    audit_json, change_json, clip_json, conflict_json, data_json, diff_json, envelope_of,
    hit_json, item_json, memory_json, node_json, note_json, row_json, shown_json, suggestion_json,
    task_json, template_json, texts_json, whole_json,
};
use crate::tools::registry::{ClippedChange, NoteRef, ToolData};
use crate::vault::get::{GetNoteView, NoteFormat};
use crate::vault::graph::GraphNodeView;
use crate::vault::json::JsonView;
use crate::vault::properties::{rows_view, RowView};
use crate::vault::search::{hits_view, SearchHitView};
use crate::vault::suggest::SuggestionView;
use crate::vault::tasks::{tasks_view, TaskView};
use crate::vault::template::{templates_view, TemplateView};
use crate::vault::write::{diff_view, DiffView, PermissionScope};
use crate::vault::writer::{audit_view, AuditView};
use vstd::prelude::*;

verus! {

/// Whether an object shows a value under a name.
pub open spec fn shows(j: JsonView, name: Seq<char>, value: JsonView) -> bool {
    j matches JsonView::Object(e) && exists|k: int|
        0 <= k < e.len() && #[trigger] e[k] == (name, value)
}

/// How many entries an object has.
pub open spec fn entries(j: JsonView) -> nat {
    j->Object_0.len()
}

/// An answer is an envelope: one of a result says so and holds the data, one of an error
/// says so and holds its code, its reason and what to do about it.
pub proof fn law_an_answer_says_whether_it_succeeded(r: Result<ToolData, TacitusError>)
    ensures
        r is Ok ==> shows(envelope_of(r), "ok"@, JsonView::Bool(true)) && shows(
            envelope_of(r),
            "data"@,
            data_json(r->Ok_0),
        ) && entries(envelope_of(r)) == 2,
        r matches Err(e) ==> shows(envelope_of(r), "ok"@, JsonView::Bool(false)) && entries(
            envelope_of(r),
        ) == 2 && exists|x: JsonView| #[trigger]
            shows(envelope_of(r), "error"@, x) && shows(x, "code"@, JsonView::Text(e@.code))
                && shows(x, "reason"@, JsonView::Text(e@.reason)) && shows(
                x,
                "suggestion"@,
                JsonView::Text(e@.suggestion),
            ),
{
    let e = envelope_of(r)->Object_0;
    if r is Ok {
        assert(e[0] == ("ok"@, JsonView::Bool(true)));
        assert(e[1] == ("data"@, data_json(r->Ok_0)));
    } else {
        assert(e[0] == ("ok"@, JsonView::Bool(false)));
        let x = e[1].1;
        assert(e[1] == ("error"@, x));
        let v = r->Err_0@;
        assert(x->Object_0[0] == ("code"@, JsonView::Text(v.code)));
        assert(x->Object_0[1] == ("reason"@, JsonView::Text(v.reason)));
        assert(x->Object_0[2] == ("suggestion"@, JsonView::Text(v.suggestion)));
        assert(shows(envelope_of(r), "error"@, x));
    }
}

/// A hit is shown with its note, its title, its score, its snippet and its cost.
pub proof fn law_a_hit_is_shown(h: SearchHitView)
    ensures
        shows(hit_json(h), "note_id"@, JsonView::Text(h.note_id)),
        shows(hit_json(h), "title"@, JsonView::Text(h.title)),
        shows(hit_json(h), "score"@, whole_json(h.score as nat)),
        shows(hit_json(h), "snippet"@, JsonView::Text(h.snippet)),
        shows(hit_json(h), "token_count"@, whole_json(h.token_count)),
        entries(hit_json(h)) == 5,
{
    let e = hit_json(h)->Object_0;
    assert(e[0] == ("note_id"@, JsonView::Text(h.note_id)));
    assert(e[1] == ("title"@, JsonView::Text(h.title)));
    assert(e[2] == ("score"@, whole_json(h.score as nat)));
    assert(e[3] == ("snippet"@, JsonView::Text(h.snippet)));
    assert(e[4] == ("token_count"@, whole_json(h.token_count)));
}

/// A memory is shown with all that it is; its key and its time to live only where it has
/// them.
pub proof fn law_a_memory_is_shown(m: MemoryView)
    ensures
        ({
            let j = memory_json(m);
            &&& shows(j, "id"@, JsonView::Text(m.id))
            &&& shows(j, "type"@, JsonView::Text(m.memory_type.name()))
            &&& shows(j, "content"@, JsonView::Text(m.content))
            &&& shows(j, "tags"@, texts_json(m.tags))
            &&& m.key matches Some(k) ==> shows(j, "key"@, JsonView::Text(k))
            &&& m.ttl matches Some(t) ==> shows(j, "ttl"@, whole_json(t as nat))
            &&& exists|x: JsonView| #[trigger]
                shows(j, "source"@, x) && shows(x, "origin"@, JsonView::Text(m.source.origin))
                    && shows(x, "author"@, JsonView::Text(m.source.author.name())) && shows(
                    x,
                    "timestamp"@,
                    JsonView::Text(m.source.timestamp),
                )
            &&& entries(j) == 5 + (if m.key is Some {
                1int
            } else {
                0
            }) + (if m.ttl is Some {
                1int
            } else {
                0
            })
        }),
{
    let j = memory_json(m);
    let e = j->Object_0;
    assert(e[0] == ("id"@, JsonView::Text(m.id)));
    assert(e[1] == ("type"@, JsonView::Text(m.memory_type.name())));
    assert(e[2] == ("content"@, JsonView::Text(m.content)));
    assert(e[3] == ("tags"@, texts_json(m.tags)));
    let at: int = if m.key is Some {
        5
    } else {
        4
    };
    if m.key is Some {
        assert(e[4] == ("key"@, JsonView::Text(m.key->0)));
    }
    let x = e[at].1;
    assert(e[at] == ("source"@, x));
    assert(x->Object_0[0] == ("origin"@, JsonView::Text(m.source.origin)));
    assert(x->Object_0[1] == ("author"@, JsonView::Text(m.source.author.name())));
    assert(x->Object_0[2] == ("timestamp"@, JsonView::Text(m.source.timestamp)));
    assert(shows(j, "source"@, x));
    if m.ttl is Some {
        assert(e[at + 1] == ("ttl"@, whole_json(m.ttl->0 as nat)));
    }
}

/// A recalled memory is shown with its score and its cost, and a conflict with its key
/// and the memories that carry it.
pub proof fn law_what_is_recalled_is_shown(i: RecallItemView, c: ConflictView)
    ensures
        shows(item_json(i), "memory"@, memory_json(i.memory)),
        shows(item_json(i), "score"@, whole_json(i.score as nat)),
        shows(item_json(i), "token_count"@, whole_json(i.token_count)),
        entries(item_json(i)) == 3,
        shows(conflict_json(c), "key"@, JsonView::Text(c.key)),
        shows(conflict_json(c), "memory_ids"@, texts_json(c.memory_ids)),
        entries(conflict_json(c)) == 2,
{
    let e = item_json(i)->Object_0;
    assert(e[0] == ("memory"@, memory_json(i.memory)));
    assert(e[1] == ("score"@, whole_json(i.score as nat)));
    assert(e[2] == ("token_count"@, whole_json(i.token_count)));
    let f = conflict_json(c)->Object_0;
    assert(f[0] == ("key"@, JsonView::Text(c.key)));
    assert(f[1] == ("memory_ids"@, texts_json(c.memory_ids)));
}

/// A note is shown with its id, its title, the format by its name, the text, the cost and
/// whether the text was cut.
pub proof fn law_a_note_is_shown(g: GetNoteView)
    ensures
        ({
            let j = shown_json(g);
            &&& shows(j, "note_id"@, JsonView::Text(g.note_id))
            &&& shows(j, "title"@, JsonView::Text(g.title))
            &&& g.format == NoteFormat::Full ==> shows(j, "format"@, JsonView::Text("full"@))
            &&& g.format == NoteFormat::Outline ==> shows(j, "format"@, JsonView::Text("outline"@))
            &&& g.format == NoteFormat::FrontmatterOnly ==> shows(
                j,
                "format"@,
                JsonView::Text("frontmatter_only"@),
            )
            &&& shows(j, "content"@, JsonView::Text(g.content))
            &&& shows(j, "token_count"@, whole_json(g.token_count))
            &&& shows(j, "truncated"@, JsonView::Bool(g.truncated))
            &&& entries(j) == 6
        }),
{
    let e = shown_json(g)->Object_0;
    assert(e[0] == ("note_id"@, JsonView::Text(g.note_id)));
    assert(e[1] == ("title"@, JsonView::Text(g.title)));
    assert(e[2].0 == "format"@);
    assert(e[2] == ("format"@, e[2].1));
    assert(e[3] == ("content"@, JsonView::Text(g.content)));
    assert(e[4] == ("token_count"@, whole_json(g.token_count)));
    assert(e[5] == ("truncated"@, JsonView::Bool(g.truncated)));
}

/// A task is shown with its note, its line, its text, whether it is done, its due date or
/// none, its tags and its cost.
pub proof fn law_a_task_is_shown(t: TaskView)
    ensures
        ({
            let j = task_json(t);
            &&& shows(j, "note_id"@, JsonView::Text(t.note_id))
            &&& shows(j, "line"@, whole_json(t.line))
            &&& shows(j, "text"@, JsonView::Text(t.text))
            &&& shows(j, "done"@, JsonView::Bool(t.done))
            &&& t.due matches Some(d) ==> shows(j, "due"@, JsonView::Text(d))
            &&& t.due is None ==> shows(j, "due"@, JsonView::Null)
            &&& shows(j, "tags"@, texts_json(t.tags))
            &&& shows(j, "token_count"@, whole_json(t.token_count))
            &&& entries(j) == 7
        }),
{
    let e = task_json(t)->Object_0;
    assert(e[0] == ("note_id"@, JsonView::Text(t.note_id)));
    assert(e[1] == ("line"@, whole_json(t.line)));
    assert(e[2] == ("text"@, JsonView::Text(t.text)));
    assert(e[3] == ("done"@, JsonView::Bool(t.done)));
    assert(e[4] == ("due"@, e[4].1));
    assert(e[5] == ("tags"@, texts_json(t.tags)));
    assert(e[6] == ("token_count"@, whole_json(t.token_count)));
}

/// A change is shown with its note, its name, and the file before and after, or null
/// where there was or is none.
pub proof fn law_a_change_is_shown(d: DiffView)
    ensures
        ({
            let j = diff_json(d);
            &&& shows(j, "note_id"@, JsonView::Text(d.note_id))
            &&& shows(j, "op"@, JsonView::Text(d.op))
            &&& d.before matches Some(t) ==> shows(j, "before"@, JsonView::Text(t))
            &&& d.before is None ==> shows(j, "before"@, JsonView::Null)
            &&& d.after matches Some(t) ==> shows(j, "after"@, JsonView::Text(t))
            &&& d.after is None ==> shows(j, "after"@, JsonView::Null)
            &&& entries(j) == 4
        }),
{
    let e = diff_json(d)->Object_0;
    assert(e[0] == ("note_id"@, JsonView::Text(d.note_id)));
    assert(e[1] == ("op"@, JsonView::Text(d.op)));
    assert(e[2] == ("before"@, e[2].1));
    assert(e[3] == ("after"@, e[3].1));
}

/// An audit entry is shown with when, what, which version, which notes and which scope;
/// the change and the session only where it has them.
pub proof fn law_an_audit_entry_is_shown(a: AuditView)
    ensures
        ({
            let j = audit_json(a);
            &&& shows(j, "ts"@, JsonView::Text(a.ts))
            &&& shows(j, "action"@, JsonView::Text(a.action))
            &&& shows(j, "version_id"@, JsonView::Text(a.version_id))
            &&& a.change_id matches Some(c) ==> shows(j, "change_id"@, JsonView::Text(c))
            &&& shows(j, "notes"@, texts_json(a.notes))
            &&& a.scope == PermissionScope::ReadOnly ==> shows(
                j,
                "scope"@,
                JsonView::Text("read-only"@),
            )
            &&& a.scope == PermissionScope::ReadWrite ==> shows(
                j,
                "scope"@,
                JsonView::Text("read-write"@),
            )
            &&& a.origin matches Some(o) ==> shows(j, "origin"@, JsonView::Text(o))
        }),
{
    let e = audit_json(a)->Object_0;
    assert(e[0] == ("ts"@, JsonView::Text(a.ts)));
    assert(e[1] == ("action"@, JsonView::Text(a.action)));
    assert(e[2] == ("version_id"@, JsonView::Text(a.version_id)));
    let at: int = if a.change_id is Some {
        4
    } else {
        3
    };
    if a.change_id is Some {
        assert(e[3] == ("change_id"@, JsonView::Text(a.change_id->0)));
    }
    assert(e[at] == ("notes"@, texts_json(a.notes)));
    assert(e[at + 1] == ("scope"@, e[at + 1].1));
    if a.origin is Some {
        assert(e[at + 2] == ("origin"@, JsonView::Text(a.origin->0)));
    }
}

/// A row, a template, a note of the graph, a listed note and a suggestion are shown with
/// all their fields under their names.
pub proof fn law_rows_and_notes_are_shown(
    w: RowView,
    t: TemplateView,
    n: GraphNodeView,
    r: NoteRef,
    s: SuggestionView,
)
    ensures
        shows(row_json(w), "note_id"@, JsonView::Text(w.note_id)),
        shows(row_json(w), "title"@, JsonView::Text(w.title)),
        shows(row_json(w), "properties"@, JsonView::Object(w.properties)),
        shows(row_json(w), "token_count"@, whole_json(w.token_count)),
        shows(template_json(t), "name"@, JsonView::Text(t.name)),
        shows(template_json(t), "vars"@, texts_json(t.vars)),
        shows(node_json(n), "note_id"@, JsonView::Text(n.note_id)),
        shows(node_json(n), "title"@, JsonView::Text(n.title)),
        shows(note_json(r), "note_id"@, JsonView::Text(r.note_id@)),
        shows(note_json(r), "title"@, JsonView::Text(r.title@)),
        shows(note_json(r), "path"@, JsonView::Text(r.path@)),
        shows(suggestion_json(s), "note_id"@, JsonView::Text(s.note_id)),
        shows(suggestion_json(s), "title"@, JsonView::Text(s.title)),
        shows(suggestion_json(s), "score"@, JsonView::Number(s.score)),
        shows(suggestion_json(s), "reasons"@, texts_json(s.reasons)),
        shows(suggestion_json(s), "snippet"@, JsonView::Text(s.snippet)),
        shows(suggestion_json(s), "token_count"@, whole_json(s.token_count)),
{
    let e = row_json(w)->Object_0;
    assert(e[0] == ("note_id"@, JsonView::Text(w.note_id)));
    assert(e[1] == ("title"@, JsonView::Text(w.title)));
    assert(e[2] == ("properties"@, JsonView::Object(w.properties)));
    assert(e[3] == ("token_count"@, whole_json(w.token_count)));
    let f = template_json(t)->Object_0;
    assert(f[0] == ("name"@, JsonView::Text(t.name)));
    assert(f[1] == ("vars"@, texts_json(t.vars)));
    let g = node_json(n)->Object_0;
    assert(g[0] == ("note_id"@, JsonView::Text(n.note_id)));
    assert(g[1] == ("title"@, JsonView::Text(n.title)));
    let h = note_json(r)->Object_0;
    assert(h[0] == ("note_id"@, JsonView::Text(r.note_id@)));
    assert(h[1] == ("title"@, JsonView::Text(r.title@)));
    assert(h[2] == ("path"@, JsonView::Text(r.path@)));
    let i = suggestion_json(s)->Object_0;
    assert(i[0] == ("note_id"@, JsonView::Text(s.note_id)));
    assert(i[1] == ("title"@, JsonView::Text(s.title)));
    assert(i[2] == ("score"@, JsonView::Number(s.score)));
    assert(i[3] == ("reasons"@, texts_json(s.reasons)));
    assert(i[4] == ("snippet"@, JsonView::Text(s.snippet)));
    assert(i[5] == ("token_count"@, whole_json(s.token_count)));
}

/// A list of answers has one for each, in order, under its own name.
pub proof fn law_each_answer_is_listed(d: ToolData, k: int)
    ensures
        d matches ToolData::Hits(v) ==> exists|l: Seq<JsonView>| #[trigger]
            shows(data_json(d), "hits"@, JsonView::List(l)) && l.len() == v@.len() && (0 <= k
                < v@.len() ==> l[k] == hit_json(v@[k]@)),
        d matches ToolData::Tasks(v) ==> exists|l: Seq<JsonView>| #[trigger]
            shows(data_json(d), "tasks"@, JsonView::List(l)) && l.len() == v@.len() && (0 <= k
                < v@.len() ==> l[k] == task_json(v@[k]@)),
        d matches ToolData::Rows(v) ==> exists|l: Seq<JsonView>| #[trigger]
            shows(data_json(d), "rows"@, JsonView::List(l)) && l.len() == v@.len() && (0 <= k
                < v@.len() ==> l[k] == row_json(v@[k]@)),
        d matches ToolData::Audit(v) ==> exists|l: Seq<JsonView>| #[trigger]
            shows(data_json(d), "entries"@, JsonView::List(l)) && l.len() == v@.len() && (0 <= k
                < v@.len() ==> l[k] == audit_json(v@[k]@)),
        d matches ToolData::Notes(v) ==> exists|l: Seq<JsonView>| #[trigger]
            shows(data_json(d), "notes"@, JsonView::List(l)) && l.len() == v@.len() && (0 <= k
                < v@.len() ==> l[k] == note_json(v@[k])),
        d matches ToolData::Templates(v) ==> exists|l: Seq<JsonView>| #[trigger]
            shows(data_json(d), "templates"@, JsonView::List(l)) && l.len() == v@.len() && (0 <= k
                < v@.len() ==> l[k] == template_json(v@[k]@)),
{
    let e = data_json(d)->Object_0;
    match d {
        ToolData::Hits(v) => {
            let l = hits_view(v@).map_values(|x: SearchHitView| hit_json(x));
            assert(e[0] == ("hits"@, JsonView::List(l)));
            assert(shows(data_json(d), "hits"@, JsonView::List(l)));
        },
        ToolData::Tasks(v) => {
            let l = tasks_view(v@).map_values(|x: TaskView| task_json(x));
            assert(e[0] == ("tasks"@, JsonView::List(l)));
            assert(shows(data_json(d), "tasks"@, JsonView::List(l)));
        },
        ToolData::Rows(v) => {
            let l = rows_view(v@).map_values(|x: RowView| row_json(x));
            assert(e[0] == ("rows"@, JsonView::List(l)));
            assert(shows(data_json(d), "rows"@, JsonView::List(l)));
        },
        ToolData::Audit(v) => {
            let l = audit_view(v@).map_values(|x: AuditView| audit_json(x));
            assert(e[0] == ("entries"@, JsonView::List(l)));
            assert(shows(data_json(d), "entries"@, JsonView::List(l)));
        },
        ToolData::Notes(v) => {
            let l = v@.map_values(|x: NoteRef| note_json(x));
            assert(e[0] == ("notes"@, JsonView::List(l)));
            assert(shows(data_json(d), "notes"@, JsonView::List(l)));
        },
        ToolData::Templates(v) => {
            let l = templates_view(v@).map_values(|x: TemplateView| template_json(x));
            assert(e[0] == ("templates"@, JsonView::List(l)));
            assert(shows(data_json(d), "templates"@, JsonView::List(l)));
        },
        _ => {},
    }
}

/// What a write answers: the version that it made, and for a note from a template its id;
/// for a rename both ids and how many notes were updated; for a revert that it was one.
pub proof fn law_a_write_answers_with_its_version(d: ToolData)
    ensures
        d matches ToolData::Committed(c) ==> shows(
            data_json(d),
            "version_id"@,
            JsonView::Text(c.version_id@),
        ),
        d matches ToolData::Created(c, id) ==> shows(
            data_json(d),
            "version_id"@,
            JsonView::Text(c.version_id@),
        ) && shows(data_json(d), "note_id"@, JsonView::Text(id@)),
        d matches ToolData::Renamed(x) ==> shows(
            data_json(d),
            "version_id"@,
            JsonView::Text(x.version_id@),
        ) && shows(data_json(d), "from"@, JsonView::Text(x.from@)) && shows(
            data_json(d),
            "to"@,
            JsonView::Text(x.to@),
        ) && shows(data_json(d), "links_updated_in"@, whole_json(x.links_updated_in as nat)),
        d matches ToolData::Reverted(v) ==> shows(
            data_json(d),
            "reverted"@,
            JsonView::Bool(v.reverted),
        ) && shows(data_json(d), "version_id"@, JsonView::Text(v.version_id@)),
        d matches ToolData::Proposed(p) ==> shows(
            data_json(d),
            "change_id"@,
            JsonView::Text(p.change_id@),
        ) && shows(
            data_json(d),
            "diff"@,
            JsonView::List(diff_view(p.diff@).map_values(|x: DiffView| diff_json(x))),
        ),
        d matches ToolData::Remembered(id) ==> shows(
            data_json(d),
            "memory_id"@,
            JsonView::Text(id@),
        ),
        d matches ToolData::Removed(b) ==> shows(data_json(d), "removed"@, JsonView::Bool(b)),
{
    let e = data_json(d)->Object_0;
    match d {
        ToolData::Committed(c) => {
            assert(e[0] == ("version_id"@, JsonView::Text(c.version_id@)));
        },
        ToolData::Created(c, id) => {
            assert(e[0] == ("version_id"@, JsonView::Text(c.version_id@)));
            assert(e[1] == ("note_id"@, JsonView::Text(id@)));
        },
        ToolData::Renamed(x) => {
            assert(e[0] == ("version_id"@, JsonView::Text(x.version_id@)));
            assert(e[1] == ("from"@, JsonView::Text(x.from@)));
            assert(e[2] == ("to"@, JsonView::Text(x.to@)));
            assert(e[3] == ("links_updated_in"@, whole_json(x.links_updated_in as nat)));
        },
        ToolData::Reverted(v) => {
            assert(e[0] == ("reverted"@, JsonView::Bool(v.reverted)));
            assert(e[1] == ("version_id"@, JsonView::Text(v.version_id@)));
        },
        ToolData::Proposed(p) => {
            let l = diff_view(p.diff@).map_values(|x: DiffView| diff_json(x));
            assert(e[0] == ("change_id"@, JsonView::Text(p.change_id@)));
            assert(e[1] == ("diff"@, JsonView::List(l)));
        },
        ToolData::Remembered(id) => {
            assert(e[0] == ("memory_id"@, JsonView::Text(id@)));
        },
        ToolData::Removed(b) => {
            assert(e[0] == ("removed"@, JsonView::Bool(b)));
        },
        _ => {},
    }
}

/// A change of a version is shown with its note, its name and what is shown of the file
/// before and after, each with whether it was cut, or null.
pub proof fn law_a_version_change_is_shown(c: ClippedChange)
    ensures
        ({
            let j = change_json(c);
            &&& shows(j, "note_id"@, JsonView::Text(c.note_id@))
            &&& shows(j, "op"@, JsonView::Text(c.op@))
            &&& c.before is None ==> shows(j, "before"@, JsonView::Null)
            &&& c.after is None ==> shows(j, "after"@, JsonView::Null)
            &&& c.before matches Some(x) ==> exists|b: JsonView| #[trigger]
                shows(j, "before"@, b) && shows(b, "content"@, JsonView::Text(x.content@)) && shows(
                    b,
                    "truncated"@,
                    JsonView::Bool(x.truncated),
                )
            &&& c.after matches Some(x) ==> exists|b: JsonView| #[trigger]
                shows(j, "after"@, b) && shows(b, "content"@, JsonView::Text(x.content@)) && shows(
                    b,
                    "truncated"@,
                    JsonView::Bool(x.truncated),
                )
        }),
{
    let j = change_json(c);
    let e = j->Object_0;
    assert(e[0] == ("note_id"@, JsonView::Text(c.note_id@)));
    assert(e[1] == ("op"@, JsonView::Text(c.op@)));
    assert(e[2] == ("before"@, clip_json(c.before)));
    assert(e[3] == ("after"@, clip_json(c.after)));
    assert(shows(j, "before"@, clip_json(c.before)));
    assert(shows(j, "after"@, clip_json(c.after)));
    if let Some(x) = c.before {
        let b = clip_json(c.before)->Object_0;
        assert(b[0] == ("content"@, JsonView::Text(x.content@)));
        assert(b[1] == ("truncated"@, JsonView::Bool(x.truncated)));
    }
    if let Some(x) = c.after {
        let b = clip_json(c.after)->Object_0;
        assert(b[0] == ("content"@, JsonView::Text(x.content@)));
        assert(b[1] == ("truncated"@, JsonView::Bool(x.truncated)));
    }
}

} // verus!

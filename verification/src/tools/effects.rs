//! What each tool call comes to, by what the call says and what is there afterwards.
use crate::error::ErrorView;
use crate::memory::recall::{law_recall_returns_the_wanted_type, recall_items_view};
use crate::memory::types::MemoryType;
use crate::paths::note_key;
use crate::text::opt_text;
use crate::tools::args::{
    ChangeOpArg, CreateNoteArgs, DeleteNoteArgs, PropertiesArgs, RecallQuery, TagArgs,
    ToggleTaskArgs, UpdateNoteArgs,
};
use crate::tools::registry::{
    audit_limit, bad_filter_from, bad_var_from, clips, depth_of, filter_of_tasks, format_named,
    frontmatter_of, memory_list, op_of, ops_of, query_of, relation_named, scalar_text, shown_chars,
    tool_ran, vars_text, wanted_type, Clip, Moment, Records, ToolCall, ToolData, ToolRegistry,
};
use crate::vault::get::NoteFormat;
use crate::vault::graph::Relation;
use crate::vault::history::law_a_write_lands;
use crate::vault::json::{yaml_from, JsonView};
use crate::vault::parse::{frontmatter_of as front_of, sections};
use crate::vault::properties::PropOp;
use crate::vault::tasks::{is_wanted, law_listed_tasks_are_wanted, tasks_view, toggled};
use crate::vault::write::{note_file, raw_of, OpView};
use crate::vault::writer::{tag_ops, tagged_frontmatter};
use vstd::prelude::*;

verus! {

// ---------------------------------------------------------------------------
// Names and defaults
// ---------------------------------------------------------------------------

/// The relations have their names, and nothing else names one. Without a depth a query
/// goes one link deep.
pub proof fn law_relations_go_by_name(name: Seq<char>)
    ensures
        relation_named(name) == Some(Relation::Links) <==> name == "links"@,
        relation_named(name) == Some(Relation::Backlinks) <==> name == "backlinks"@,
        relation_named(name) == Some(Relation::Neighbors) <==> name == "neighbors"@,
        depth_of(None) == 1,
{
    reveal_strlit("links");
    reveal_strlit("backlinks");
    reveal_strlit("neighbors");
    assert("links"@[0] != "backlinks"@[0] && "links"@[0] != "neighbors"@[0] && "backlinks"@[0]
        != "neighbors"@[0]);
}

/// The operators have their names, and nothing else names one.
pub proof fn law_operators_go_by_name(name: Seq<char>)
    ensures
        PropOp::named(name) == Some(PropOp::Eq) <==> name == "eq"@,
        PropOp::named(name) == Some(PropOp::Ne) <==> name == "ne"@,
        PropOp::named(name) == Some(PropOp::Contains) <==> name == "contains"@,
        PropOp::named(name) == Some(PropOp::Exists) <==> name == "exists"@,
        PropOp::named(name) == Some(PropOp::NotExists) <==> name == "not_exists"@,
        PropOp::named(name) == Some(PropOp::Gt) <==> name == "gt"@,
        PropOp::named(name) == Some(PropOp::Lt) <==> name == "lt"@,
        PropOp::named(name) == Some(PropOp::Gte) <==> name == "gte"@,
        PropOp::named(name) == Some(PropOp::Lte) <==> name == "lte"@,
{
    reveal_strlit("eq");
    reveal_strlit("ne");
    reveal_strlit("contains");
    reveal_strlit("exists");
    reveal_strlit("not_exists");
    reveal_strlit("gt");
    reveal_strlit("lt");
    reveal_strlit("gte");
    reveal_strlit("lte");
    assert("eq"@[0] == 'e' && "eq"@.len() == 2 && "ne"@[0] == 'n' && "ne"@.len() == 2
        && "contains"@[0] == 'c' && "exists"@[0] == 'e' && "exists"@.len() == 6 && "not_exists"@[0]
        == 'n' && "not_exists"@.len() == 10 && "gt"@[0] == 'g' && "gt"@.len() == 2 && "lt"@[0]
        == 'l' && "lt"@.len() == 2 && "gte"@[0] == 'g' && "gte"@.len() == 3 && "lte"@[0] == 'l'
        && "lte"@.len() == 3);
}

/// A note is shown in full or by its frontmatter where that is asked for by name, and
/// as an outline else.
pub proof fn law_formats_go_by_name(name: Option<String>)
    ensures
        format_named(name) == NoteFormat::Full <==> opt_text(name) == Some("full"@),
        format_named(name) == NoteFormat::FrontmatterOnly <==> opt_text(name) == Some(
            "frontmatter_only"@,
        ),
        name is None ==> format_named(name) == NoteFormat::Outline,
{
    reveal_strlit("full");
    reveal_strlit("frontmatter_only");
    assert("full"@.len() != "frontmatter_only"@.len());
}

/// Without a limit fifty entries of the audit log are read.
pub proof fn law_fifty_entries_are_read(n: usize)
    ensures
        audit_limit(None) == 50,
        audit_limit(Some(n)) == n,
{
}

// ---------------------------------------------------------------------------
// Memories
// ---------------------------------------------------------------------------

/// A recall by type gives memories of that type: where the call names one of the four,
/// each memory that comes back is of it, and is one that is stored.
pub proof fn law_recall_by_type_gives_that_type(
    a: RecallQuery,
    allow: Option<Seq<Seq<char>>>,
    g0: ToolRegistry,
    g1: ToolRegistry,
    r0: Records,
    r1: Records,
    at: Moment,
    d: ToolData,
    k: int,
)
    requires
        tool_ran(ToolCall::Recall(a), allow, g0, g1, r0, r1, at, Ok(d)),
        0 <= k < d->Recalled_0.items@.len(),
    ensures
        ({
            let m = d->Recalled_0.items@[k].memory@;
            &&& memory_list(r0.memories).contains(m)
            &&& opt_text(a.memory_type) == Some("user"@) ==> m.memory_type == MemoryType::User
            &&& opt_text(a.memory_type) == Some("feedback"@) ==> m.memory_type
                == MemoryType::Feedback
            &&& opt_text(a.memory_type) == Some("project"@) ==> m.memory_type == MemoryType::Project
            &&& opt_text(a.memory_type) == Some("reference"@) ==> m.memory_type
                == MemoryType::Reference
        }),
{
    reveal_strlit("user");
    reveal_strlit("feedback");
    reveal_strlit("project");
    reveal_strlit("reference");
    assert("user"@[0] == 'u' && "feedback"@[0] == 'f' && "project"@[0] == 'p' && "reference"@[0]
        == 'r');
    let items = d->Recalled_0.items@;
    let ms = memory_list(r0.memories);
    law_recall_returns_the_wanted_type(
        ms,
        a.query@,
        wanted_type(a.memory_type),
        a.token_budget,
        k,
    );
    assert(recall_items_view(items)[k] == items[k]@);
}

// ---------------------------------------------------------------------------
// Tasks
// ---------------------------------------------------------------------------

/// Listed tasks are those asked for: of the note, with the status and the tag, due
/// before the one day and not before the other, as the call says.
pub proof fn law_list_tasks_gives_what_is_asked_for(
    a: crate::tools::args::ListTasksArgs,
    allow: Option<Seq<Seq<char>>>,
    g0: ToolRegistry,
    g1: ToolRegistry,
    r0: Records,
    r1: Records,
    at: Moment,
    d: ToolData,
    k: int,
)
    requires
        tool_ran(ToolCall::ListTasks(a), allow, g0, g1, r0, r1, at, Ok(d)),
        0 <= k < d->Tasks_0@.len(),
    ensures
        ({
            let t = d->Tasks_0@[k]@;
            &&& a.note_id is Some ==> t.note_id == a.note_id->0@
            &&& a.done is Some ==> t.done == a.done->0
            &&& a.tag is Some ==> t.tags.contains(a.tag->0@)
            &&& a.due_before is Some ==> t.due is Some && crate::order::before(
                t.due->0,
                a.due_before->0@,
            )
            &&& a.due_after is Some ==> t.due is Some && (t.due->0 == a.due_after->0@
                || crate::order::before(a.due_after->0@, t.due->0))
        }),
{
    let f = filter_of_tasks(a);
    let ts = d->Tasks_0@;
    law_listed_tasks_are_wanted(r0.vault.index@, f, k);
    assert(tasks_view(ts)[k] == ts[k]@);
    let t = ts[k]@;
    assert(is_wanted(t, f));
    if a.tag is Some {
        let j = choose|j: int| 0 <= j < t.tags.len() && #[trigger] t.tags[j] == f.tag->0;
        assert(t.tags.contains(a.tag->0@));
    }
}

// ---------------------------------------------------------------------------
// Notes
// ---------------------------------------------------------------------------

/// create_note puts the given frontmatter and content into a new file, and touches no
/// other.
pub proof fn law_create_note_makes_its_file(
    a: CreateNoteArgs,
    allow: Option<Seq<Seq<char>>>,
    g0: ToolRegistry,
    g1: ToolRegistry,
    r0: Records,
    r1: Records,
    at: Moment,
    d: ToolData,
    key: Seq<char>,
)
    requires
        tool_ran(ToolCall::CreateNote(a), allow, g0, g1, r0, r1, at, Ok(d)),
    ensures
        ({
            let file = note_key(a.note_id@);
            let given = match a.frontmatter {
                Some(j) => Some(yaml_from(j@)->Ok_0),
                None => None,
            };
            &&& raw_of(r0.vault.notes(), file) is None
            &&& raw_of(r1.vault.notes(), file) == Some(note_file(given, a.content@))
            &&& key != file ==> raw_of(r1.vault.notes(), key) == raw_of(r0.vault.notes(), key)
            &&& r1.memories == r0.memories
            &&& r1.templates == r0.templates
        }),
{
    let fm = frontmatter_of(a.frontmatter)->Ok_0;
    let op = OpView::Create { note_id: a.note_id@, content: a.content@, frontmatter: fm };
    law_a_write_lands(
        g0.writer,
        r0.vault,
        r1.vault,
        op,
        at.millis,
        at.now@,
        d->Committed_0,
        key,
    );
}

/// update_note puts in what is given, the frontmatter, the content or both, keeps what
/// the file had of the rest, and touches no other file.
pub proof fn law_update_note_puts_in_what_is_given(
    a: UpdateNoteArgs,
    allow: Option<Seq<Seq<char>>>,
    g0: ToolRegistry,
    g1: ToolRegistry,
    r0: Records,
    r1: Records,
    at: Moment,
    d: ToolData,
    key: Seq<char>,
)
    requires
        tool_ran(ToolCall::UpdateNote(a), allow, g0, g1, r0, r1, at, Ok(d)),
    ensures
        ({
            let file = note_key(a.note_id@);
            let old_file = raw_of(r0.vault.notes(), file);
            let fm = match a.frontmatter {
                Some(j) => yaml_from(j@)->Ok_0,
                None => front_of(old_file->0),
            };
            let body = match a.content {
                Some(c) => c@,
                None => sections(old_file->0).1,
            };
            &&& old_file is Some
            &&& raw_of(r1.vault.notes(), file) == Some(note_file(Some(fm), body))
            &&& key != file ==> raw_of(r1.vault.notes(), key) == raw_of(r0.vault.notes(), key)
            &&& r1.memories == r0.memories
            &&& r1.templates == r0.templates
        }),
{
    let fm = frontmatter_of(a.frontmatter)->Ok_0;
    let op = OpView::Update { note_id: a.note_id@, content: opt_text(a.content), frontmatter: fm };
    law_a_write_lands(
        g0.writer,
        r0.vault,
        r1.vault,
        op,
        at.millis,
        at.now@,
        d->Committed_0,
        key,
    );
}

/// delete_note takes the file of the note away, and no other.
pub proof fn law_delete_note_takes_its_file_away(
    a: DeleteNoteArgs,
    allow: Option<Seq<Seq<char>>>,
    g0: ToolRegistry,
    g1: ToolRegistry,
    r0: Records,
    r1: Records,
    at: Moment,
    d: ToolData,
    key: Seq<char>,
)
    requires
        tool_ran(ToolCall::DeleteNote(a), allow, g0, g1, r0, r1, at, Ok(d)),
    ensures
        raw_of(r0.vault.notes(), note_key(a.note_id@)) is Some,
        raw_of(r1.vault.notes(), note_key(a.note_id@)) is None,
        key != note_key(a.note_id@) ==> raw_of(r1.vault.notes(), key) == raw_of(
            r0.vault.notes(),
            key,
        ),
{
    law_a_write_lands(
        g0.writer,
        r0.vault,
        r1.vault,
        OpView::Delete { note_id: a.note_id@ },
        at.millis,
        at.now@,
        d->Committed_0,
        key,
    );
}

/// tag adds the tag to the frontmatter of the note and keeps its content.
pub proof fn law_tag_keeps_the_content(
    a: TagArgs,
    allow: Option<Seq<Seq<char>>>,
    g0: ToolRegistry,
    g1: ToolRegistry,
    r0: Records,
    r1: Records,
    at: Moment,
    d: ToolData,
    key: Seq<char>,
)
    requires
        tool_ran(ToolCall::Tag(a), allow, g0, g1, r0, r1, at, Ok(d)),
    ensures
        ({
            let file = note_key(a.note_id@);
            let old_file = raw_of(r0.vault.notes(), file);
            &&& old_file is Some
            &&& raw_of(r1.vault.notes(), file) == Some(
                note_file(
                    Some(tagged_frontmatter(front_of(old_file->0), a.tag@)),
                    sections(old_file->0).1,
                ),
            )
            &&& key != file ==> raw_of(r1.vault.notes(), key) == raw_of(r0.vault.notes(), key)
        }),
{
    let raw = raw_of(r0.vault.notes(), note_key(a.note_id@))->0;
    let ops = tag_ops(raw, a.note_id@, a.tag@);
    assert(ops =~= seq![ops[0]]);
    law_a_write_lands(
        g0.writer,
        r0.vault,
        r1.vault,
        ops[0],
        at.millis,
        at.now@,
        d->Committed_0,
        key,
    );
}

/// toggle_task writes the content with the one task flipped, and keeps the frontmatter.
pub proof fn law_toggle_task_keeps_the_frontmatter(
    a: ToggleTaskArgs,
    allow: Option<Seq<Seq<char>>>,
    g0: ToolRegistry,
    g1: ToolRegistry,
    r0: Records,
    r1: Records,
    at: Moment,
    d: ToolData,
    key: Seq<char>,
)
    requires
        tool_ran(ToolCall::ToggleTask(a), allow, g0, g1, r0, r1, at, Ok(d)),
    ensures
        ({
            let file = note_key(a.note_id@);
            let old_file = raw_of(r0.vault.notes(), file);
            let note = crate::vault::index::note_at(r0.vault.index@, a.note_id@);
            let flipped = toggled(a.note_id@, note->0.content, a.line as nat, a.expect_text@);
            &&& old_file is Some && note is Some && flipped is Ok
            &&& raw_of(r1.vault.notes(), file) == Some(
                note_file(Some(front_of(old_file->0)), flipped->Ok_0),
            )
            &&& key != file ==> raw_of(r1.vault.notes(), key) == raw_of(r0.vault.notes(), key)
        }),
{
    let note = crate::vault::index::note_at(r0.vault.index@, a.note_id@)->0;
    let content = toggled(a.note_id@, note.content, a.line as nat, a.expect_text@)->Ok_0;
    law_a_write_lands(
        g0.writer,
        r0.vault,
        r1.vault,
        OpView::Update { note_id: a.note_id@, content: Some(content), frontmatter: None },
        at.millis,
        at.now@,
        d->Committed_0,
        key,
    );
}

// ---------------------------------------------------------------------------
// Arguments
// ---------------------------------------------------------------------------

/// A proposed operation is the one that its name says, on the note that it names, with
/// what is given. A create without a content has an empty one, and an update without one
/// leaves it alone.
pub proof fn law_operations_go_by_name(a: ChangeOpArg)
    ensures
        op_of(a) matches Ok(op) ==> {
            &&& op is Create <==> a.op@ == "create"@
            &&& op is Update <==> a.op@ == "update"@
            &&& op is Delete <==> a.op@ == "delete"@
            &&& op !is SetRaw
            &&& crate::vault::write::target_of(op) == a.note_id@
            &&& op matches OpView::Create { content, frontmatter, .. } ==> (a.content is Some
                ==> content == a.content->0@) && (a.content is None ==> content.len() == 0) && (
            a.frontmatter is None ==> frontmatter is None) && (a.frontmatter is Some
                ==> frontmatter == Some(yaml_from(a.frontmatter->0@)->Ok_0))
            &&& op matches OpView::Update { content, frontmatter, .. } ==> content == opt_text(
                a.content,
            ) && (a.frontmatter is None ==> frontmatter is None) && (a.frontmatter is Some
                ==> frontmatter == Some(yaml_from(a.frontmatter->0@)->Ok_0))
        },
        op_of(a) is Ok <==> (a.op@ == "create"@ || a.op@ == "update"@ || a.op@ == "delete"@) && (
        a.frontmatter is Some ==> yaml_from(a.frontmatter->0@) is Ok),
{
    reveal_strlit("create");
    reveal_strlit("update");
    reveal_strlit("delete");
    assert("create"@[0] == 'c' && "update"@[0] == 'u' && "delete"@[0] == 'd');
}

proof fn lemma_ops_of(v: Seq<ChangeOpArg>, n: int)
    requires
        0 <= n <= v.len(),
    ensures
        ops_of(v, n) matches Ok(ops) ==> ops.len() == n && forall|k: int|
            0 <= k < n ==> op_of(#[trigger] v[k]) == Ok::<OpView, ErrorView>(ops[k]),
        ops_of(v, n) is Err ==> exists|k: int|
            0 <= k < n && op_of(#[trigger] v[k]) is Err && op_of(v[k])->Err_0 == ops_of(v, n)->Err_0
                && forall|j: int| 0 <= j < k ==> op_of(#[trigger] v[j]) is Ok,
    decreases n,
{
    if n > 0 {
        lemma_ops_of(v, n - 1);
        match ops_of(v, n - 1) {
            Ok(done) => {
                match op_of(v[n - 1]) {
                    Ok(op) => {
                        let ops = done.push(op);
                        assert forall|k: int| 0 <= k < n implies op_of(#[trigger] v[k]) == Ok::<
                            OpView,
                            ErrorView,
                        >(ops[k]) by {
                            if k < n - 1 {
                                assert(ops[k] == done[k]);
                            }
                        }
                    },
                    Err(e) => {
                        assert(op_of(v[n - 1]) is Err);
                    },
                }
            },
            Err(e) => {
                let k = choose|k: int|
                    0 <= k < n - 1 && op_of(#[trigger] v[k]) is Err && op_of(v[k])->Err_0 == ops_of(
                        v,
                        n - 1,
                    )->Err_0 && forall|j: int| 0 <= j < k ==> op_of(#[trigger] v[j]) is Ok;
                assert(op_of(v[k]) is Err);
            },
        }
    }
}

/// A proposal has an operation for each that is asked for, in their order; where one
/// cannot be read, the first such is what is wrong with it.
pub proof fn law_each_operation_is_proposed(v: Seq<ChangeOpArg>)
    ensures
        match ops_of(v, v.len() as int) {
            Ok(ops) => ops.len() == v.len() && forall|k: int|
                0 <= k < v.len() ==> op_of(#[trigger] v[k]) == Ok::<OpView, ErrorView>(ops[k]),
            Err(e) => exists|k: int|
                0 <= k < v.len() && op_of(#[trigger] v[k]) == Err::<OpView, ErrorView>(e) && forall|
                    j: int,
                |
                    0 <= j < k ==> op_of(#[trigger] v[j]) is Ok,
        },
{
    lemma_ops_of(v, v.len() as int);
    if ops_of(v, v.len() as int) is Err {
        let k = choose|k: int|
            0 <= k < v.len() && op_of(#[trigger] v[k]) is Err && op_of(v[k])->Err_0 == ops_of(
                v,
                v.len() as int,
            )->Err_0 && forall|j: int| 0 <= j < k ==> op_of(#[trigger] v[j]) is Ok;
        assert(op_of(v[k]) == Err::<OpView, ErrorView>(ops_of(v, v.len() as int)->Err_0));
    }
}

proof fn lemma_bad_filter(v: Seq<crate::tools::args::PropFilterArg>, i: int)
    requires
        0 <= i,
    ensures
        match bad_filter_from(v, i) {
            Some(k) => i <= k < v.len() && PropOp::named(v[k].op@) is None && forall|j: int|
                i <= j < k ==> PropOp::named((#[trigger] v[j]).op@) is Some,
            None => forall|j: int| i <= j < v.len() ==> PropOp::named((#[trigger] v[j]).op@) is Some,
        },
    decreases v.len() - i,
{
    if i < v.len() {
        lemma_bad_filter(v, i + 1);
    }
}

/// A query asks for what the call says: each condition with its key, the operator of its
/// name and its value; rows ascend unless the call says otherwise. A call with a name
/// that is no operator is refused.
pub proof fn law_a_query_asks_for_what_the_call_says(a: PropertiesArgs, k: int)
    requires
        0 <= k < a.filters@.len(),
    ensures
        bad_filter_from(a.filters@, 0) is None <==> forall|j: int|
            0 <= j < a.filters@.len() ==> PropOp::named((#[trigger] a.filters@[j]).op@) is Some,
        bad_filter_from(a.filters@, 0) is None ==> {
            let q = query_of(a);
            &&& q.filters.len() == a.filters@.len()
            &&& q.filters[k].key == a.filters@[k].key@
            &&& Some(q.filters[k].op) == PropOp::named(a.filters@[k].op@)
            &&& a.filters@[k].value is None ==> q.filters[k].value is None
            &&& a.filters@[k].value is Some ==> q.filters[k].value == Some(a.filters@[k].value->0@)
            &&& q.sort_by == opt_text(a.sort_by)
            &&& q.descending <==> a.descending is Some && a.descending->0
            &&& q.limit == a.limit
            &&& q.token_budget == a.token_budget
        },
{
    lemma_bad_filter(a.filters@, 0);
    if bad_filter_from(a.filters@, 0) is None {
        assert(PropOp::named(a.filters@[k].op@) is Some);
    }
}

proof fn lemma_vars_text(e: Seq<(Seq<char>, JsonView)>, n: int, k: int)
    requires
        0 <= k < n <= e.len(),
        forall|j: int| k < j < n ==> (#[trigger] e[j]).0 != e[k].0,
    ensures
        vars_text(e, n).contains_key(e[k].0),
        vars_text(e, n)[e[k].0] == scalar_text(e[k].1)->0,
    decreases n,
{
    if n - 1 > k {
        assert(e[n - 1].0 != e[k].0);
        lemma_vars_text(e, n - 1, k);
    }
}

/// The variables of a template are the scalars of the call as texts: a text as it is, a
/// number as it is written, a truth value by its name. The last of a name counts.
pub proof fn law_template_vars_are_scalars(e: Seq<(Seq<char>, JsonView)>, k: int)
    requires
        0 <= k < e.len(),
        forall|j: int| k < j < e.len() ==> (#[trigger] e[j]).0 != e[k].0,
    ensures
        ({
            let vars = vars_text(e, e.len() as int);
            &&& e[k].1 matches JsonView::Text(s) ==> vars.contains_key(e[k].0) && vars[e[k].0] == s
            &&& e[k].1 matches JsonView::Number(n) ==> vars.contains_key(e[k].0) && vars[e[k].0]
                == n.text
            &&& e[k].1 == JsonView::Bool(true) ==> vars.contains_key(e[k].0) && vars[e[k].0]
                == "true"@
            &&& e[k].1 == JsonView::Bool(false) ==> vars.contains_key(e[k].0) && vars[e[k].0]
                == "false"@
        }),
        e[k].1 is Null || e[k].1 is List || e[k].1 is Object ==> bad_var_from(e, 0) is Some,
{
    lemma_vars_text(e, e.len() as int, k);
    lemma_bad_var(e, 0);
}

proof fn lemma_bad_var(e: Seq<(Seq<char>, JsonView)>, i: int)
    requires
        0 <= i,
    ensures
        bad_var_from(e, i) is None ==> forall|j: int|
            i <= j < e.len() ==> scalar_text((#[trigger] e[j]).1) is Some,
    decreases e.len() - i,
{
    if i < e.len() {
        lemma_bad_var(e, i + 1);
    }
}

/// The contents of a version are shown only where they are asked for, each up to a
/// ceiling of four characters a token, five hundred tokens where none is said. What is
/// cut is the end, and it is said.
pub proof fn law_version_contents_are_clipped(
    c: Option<Clip>,
    content: Option<Seq<char>>,
    with_content: bool,
    max_tokens: Option<usize>,
)
    requires
        clips(c, content, with_content, shown_chars(max_tokens)),
    ensures
        c is Some <==> content is Some && with_content,
        c matches Some(x) ==> {
            let most: int = 4 * (if max_tokens is Some {
                max_tokens->0 as int
            } else {
                500
            });
            &&& x.content@.len() <= most
            &&& x.content@ == content->0.take(x.content@.len() as int)
            &&& x.truncated <==> content->0.len() > most
            &&& !x.truncated ==> x.content@ == content->0
            &&& x.truncated ==> x.content@.len() == most
        },
{
    if let Some(x) = c {
        let t = content->0;
        assert(x.content@ =~= t.take(x.content@.len() as int));
    }
}

} // verus!

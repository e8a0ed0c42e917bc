//! What the tools promise together.
use crate::error::{error, TacitusError};
use crate::memory::recall::{
    budget_of, law_recall_finds_what_is_relevant, memory_costs, ranked_relevant, recall_items,
    recall_items_view, recalled, relevant, RecallResult,
};
use crate::memory::types::{Memory, MemoryView};
use crate::order::{
    before, fit, law_stable_order, lemma_before_asym, lemma_before_total, lemma_before_trans,
    lemma_stable_order_has, stable_order, total, weak_order,
};
use crate::strmap::{ascending, lemma_keys, StrMap};
use crate::text::{debug_text, opt_text};
use crate::tools::args::{CreateFromTemplateArgs, ForgetArgs, RecallQuery, RememberArgs};
use crate::tools::registry::{
    by_tool_name, call_name, call_refused, filled_in, filled_in_with, forget_ran, holds_vars,
    is_allowed, memories_from, memory_file, memory_list, recall_ran, remember_ran,
    remembering, sorted_tools, template_of, tool_ran, var_entries, visible_from, wanted_type,
    Moment, Records, ToolCall, ToolData, ToolRegistry,
};
use crate::tools::table::{find_tool, find_tool_from, names_of, tool_table, DescriptorView};
use crate::vault::template::lemma_same_rendering;
use crate::vault::write::{DiffView, PermissionScope};
use crate::vault::writer::{
    audit_view, audited, by_key, commit_made, in_step, last_named, law_commits_are_audited,
    law_reverts_are_audited,
    read_only_error, revert_entry, AuditView, CommitResult,
};
use vstd::prelude::*;

verus! {

/// Whether a call is of a tool that writes.
pub open spec fn call_writes(call: ToolCall) -> bool {
    match call {
        ToolCall::Remember(_) => true,
        ToolCall::Forget(_) => true,
        ToolCall::CommitChanges(_) => true,
        ToolCall::Revert(_) => true,
        ToolCall::CreateNote(_) => true,
        ToolCall::UpdateNote(_) => true,
        ToolCall::Link(_) => true,
        ToolCall::Tag(_) => true,
        ToolCall::CreateFromTemplate(_) => true,
        ToolCall::ToggleTask(_) => true,
        ToolCall::RenameNote(_) => true,
        ToolCall::DeleteNote(_) => true,
        _ => false,
    }
}

/// No tool that only reads has the name of one that writes.
proof fn lemma_write_names(call: ToolCall, i: int)
    requires
        call_writes(call),
        0 <= i < tool_table().len(),
        tool_table()[i].name == call_name(call),
    ensures
        tool_table()[i].writes,
{
    reveal_strlit("remember");
    reveal_strlit("recall");
    reveal_strlit("forget");
    reveal_strlit("search");
    reveal_strlit("get_note");
    reveal_strlit("graph_query");
    reveal_strlit("suggest_links");
    reveal_strlit("list_notes");
    reveal_strlit("propose_changes");
    reveal_strlit("commit_changes");
    reveal_strlit("revert");
    reveal_strlit("create_note");
    reveal_strlit("update_note");
    reveal_strlit("link");
    reveal_strlit("tag");
    reveal_strlit("audit_log");
    reveal_strlit("properties_query");
    reveal_strlit("list_templates");
    reveal_strlit("create_from_template");
    reveal_strlit("list_tasks");
    reveal_strlit("toggle_task");
    reveal_strlit("rename_note");
    reveal_strlit("delete_note");
    reveal_strlit("get_version");
    reveal_strlit("capabilities");
    assert("remember"@[0] != "get_note"@[0]);
    assert("forget"@[0] != "recall"@[0]);
    assert("forget"@[0] != "search"@[0]);
    assert("commit_changes"@[0] != "list_templates"@[0]);
    assert("revert"@[2] != "recall"@[2]);
    assert("revert"@[0] != "search"@[0]);
    assert("create_note"@[0] != "graph_query"@[0]);
    assert("create_note"@[0] != "get_version"@[0]);
    assert("update_note"@[0] != "graph_query"@[0]);
    assert("update_note"@[0] != "get_version"@[0]);
    assert("toggle_task"@[0] != "graph_query"@[0]);
    assert("toggle_task"@[0] != "get_version"@[0]);
    assert("rename_note"@[0] != "graph_query"@[0]);
    assert("rename_note"@[0] != "get_version"@[0]);
    assert("delete_note"@[0] != "graph_query"@[0]);
    assert("delete_note"@[0] != "get_version"@[0]);
    assert(tool_table()[0].name == "remember"@ && tool_table()[0].writes);
    assert(tool_table()[1].name == "recall"@);
    assert(tool_table()[2].name == "forget"@ && tool_table()[2].writes);
    assert(tool_table()[3].name == "search"@);
    assert(tool_table()[4].name == "get_note"@);
    assert(tool_table()[5].name == "graph_query"@);
    assert(tool_table()[6].name == "suggest_links"@);
    assert(tool_table()[7].name == "list_notes"@);
    assert(tool_table()[8].name == "propose_changes"@);
    assert(tool_table()[9].name == "commit_changes"@ && tool_table()[9].writes);
    assert(tool_table()[10].name == "revert"@ && tool_table()[10].writes);
    assert(tool_table()[11].name == "create_note"@ && tool_table()[11].writes);
    assert(tool_table()[12].name == "update_note"@ && tool_table()[12].writes);
    assert(tool_table()[13].name == "link"@ && tool_table()[13].writes);
    assert(tool_table()[14].name == "tag"@ && tool_table()[14].writes);
    assert(tool_table()[15].name == "audit_log"@);
    assert(tool_table()[16].name == "properties_query"@);
    assert(tool_table()[17].name == "list_templates"@);
    assert(tool_table()[18].name == "create_from_template"@ && tool_table()[18].writes);
    assert(tool_table()[19].name == "list_tasks"@);
    assert(tool_table()[20].name == "toggle_task"@ && tool_table()[20].writes);
    assert(tool_table()[21].name == "rename_note"@ && tool_table()[21].writes);
    assert(tool_table()[22].name == "delete_note"@ && tool_table()[22].writes);
    assert(tool_table()[23].name == "get_version"@);
    assert(tool_table()[24].name == "capabilities"@);
}

/// A tool that the table does not mark as writing changes nothing: neither a
/// note nor a memory nor a template, neither the history nor the audit log.
pub proof fn law_read_tools_change_nothing(
    call: ToolCall,
    allow: Option<Seq<Seq<char>>>,
    g0: ToolRegistry,
    g1: ToolRegistry,
    r0: Records,
    r1: Records,
    at: Moment,
    r: Result<ToolData, TacitusError>,
    i: int,
)
    requires
        tool_ran(call, allow, g0, g1, r0, r1, at, r),
        0 <= i < tool_table().len(),
        tool_table()[i].name == call_name(call),
        !tool_table()[i].writes,
    ensures
        r1 == r0,
{
    if call_writes(call) {
        lemma_write_names(call, i);
    }
}

/// A registry whose writer is read-only changes nothing, whatever tool is called:
/// no note, no version, no audit entry, no memory and no template.
pub proof fn law_read_only_registry_keeps_the_vault(
    call: ToolCall,
    allow: Option<Seq<Seq<char>>>,
    g0: ToolRegistry,
    g1: ToolRegistry,
    r0: Records,
    r1: Records,
    at: Moment,
    r: Result<ToolData, TacitusError>,
)
    requires
        tool_ran(call, allow, g0, g1, r0, r1, at, r),
        g0.writer.scope == PermissionScope::ReadOnly,
    ensures
        r1 == r0,
        g1.writer.scope == PermissionScope::ReadOnly,
{
}

proof fn lemma_template_denied(
    a: CreateFromTemplateArgs,
    g0: ToolRegistry,
    g1: ToolRegistry,
    r0: Records,
    r1: Records,
    at: Moment,
    r: Result<ToolData, TacitusError>,
    w0: ToolRegistry,
    w1: ToolRegistry,
    s1: Records,
    done: ToolData,
)
    requires
        tool_ran(ToolCall::CreateFromTemplate(a), None, g0, g1, r0, r1, at, r),
        g0.writer.scope == PermissionScope::ReadOnly,
        tool_ran(ToolCall::CreateFromTemplate(a), None, w0, w1, r0, s1, at, Ok(done)),
        w0.writer.scope == PermissionScope::ReadWrite,
    ensures
        r matches Err(e) && e@ == read_only_error(),
{
    let e = var_entries(a.vars);
    let raw = template_of(r0.templates@, a.template@)->Ok_0;
    let id = a.note_id@;
    let denied = match r {
        Ok(d) => Ok((d->Created_0, d->Created_1)),
        Err(e) => Err(e),
    };
    let made = Ok::<(CommitResult, String), TacitusError>((done->Created_0, done->Created_1));
    let one = choose|vars: Map<Seq<char>, String>|
        holds_vars(vars, e, e.len() as int) && #[trigger] filled_in(
            raw,
            id,
            vars,
            g0.writer,
            g1.writer,
            r0,
            r1,
            at,
            denied,
        );
    let other = choose|vars: Map<Seq<char>, String>|
        holds_vars(vars, e, e.len() as int) && #[trigger] filled_in(
            raw,
            id,
            vars,
            w0.writer,
            w1.writer,
            r0,
            s1,
            at,
            made,
        );
    assert(filled_in_with(raw, id, e, g0.writer, g1.writer, r0, r1, at, denied));
    assert(filled_in_with(raw, id, e, w0.writer, w1.writer, r0, s1, at, made));
    lemma_same_rendering(raw, one, other, at.clock@);
}

/// A call of a writing tool that succeeds in a read-write session is denied in a
/// read-only one.
pub proof fn law_read_only_writes_are_denied(
    call: ToolCall,
    allow: Option<Seq<Seq<char>>>,
    g0: ToolRegistry,
    g1: ToolRegistry,
    r0: Records,
    r1: Records,
    at: Moment,
    r: Result<ToolData, TacitusError>,
    w0: ToolRegistry,
    w1: ToolRegistry,
    s1: Records,
    done: ToolData,
)
    requires
        call_writes(call),
        tool_ran(call, allow, g0, g1, r0, r1, at, r),
        g0.writer.scope == PermissionScope::ReadOnly,
        tool_ran(call, allow, w0, w1, r0, s1, at, Ok(done)),
        w0.writer.scope == PermissionScope::ReadWrite,
        w0.writer.pending == g0.writer.pending,
    ensures
        r matches Err(e) && e@ == read_only_error(),
        r1 == r0,
{
    match call {
        ToolCall::Remember(_) => {
            assert(r matches Err(e) && e@ == read_only_error());
        },
        ToolCall::Forget(_) => {
            assert(r matches Err(e) && e@ == read_only_error());
        },
        ToolCall::CommitChanges(_) => {
            assert(r matches Err(e) && e@ == read_only_error());
        },
        ToolCall::Revert(_) => {
            assert(r matches Err(e) && e@ == read_only_error());
        },
        ToolCall::CreateNote(_) => {
            assert(r matches Err(e) && e@ == read_only_error());
        },
        ToolCall::UpdateNote(_) => {
            assert(r matches Err(e) && e@ == read_only_error());
        },
        ToolCall::Link(_) => {
            assert(r matches Err(e) && e@ == read_only_error());
        },
        ToolCall::Tag(_) => {
            assert(r matches Err(e) && e@ == read_only_error());
        },
        ToolCall::CreateFromTemplate(a) => {
            lemma_template_denied(a, g0, g1, r0, r1, at, r, w0, w1, s1, done);
        },
        ToolCall::ToggleTask(_) => {
            assert(r matches Err(e) && e@ == read_only_error());
        },
        ToolCall::RenameNote(_) => {
            assert(r matches Err(e) && e@ == read_only_error());
        },
        ToolCall::DeleteNote(_) => {
            assert(r matches Err(e) && e@ == read_only_error());
        },
        _ => {},
    }
}

/// Every write is audited: whatever tool is called, the vault is as it was, or
/// the audit log has one entry more, which names every note whose file is
/// another. And whatever tool is called, an index in step with the files stays
/// so, where every note is named by the key of its file.
pub proof fn law_every_write_is_audited(
    call: ToolCall,
    allow: Option<Seq<Seq<char>>>,
    g0: ToolRegistry,
    g1: ToolRegistry,
    r0: Records,
    r1: Records,
    at: Moment,
    r: Result<ToolData, TacitusError>,
)
    requires
        tool_ran(call, allow, g0, g1, r0, r1, at, r),
    ensures
        audited(r0.vault, r1.vault),
        in_step(r0.vault) && (r1.vault == r0.vault || by_key(last_named(r1.vault))) ==> in_step(
            r1.vault,
        ),
{
    let v0 = r0.vault;
    let v1 = r1.vault;
    if v1 != v0 {
        if exists|ds: Seq<DiffView>, entry: AuditView, id: Seq<char>|
            commit_made(v0, v1, ds, entry, id) {
            let (ds, entry, id) = choose|ds: Seq<DiffView>, entry: AuditView, id: Seq<char>|
                commit_made(v0, v1, ds, entry, id);
            law_commits_are_audited(v0, v1, ds, entry, id);
        } else {
            let a = call->Revert_0;
            let w = g0.writer;
            law_reverts_are_audited(
                v0,
                v1,
                v0.history@[a.version_id@]@.before,
                revert_entry(a.version_id@, at.now@, w.scope, opt_text(w.origin)),
            );
        }
    }
}

/// The record of a version stands: whatever tool is called, it is as it was, unless
/// the call made a version of the same id.
pub proof fn law_versions_stand(
    call: ToolCall,
    allow: Option<Seq<Seq<char>>>,
    g0: ToolRegistry,
    g1: ToolRegistry,
    r0: Records,
    r1: Records,
    at: Moment,
    r: Result<ToolData, TacitusError>,
    version: Seq<char>,
)
    requires
        tool_ran(call, allow, g0, g1, r0, r1, at, r),
        r0.vault.history@.contains_key(version),
    ensures
        r1.vault.history@.contains_key(version),
        r1.vault.history@[version] == r0.vault.history@[version] || audit_view(
            r1.vault.audit@,
        ).last().version_id == version,
{
    let v0 = r0.vault;
    let v1 = r1.vault;
    if v1 != v0 {
        if exists|ds: Seq<DiffView>, entry: AuditView, id: Seq<char>|
            commit_made(v0, v1, ds, entry, id) {
            let (ds, entry, id) = choose|ds: Seq<DiffView>, entry: AuditView, id: Seq<char>|
                commit_made(v0, v1, ds, entry, id);
            let made = entry.version_id;
            if made != version {
                assert(v0.history@.remove(made).contains_key(version));
                assert(v1.history@.remove(made).contains_key(version));
                assert(v1.history@.remove(made)[version] == v0.history@.remove(made)[version]);
            }
        }
    }
}

/// Every memory is in the file of its own id.
pub open spec fn filed_by_id(m: StrMap<Option<Memory>>) -> bool {
    forall|k: Seq<char>| #[trigger]
        m@.contains_key(k) ==> (m@[k] matches Some(x) ==> k == memory_file(x@.id))
}

/// Whatever tool is called, memories that are in the files of their ids stay so.
pub proof fn law_memories_stay_filed_by_id(
    call: ToolCall,
    allow: Option<Seq<Seq<char>>>,
    g0: ToolRegistry,
    g1: ToolRegistry,
    r0: Records,
    r1: Records,
    at: Moment,
    r: Result<ToolData, TacitusError>,
)
    requires
        tool_ran(call, allow, g0, g1, r0, r1, at, r),
        filed_by_id(r0.memories),
    ensures
        filed_by_id(r1.memories),
{
    if let ToolCall::Remember(a) = call {
        if let Ok(m) = remembering(g0.writer.scope, a, at.now@) {
            let file = memory_file(m.id);
            assert forall|k: Seq<char>| #[trigger] r1.memories@.contains_key(k) implies (
            r1.memories@[k] matches Some(x) ==> k == memory_file(x@.id)) by {
                if k != file {
                    assert(r1.memories@.remove(file).contains_key(k));
                    assert(r0.memories@.remove(file).contains_key(k));
                    assert(r1.memories@.remove(file)[k] == r0.memories@.remove(file)[k]);
                }
            }
        }
    }
}

proof fn lemma_memories_from(
    m: Map<Seq<char>, Option<Memory>>,
    names: Seq<Seq<char>>,
    i: int,
    x: MemoryView,
)
    requires
        0 <= i,
    ensures
        memories_from(m, names, i).contains(x) <==> exists|k: int|
            i <= k < names.len() && (m[#[trigger] names[k]] matches Some(y) && y@ == x),
    decreases names.len() - i,
{
    if i < names.len() {
        lemma_memories_from(m, names, i + 1, x);
        let rest = memories_from(m, names, i + 1);
        let all = memories_from(m, names, i);
        if let Some(y) = m[names[i]] {
            assert(all == seq![y@] + rest);
            assert(all.contains(x) <==> y@ == x || rest.contains(x)) by {
                if rest.contains(x) {
                    let a = choose|a: int| 0 <= a < rest.len() && rest[a] == x;
                    assert(all[a + 1] == x);
                }
                if y@ == x {
                    assert(all[0] == x);
                }
            }
        }
        if exists|k: int|
            i <= k < names.len() && (m[#[trigger] names[k]] matches Some(y) && y@ == x) {
            let k = choose|k: int|
                i <= k < names.len() && (m[#[trigger] names[k]] matches Some(y) && y@ == x);
            if k > i {
                assert(i + 1 <= k && (m[names[k]] matches Some(y) && y@ == x));
            }
        }
        if rest.contains(x) {
            let k = choose|k: int|
                i + 1 <= k < names.len() && (m[#[trigger] names[k]] matches Some(y) && y@ == x);
            assert(i <= k && (m[names[k]] matches Some(y) && y@ == x));
        }
    }
}

/// What is loaded is what was saved: a memory is listed where some file holds it,
/// and files that are no memory are passed over.
pub proof fn law_saved_memories_are_listed(m: StrMap<Option<Memory>>, x: MemoryView)
    ensures
        memory_list(m).contains(x) <==> exists|name: Seq<char>| #[trigger]
            m@.contains_key(name) && (m@[name] matches Some(y) && y@ == x),
{
    let names = m.keys();
    lemma_keys(m);
    lemma_memories_from(m@, names, 0, x);
    if memory_list(m).contains(x) {
        let k = choose|k: int|
            0 <= k < names.len() && (m@[#[trigger] names[k]] matches Some(y) && y@ == x);
        assert(names.contains(names[k]));
        assert(m@.contains_key(names[k]));
    }
    if exists|name: Seq<char>| #[trigger]
        m@.contains_key(name) && (m@[name] matches Some(y) && y@ == x) {
        let name = choose|name: Seq<char>| #[trigger]
            m@.contains_key(name) && (m@[name] matches Some(y) && y@ == x);
        let k = choose|k: int| 0 <= k < names.len() && names[k] == name;
        assert(m@[names[k]] matches Some(y) && y@ == x);
    }
}

/// The memories come in the order of the names of their files.
pub open spec fn in_file_order(ms: Seq<MemoryView>) -> bool {
    forall|i: int, j: int|
        0 <= i < j < ms.len() ==> before(
            memory_file((#[trigger] ms[i]).id),
            memory_file((#[trigger] ms[j]).id),
        )
}

proof fn lemma_in_file_order(
    m: Map<Seq<char>, Option<Memory>>,
    names: Seq<Seq<char>>,
    i: int,
)
    requires
        0 <= i,
        ascending(names),
        forall|k: int|
            0 <= k < names.len() ==> (m[#[trigger] names[k]] matches Some(x) ==> names[k]
                == memory_file(x@.id)),
    ensures
        in_file_order(memories_from(m, names, i)),
    decreases names.len() - i,
{
    if i < names.len() {
        lemma_in_file_order(m, names, i + 1);
        let rest = memories_from(m, names, i + 1);
        let all = memories_from(m, names, i);
        if let Some(y) = m[names[i]] {
            assert(all == seq![y@] + rest);
            assert forall|a: int, b: int| 0 <= a < b < all.len() implies before(
                memory_file((#[trigger] all[a]).id),
                memory_file((#[trigger] all[b]).id),
            ) by {
                assert(all[b] == rest[b - 1]);
                if a == 0 {
                    lemma_memories_from(m, names, i + 1, all[b]);
                    assert(rest.contains(all[b]));
                    let k = choose|k: int|
                        i + 1 <= k < names.len() && (m[#[trigger] names[k]] matches Some(z) && z@
                            == all[b]);
                    assert(before(names[i], names[k]));
                } else {
                    assert(all[a] == rest[a - 1]);
                }
            }
        }
    }
}

/// Memories in the files of their ids load in the order of the file names, one
/// for each id.
pub proof fn law_each_id_is_loaded_once(m: StrMap<Option<Memory>>)
    requires
        filed_by_id(m),
        ascending(m.keys()),
    ensures
        in_file_order(memory_list(m)),
        forall|i: int, j: int|
            0 <= i < j < memory_list(m).len() ==> (#[trigger] memory_list(m)[i]).id != (
            #[trigger] memory_list(m)[j]).id,
{
    let names = m.keys();
    lemma_keys(m);
    assert forall|k: int| 0 <= k < names.len() implies (m@[#[trigger] names[k]] matches Some(
        x,
    ) ==> names[k] == memory_file(x@.id)) by {
        assert(names.contains(names[k]));
        assert(m@.contains_key(names[k]));
    }
    lemma_in_file_order(m@, names, 0);
    let ms = memory_list(m);
    assert forall|i: int, j: int| 0 <= i < j < ms.len() implies (#[trigger] ms[i]).id != (
    #[trigger] ms[j]).id by {
        lemma_before_asym(memory_file(ms[i].id), memory_file(ms[j].id));
    }
}

/// The last memory that was saved under an id is the one that is loaded, and what
/// other files hold is loaded as before.
pub proof fn law_the_last_save_counts(
    scope: PermissionScope,
    a: RememberArgs,
    now: Seq<char>,
    r0: Records,
    r1: Records,
    id: String,
    name: Seq<char>,
)
    requires
        remember_ran(scope, a, now, r0, r1, Ok(id)),
    ensures
        memory_list(r1.memories).contains(remembering(scope, a, now)->Ok_0),
        name != memory_file(id@) && r0.memories@.contains_key(name) ==> r1.memories@.contains_key(
            name,
        ) && r1.memories@[name] == r0.memories@[name],
{
    let m = remembering(scope, a, now)->Ok_0;
    let file = memory_file(m.id);
    law_saved_memories_are_listed(r1.memories, m);
    assert(r1.memories@.contains_key(file) && (r1.memories@[file] matches Some(y) && y@ == m));
    if name != file && r0.memories@.contains_key(name) {
        assert(r0.memories@.remove(file).contains_key(name));
        assert(r1.memories@.remove(file).contains_key(name));
        assert(r1.memories@.remove(file)[name] == r0.memories@.remove(file)[name]);
    }
}

/// What was remembered is recalled: by any query that shares a term with it,
/// under its type or any, where the budget is large enough for all that is
/// relevant.
pub proof fn law_what_was_remembered_is_recalled(
    scope: PermissionScope,
    a: RememberArgs,
    now: Seq<char>,
    r0: Records,
    r1: Records,
    id: String,
    q: RecallQuery,
    out: RecallResult,
)
    requires
        remember_ran(scope, a, now, r0, r1, Ok(id)),
        recall_ran(q, r1, out),
        relevant(remembering(scope, a, now)->Ok_0, q.query@, wanted_type(q.memory_type)),
        total(
            memory_costs(
                ranked_relevant(memory_list(r1.memories), q.query@, wanted_type(q.memory_type)),
            ),
        ) <= budget_of(q.token_budget),
    ensures
        recall_items_view(out.items@).contains(
            recalled(remembering(scope, a, now)->Ok_0, q.query@),
        ),
{
    let m = remembering(scope, a, now)->Ok_0;
    law_the_last_save_counts(scope, a, now, r0, r1, id, seq![]);
    law_recall_finds_what_is_relevant(
        memory_list(r1.memories),
        q.query@,
        wanted_type(q.memory_type),
        q.token_budget,
        m,
    );
}

/// What was forgotten is not recalled, whatever the query.
pub proof fn law_what_was_forgotten_is_not_recalled(
    scope: PermissionScope,
    a: ForgetArgs,
    r0: Records,
    r1: Records,
    gone: bool,
    q: RecallQuery,
    out: RecallResult,
)
    requires
        filed_by_id(r0.memories),
        forget_ran(scope, a, r0, r1, Ok(gone)),
        recall_ran(q, r1, out),
    ensures
        forall|k: int|
            0 <= k < out.items@.len() ==> (#[trigger] out.items@[k])@.memory.id != a.memory_id@,
{
    let ms = memory_list(r1.memories);
    let wanted = wanted_type(q.memory_type);
    let items = recall_items_view(out.items@);
    let ranked = ranked_relevant(ms, q.query@, wanted);
    let picked = fit(memory_costs(ranked), budget_of(q.token_budget), 0, 0);
    assert(items == recall_items(ms, q.query@, wanted, q.token_budget));
    assert(items == picked.map_values(|k: int| recalled(ranked[k], q.query@)));
    assert forall|k: int| 0 <= k < out.items@.len() implies (
    #[trigger] out.items@[k])@.memory.id != a.memory_id@ by {
        let m = out.items@[k]@.memory;
        assert(items[k] == out.items@[k]@);
        assert(items[k] == recalled(ranked[picked[k]], q.query@));
        law_recall_finds_what_is_relevant(ms, q.query@, wanted, q.token_budget, m);
        law_saved_memories_are_listed(r1.memories, m);
        let name = choose|name: Seq<char>| #[trigger]
            r1.memories@.contains_key(name) && (r1.memories@[name] matches Some(y) && y@ == m);
        assert(r0.memories@.contains_key(name));
    }
}

/// What a look-up finds has the name, and where it finds nothing no tool has it.
pub proof fn lemma_find_tool(t: Seq<DescriptorView>, name: Seq<char>, i: int)
    requires
        0 <= i,
    ensures
        match find_tool_from(t, name, i) {
            Some(k) => i <= k < t.len() && t[k].name == name,
            None => forall|k: int| i <= k < t.len() ==> (#[trigger] t[k]).name != name,
        },
    decreases t.len() - i,
{
    if i < t.len() && t[i].name != name {
        lemma_find_tool(t, name, i + 1);
    }
}

/// A tool that an allowlist does not name is refused, whatever its arguments
/// are, and so is one that is not in the table.
pub proof fn law_only_allowed_tools_run(
    table: Seq<DescriptorView>,
    tool: Seq<char>,
    allow: Option<Seq<Seq<char>>>,
    call: Result<ToolCall, String>,
)
    ensures
        call_refused(table, tool, allow, call) is None ==> names_of(table).contains(tool)
            && is_allowed(allow, tool) && call is Ok && call_name(call->Ok_0) == tool,
        names_of(table).contains(tool) && !is_allowed(allow, tool) ==> call_refused(
            table,
            tool,
            allow,
            call,
        ) == Some(
            error(
                "PERMISSION_DENIED"@,
                "Tool "@ + debug_text(tool) + " is not in this plugin's allowlist."@,
                "Declare it under [permissions].tools in tacitus-plugin.toml."@,
            ),
        ),
{
    lemma_find_tool(table, tool, 0);
    match find_tool(table, tool) {
        Some(k) => {
            assert(names_of(table)[k] == tool);
        },
        None => {
            if names_of(table).contains(tool) {
                let k = choose|k: int| 0 <= k < names_of(table).len() && names_of(table)[k] == tool;
                assert(table[k].name == tool);
            }
        },
    }
}

/// A tool is visible under an allowlist where the table has it and the
/// allowlist names it.
proof fn lemma_visible(t: Seq<DescriptorView>, allow: Option<Seq<Seq<char>>>, i: int, d: DescriptorView)
    requires
        0 <= i,
    ensures
        visible_from(t, allow, i).contains(d) <==> is_allowed(allow, d.name) && exists|k: int|
            i <= k < t.len() && #[trigger] t[k] == d,
    decreases t.len() - i,
{
    let all = visible_from(t, allow, i);
    if i < t.len() {
        let rest = visible_from(t, allow, i + 1);
        lemma_visible(t, allow, i + 1, d);
        if is_allowed(allow, t[i].name) {
            assert(all == seq![t[i]] + rest);
            if rest.contains(d) {
                let k = choose|k: int| 0 <= k < rest.len() && rest[k] == d;
                assert(all[k + 1] == d);
            }
            if t[i] == d {
                assert(all[0] == d);
            }
            if all.contains(d) {
                let k = choose|k: int| 0 <= k < all.len() && all[k] == d;
                if k > 0 {
                    assert(rest[k - 1] == d);
                } else {
                    assert(t[i] == d);
                }
            }
        }
        if exists|k: int| i <= k < t.len() && #[trigger] t[k] == d {
            let k = choose|k: int| i <= k < t.len() && #[trigger] t[k] == d;
            if k > i {
                assert(i + 1 <= k < t.len() && t[k] == d);
            }
        }
    }
}

/// The capabilities name exactly the tools that may be called, in ascending
/// order of their names.
pub proof fn law_capabilities_are_the_allowed_tools(
    t: Seq<DescriptorView>,
    allow: Option<Seq<Seq<char>>>,
    d: DescriptorView,
)
    ensures
        ({
            let shown = sorted_tools(visible_from(t, allow, 0));
            &&& shown.contains(d) <==> t.contains(d) && is_allowed(allow, d.name)
            &&& forall|a: int, b: int|
                0 <= a < b < shown.len() ==> !before(
                    (#[trigger] shown[b]).name,
                    (#[trigger] shown[a]).name,
                )
        }),
{
    let v = visible_from(t, allow, 0);
    let less = by_tool_name(v);
    let o = stable_order(v.len(), less);
    let shown = sorted_tools(v);
    assert(weak_order(v.len(), less)) by {
        assert forall|i: int, j: int| 0 <= i < v.len() && 0 <= j < v.len() && #[trigger] less(
            i,
            j,
        ) implies !less(j, i) by {
            lemma_before_asym(v[i].name, v[j].name);
        }
        assert forall|i: int, j: int, k: int|
            0 <= i < v.len() && 0 <= j < v.len() && 0 <= k < v.len() && #[trigger] less(
                i,
                k,
            ) implies #[trigger] less(i, j) || less(j, k) by {
            if before(v[j].name, v[i].name) {
                lemma_before_trans(v[j].name, v[i].name, v[k].name);
            } else if !before(v[i].name, v[j].name) {
                lemma_before_total(v[i].name, v[j].name);
            }
        }
    }
    law_stable_order(v.len(), less);
    assert forall|a: int, b: int| 0 <= a < b < shown.len() implies !before(
        (#[trigger] shown[b]).name,
        (#[trigger] shown[a]).name,
    ) by {
        assert(o[a] != o[b]);
        assert(!less(o[b], o[a]));
    }
    lemma_visible(t, allow, 0, d);
    if shown.contains(d) {
        let a = choose|a: int| 0 <= a < shown.len() && shown[a] == d;
        assert(v[o[a]] == d);
        assert(v.contains(d));
    }
    if t.contains(d) && is_allowed(allow, d.name) {
        let k = choose|k: int| 0 <= k < t.len() && t[k] == d;
        assert(t[k] == d);
        assert(v.contains(d));
        let p = choose|p: int| 0 <= p < v.len() && v[p] == d;
        lemma_stable_order_has(v.len(), less, p);
        let a = choose|a: int| 0 <= a < o.len() && o[a] == p;
        assert(shown[a] == d);
    }
}

} // verus!

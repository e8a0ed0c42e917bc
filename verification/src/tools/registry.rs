//! The tool layer: one registry, one set of argument shapes and one envelope
//! for all who call tools on a vault. A call always gets an answer: unknown
//! tools, denied tools and malformed arguments are data.
use crate::error::{error, ErrorView, TacitusError};
use crate::memory::conflict::{conflicts_of, conflicts_view};
use crate::memory::recall::{
    ranked_relevant, recall, recall_items, recall_items_view, RecallArgs, RecallResult,
};
use crate::memory::remember::{
    remember_at, remembered, ProvenanceInput, ProvenanceInputView, RememberInput,
    RememberInputView,
};
use crate::memory::types::{memories_view, Memory, MemoryType, MemoryView};
use crate::order::{before, positions, sort_positions, stable_order, str_before};
use crate::strmap::StrMap;
use crate::text::{
    chars_of, copy_opt, debug_text, has_string, join, join_strings, opt_text, quoted, str_eq,
    string_range, texts,
};
use crate::tools::args::{
    AuditArgs, ChangeOpArg, CommitArgs, CreateFromTemplateArgs, CreateNoteArgs, DeleteNoteArgs,
    ForgetArgs, GetNoteArgs, GetVersionArgs, GraphArgs, LinkArgs, ListTasksArgs, PropFilterArg,
    PropertiesArgs, ProposeArgs, RecallQuery, RememberArgs, RenameNoteArgs, RevertArgs,
    SearchToolArgs, SuggestLinksArgs, TagArgs, ToggleTaskArgs, UpdateNoteArgs,
};
use crate::tools::table::{
    descriptors_view, find_tool, names_of, tool_descriptors, tool_names, tool_position, tool_table,
    DescriptorView, ToolDescriptor,
};
use crate::vault::get::{get_note, no_such_note, note_shown, GetNoteResult, NoteFormat};
use crate::vault::graph::{graph_answer, graph_query, nodes_view, GraphNode, Relation};
use crate::vault::index::{find, note_at};
use crate::vault::json::{
    json_entries, lemma_json_model, yaml_from, yaml_of_json, Json, JsonView,
};
use crate::vault::parse::{no_frontmatter, parse_note, parsed};
use crate::vault::properties::{
    filters_view, properties_query, query_rows, rows_view, select_view, PropFilter, PropFilterView,
    PropOp, PropertiesQueryArgs, PropertiesRow, QueryView,
};
use crate::vault::rename::{rename_note_ops, rename_ops};
use crate::vault::search::{hits_view, search_hits, search_notes, SearchArgs, SearchHit};
use crate::vault::suggest::{
    no_source, suggest_links, suggestions, suggestions_view, LinkSuggestion, SuggestArgs,
};
use crate::vault::tasks::{
    list_tasks, listed, tasks_view, toggled, toggled_content, Task, TaskFilter, TaskFilterView,
};
use crate::vault::template::{
    is_bare_name, list_templates, render_at, rendered, template_list, templates_view, Clock,
    Template, TemplateStore,
};
use crate::vault::types::{Note, NoteView};
use crate::vault::value::{lemma_model, Yaml, YamlView};
use crate::vault::write::{opt_yaml, ops_view, ChangeOp, Changeset, OpView, PermissionScope};
use crate::vault::writer::{
    apply_made, audit_view, changes_view, commit_done, edit_done, link_ops, newest, no_record,
    propose_made, read_only_error, revert_done, session_after, tag_ops, version_changes,
    AuditEntry, CommitResult, NoteChangeView, NoteWriter, Proposal, RevertResult, Vault,
};
use vstd::prelude::*;
use vstd::string::*;

verus! {

// ---------------------------------------------------------------------------
// Envelopes
// ---------------------------------------------------------------------------

/// The envelope of a result.
pub open spec fn ok_object(data: JsonView) -> JsonView {
    JsonView::Object(seq![("ok"@, JsonView::Bool(true)), ("data"@, data)])
}

/// The envelope of an error.
pub open spec fn err_object(e: ErrorView) -> JsonView {
    JsonView::Object(
        seq![
            ("ok"@, JsonView::Bool(false)),
            (
                "error"@,
                JsonView::Object(
                    seq![
                        ("code"@, JsonView::Text(e.code)),
                        ("reason"@, JsonView::Text(e.reason)),
                        ("suggestion"@, JsonView::Text(e.suggestion)),
                    ],
                ),
            ),
        ],
    )
}

/// The envelope `{ ok: true, data }` that every tool answers with.
pub fn ok_envelope(data: Json) -> (r: Json)
    ensures
        r@ == ok_object(data@),
{
    let ghost dv = data@;
    let mut e: Vec<(String, Json)> = Vec::new();
    e.push(("ok".to_owned(), Json::Bool(true)));
    e.push(("data".to_owned(), data));
    assert(json_entries(e@) =~= seq![("ok"@, JsonView::Bool(true)), ("data"@, dv)]);
    let r = Json::Object(e);
    proof {
        lemma_json_model(r);
    }
    r
}

/// The envelope `{ ok: false, error: { code, reason, suggestion } }`.
pub fn err_envelope(e: &TacitusError) -> (r: Json)
    ensures
        r@ == err_object(e@),
{
    let mut inner: Vec<(String, Json)> = Vec::new();
    inner.push(("code".to_owned(), Json::Text(e.code.clone())));
    inner.push(("reason".to_owned(), Json::Text(e.reason.clone())));
    inner.push(("suggestion".to_owned(), Json::Text(e.suggestion.clone())));
    assert(json_entries(inner@) =~= seq![
        ("code"@, JsonView::Text(e@.code)),
        ("reason"@, JsonView::Text(e@.reason)),
        ("suggestion"@, JsonView::Text(e@.suggestion)),
    ]);
    let error = Json::Object(inner);
    proof {
        lemma_json_model(error);
    }
    let ghost ev = error@;
    let mut out: Vec<(String, Json)> = Vec::new();
    out.push(("ok".to_owned(), Json::Bool(false)));
    out.push(("error".to_owned(), error));
    assert(json_entries(out@) =~= seq![("ok"@, JsonView::Bool(false)), ("error"@, ev)]);
    let r = Json::Object(out);
    proof {
        lemma_json_model(r);
    }
    r
}

// ---------------------------------------------------------------------------
// Calls and answers
// ---------------------------------------------------------------------------

/// All that the tools work on.
pub struct Records {
    pub vault: Vault,
    /// The memories by the names of their files; `None` where a file is no memory.
    pub memories: StrMap<Option<Memory>>,
    /// The files of the template directory by name.
    pub templates: StrMap<String>,
}

/// The time at which a tool runs.
pub struct Moment {
    pub millis: u64,
    pub now: String,
    pub clock: Clock,
}

/// A call of a tool.
pub enum ToolCall {
    Remember(RememberArgs),
    Recall(RecallQuery),
    Forget(ForgetArgs),
    Search(SearchToolArgs),
    GetNote(GetNoteArgs),
    GraphQuery(GraphArgs),
    SuggestLinks(SuggestLinksArgs),
    ListNotes,
    ProposeChanges(ProposeArgs),
    CommitChanges(CommitArgs),
    Revert(RevertArgs),
    CreateNote(CreateNoteArgs),
    UpdateNote(UpdateNoteArgs),
    Link(LinkArgs),
    Tag(TagArgs),
    AuditLog(AuditArgs),
    PropertiesQuery(PropertiesArgs),
    ListTemplates,
    CreateFromTemplate(CreateFromTemplateArgs),
    ListTasks(ListTasksArgs),
    ToggleTask(ToggleTaskArgs),
    RenameNote(RenameNoteArgs),
    DeleteNote(DeleteNoteArgs),
    GetVersion(GetVersionArgs),
    Capabilities,
}

/// The name of the tool that is called.
pub open spec fn call_name(call: ToolCall) -> Seq<char> {
    match call {
        ToolCall::Remember(_) => "remember"@,
        ToolCall::Recall(_) => "recall"@,
        ToolCall::Forget(_) => "forget"@,
        ToolCall::Search(_) => "search"@,
        ToolCall::GetNote(_) => "get_note"@,
        ToolCall::GraphQuery(_) => "graph_query"@,
        ToolCall::SuggestLinks(_) => "suggest_links"@,
        ToolCall::ListNotes => "list_notes"@,
        ToolCall::ProposeChanges(_) => "propose_changes"@,
        ToolCall::CommitChanges(_) => "commit_changes"@,
        ToolCall::Revert(_) => "revert"@,
        ToolCall::CreateNote(_) => "create_note"@,
        ToolCall::UpdateNote(_) => "update_note"@,
        ToolCall::Link(_) => "link"@,
        ToolCall::Tag(_) => "tag"@,
        ToolCall::AuditLog(_) => "audit_log"@,
        ToolCall::PropertiesQuery(_) => "properties_query"@,
        ToolCall::ListTemplates => "list_templates"@,
        ToolCall::CreateFromTemplate(_) => "create_from_template"@,
        ToolCall::ListTasks(_) => "list_tasks"@,
        ToolCall::ToggleTask(_) => "toggle_task"@,
        ToolCall::RenameNote(_) => "rename_note"@,
        ToolCall::DeleteNote(_) => "delete_note"@,
        ToolCall::GetVersion(_) => "get_version"@,
        ToolCall::Capabilities => "capabilities"@,
    }
}

impl ToolCall {
    /// The name of the tool that is called.
    pub fn name(&self) -> (r: &'static str)
        ensures
            r@ == call_name(*self),
    {
        match self {
            ToolCall::Remember(_) => "remember",
            ToolCall::Recall(_) => "recall",
            ToolCall::Forget(_) => "forget",
            ToolCall::Search(_) => "search",
            ToolCall::GetNote(_) => "get_note",
            ToolCall::GraphQuery(_) => "graph_query",
            ToolCall::SuggestLinks(_) => "suggest_links",
            ToolCall::ListNotes => "list_notes",
            ToolCall::ProposeChanges(_) => "propose_changes",
            ToolCall::CommitChanges(_) => "commit_changes",
            ToolCall::Revert(_) => "revert",
            ToolCall::CreateNote(_) => "create_note",
            ToolCall::UpdateNote(_) => "update_note",
            ToolCall::Link(_) => "link",
            ToolCall::Tag(_) => "tag",
            ToolCall::AuditLog(_) => "audit_log",
            ToolCall::PropertiesQuery(_) => "properties_query",
            ToolCall::ListTemplates => "list_templates",
            ToolCall::CreateFromTemplate(_) => "create_from_template",
            ToolCall::ListTasks(_) => "list_tasks",
            ToolCall::ToggleTask(_) => "toggle_task",
            ToolCall::RenameNote(_) => "rename_note",
            ToolCall::DeleteNote(_) => "delete_note",
            ToolCall::GetVersion(_) => "get_version",
            ToolCall::Capabilities => "capabilities",
        }
    }
}

/// The answer of graph_query.
#[derive(Debug)]
pub struct GraphAnswer {
    pub from: String,
    pub relation: String,
    pub nodes: Vec<GraphNode>,
}

/// The answer of suggest_links.
#[derive(Debug)]
pub struct SuggestAnswer {
    pub note_id: String,
    pub suggestions: Vec<LinkSuggestion>,
}

/// One note of list_notes.
#[derive(Debug)]
pub struct NoteRef {
    pub note_id: String,
    pub title: String,
    pub path: String,
}

/// The answer of rename_note.
#[derive(Debug)]
pub struct RenameAnswer {
    pub version_id: String,
    pub from: String,
    pub to: String,
    pub links_updated_in: usize,
}

/// A content cut to a length.
#[derive(Debug)]
pub struct Clip {
    pub content: String,
    pub truncated: bool,
}

/// What a version did to one note, with its contents where they are asked for.
#[derive(Debug)]
pub struct ClippedChange {
    pub note_id: String,
    pub op: String,
    pub before: Option<Clip>,
    pub after: Option<Clip>,
}

/// The answer of get_version.
#[derive(Debug)]
pub struct VersionAnswer {
    pub version_id: String,
    pub change_id: String,
    pub notes: Vec<ClippedChange>,
}

/// The answer of capabilities.
#[derive(Debug)]
pub struct CapabilitiesAnswer {
    pub server: String,
    pub version: String,
    pub tools: Vec<ToolDescriptor>,
    pub scope: PermissionScope,
}

/// What a tool answers.
pub enum ToolData {
    /// The id of the memory that was stored.
    Remembered(String),
    Recalled(RecallResult),
    Removed(bool),
    Hits(Vec<SearchHit>),
    Note(GetNoteResult),
    Graph(GraphAnswer),
    Suggestions(SuggestAnswer),
    Notes(Vec<NoteRef>),
    Proposed(Proposal),
    Committed(CommitResult),
    Reverted(RevertResult),
    Audit(Vec<AuditEntry>),
    Rows(Vec<PropertiesRow>),
    Templates(Vec<Template>),
    /// A note made from a template: its version and its id.
    Created(CommitResult, String),
    Tasks(Vec<Task>),
    Renamed(RenameAnswer),
    Version(VersionAnswer),
    Capabilities(CapabilitiesAnswer),
}

// ---------------------------------------------------------------------------
// What each tool does
// ---------------------------------------------------------------------------

pub open spec fn invalid_input(reason: Seq<char>, suggestion: Seq<char>) -> ErrorView {
    error("INVALID_INPUT"@, reason, suggestion)
}

/// Nothing but the vault changes.
pub open spec fn only_vault(r0: Records, r1: Records) -> bool {
    r1.memories == r0.memories && r1.templates == r0.templates
}

/// What a memory is made of.
pub open spec fn memory_input(a: RememberArgs) -> RememberInputView {
    RememberInputView {
        content: a.content@,
        memory_type: a.memory_type@,
        tags: texts(a.tags@),
        key: opt_text(a.key),
        source: match a.source {
            Some(s) => Some(
                ProvenanceInputView {
                    origin: s.origin@,
                    author: s.author@,
                    timestamp: opt_text(s.timestamp),
                },
            ),
            None => None,
        },
        ttl: a.ttl,
    }
}

/// What remembering answers: the memory, or an error. A read-only session
/// remembers nothing.
pub open spec fn remembering(scope: PermissionScope, a: RememberArgs, now: Seq<char>) -> Result<
    MemoryView,
    ErrorView,
> {
    if scope == PermissionScope::ReadOnly {
        Err(read_only_error())
    } else {
        remembered(memory_input(a), now)
    }
}

/// The name of the file of a memory.
pub open spec fn memory_file(id: Seq<char>) -> Seq<char> {
    id + ".md"@
}

/// remember: the memory is stored in the file of its id, or refused without a
/// trace.
pub open spec fn remember_ran(
    scope: PermissionScope,
    a: RememberArgs,
    now: Seq<char>,
    r0: Records,
    r1: Records,
    r: Result<String, TacitusError>,
) -> bool {
    match remembering(scope, a, now) {
        Ok(m) => {
            let file = memory_file(m.id);
            &&& r matches Ok(id) && id@ == m.id
            &&& r1.memories@.contains_key(file)
            &&& r1.memories@[file] matches Some(x) && x@ == m
            &&& r1.memories@.remove(file) == r0.memories@.remove(file)
            &&& r1.vault == r0.vault
            &&& r1.templates == r0.templates
        },
        Err(e) => r matches Err(x) && x@ == e && r1 == r0,
    }
}

/// The memories in the files `names` from `i` on.
pub open spec fn memories_from(
    m: Map<Seq<char>, Option<Memory>>,
    names: Seq<Seq<char>>,
    i: int,
) -> Seq<MemoryView>
    decreases names.len() - i,
{
    if i < 0 || i >= names.len() {
        seq![]
    } else {
        match m[names[i]] {
            Some(x) => seq![x@] + memories_from(m, names, i + 1),
            None => memories_from(m, names, i + 1),
        }
    }
}

/// The memories in the order of the names of their files; a file that is no
/// memory is passed over.
pub open spec fn memory_list(m: StrMap<Option<Memory>>) -> Seq<MemoryView> {
    memories_from(m@, m.keys(), 0)
}

/// The kind of memory that a name asks for; any other name asks for all.
pub open spec fn wanted_type(name: Option<String>) -> Option<MemoryType> {
    match name {
        Some(n) => MemoryType::named(n@),
        None => None,
    }
}

/// recall: the memories that fit, and the contradictions among the relevant.
pub open spec fn recall_ran(a: RecallQuery, rec: Records, r: RecallResult) -> bool {
    let ms = memory_list(rec.memories);
    &&& recall_items_view(r.items@) == recall_items(
        ms,
        a.query@,
        wanted_type(a.memory_type),
        a.token_budget,
    )
    &&& conflicts_view(r.conflicts@) == conflicts_of(
        ranked_relevant(ms, a.query@, wanted_type(a.memory_type)),
    )
}

/// forget: the file of the memory is gone, and the answer says whether it was
/// there. A read-only session forgets nothing.
pub open spec fn forget_ran(
    scope: PermissionScope,
    a: ForgetArgs,
    r0: Records,
    r1: Records,
    r: Result<bool, TacitusError>,
) -> bool {
    let file = memory_file(a.memory_id@);
    if scope == PermissionScope::ReadOnly {
        r matches Err(e) && e@ == read_only_error() && r1 == r0
    } else {
        &&& r matches Ok(found) && found == r0.memories@.contains_key(file)
        &&& r1.memories@ == r0.memories@.remove(file)
        &&& r1.vault == r0.vault
        &&& r1.templates == r0.templates
    }
}

/// The format that a name asks for.
pub open spec fn format_named(name: Option<String>) -> NoteFormat {
    match name {
        Some(n) => if n@ == "frontmatter_only"@ {
            NoteFormat::FrontmatterOnly
        } else if n@ == "full"@ {
            NoteFormat::Full
        } else {
            NoteFormat::Outline
        },
        None => NoteFormat::Outline,
    }
}

/// get_note: what is shown of the note, or that there is none.
pub open spec fn get_note_ran(
    a: GetNoteArgs,
    index: Seq<NoteView>,
    r: Result<GetNoteResult, TacitusError>,
) -> bool {
    match note_at(index, a.note_id@) {
        Some(n) => r matches Ok(g) && g@ == note_shown(n, format_named(a.format), a.max_tokens),
        None => r matches Err(e) && e@ == no_such_note(
            a.note_id@,
            "Use search or list_notes to discover valid note ids."@,
        ),
    }
}

/// The relation that a name stands for.
pub open spec fn relation_named(name: Seq<char>) -> Option<Relation> {
    if name == "links"@ {
        Some(Relation::Links)
    } else if name == "backlinks"@ {
        Some(Relation::Backlinks)
    } else if name == "neighbors"@ {
        Some(Relation::Neighbors)
    } else {
        None
    }
}

/// How deep a query goes.
pub open spec fn depth_of(depth: Option<usize>) -> usize {
    match depth {
        Some(d) => d,
        None => 1,
    }
}

/// graph_query: the notes of a relation.
pub open spec fn graph_ran(
    a: GraphArgs,
    index: Seq<NoteView>,
    r: Result<GraphAnswer, TacitusError>,
) -> bool {
    match relation_named(a.relation@) {
        None => r matches Err(e) && e@ == invalid_input(
            "relation must be links|backlinks|neighbors (got "@ + debug_text(a.relation@) + ")."@,
            "Use a valid relation."@,
        ),
        Some(rel) => match note_at(index, a.from@) {
            None => r matches Err(e) && e@ == no_such_note(
                a.from@,
                "Use list_notes to discover valid note ids."@,
            ),
            Some(_) => r matches Ok(g) && g.from@ == a.from@ && g.relation@ == a.relation@
                && nodes_view(g.nodes@) == graph_answer(index, a.from@, rel, depth_of(a.depth)),
        },
    }
}

/// suggest_links: the suggestions for a note.
pub open spec fn suggest_ran(
    a: SuggestLinksArgs,
    index: Seq<NoteView>,
    r: Result<SuggestAnswer, TacitusError>,
) -> bool {
    match find(index, a.note_id@) {
        None => r matches Err(e) && e@ == no_source(a.note_id@),
        Some(src) => r matches Ok(s) && s.note_id@ == a.note_id@ && suggestions_view(
            s.suggestions@,
        ) == suggestions(index, src, a.ratings@, a.top_k, a.token_budget),
    }
}

/// list_notes: every note.
pub open spec fn notes_listed(v: Seq<NoteRef>, index: Seq<NoteView>) -> bool {
    &&& v.len() == index.len()
    &&& forall|i: int|
        0 <= i < v.len() ==> (#[trigger] v[i]).note_id@ == index[i].id && v[i].title@
            == index[i].title && v[i].path@ == index[i].path
}

/// The frontmatter that a JSON value stands for.
pub open spec fn frontmatter_of(fm: Option<Json>) -> Result<Option<YamlView>, ErrorView> {
    match fm {
        None => Ok(None),
        Some(j) => match yaml_from(j@) {
            Ok(y) => Ok(Some(y)),
            Err(e) => Err(
                invalid_input(
                    "frontmatter must be a plain object ("@ + e + ")."@,
                    "Pass frontmatter as a JSON object of scalar/array values."@,
                ),
            ),
        },
    }
}

/// The operation that an argument stands for.
pub open spec fn op_of(a: ChangeOpArg) -> Result<OpView, ErrorView> {
    match frontmatter_of(a.frontmatter) {
        Err(e) => Err(e),
        Ok(fm) => if a.op@ == "create"@ {
            Ok(
                OpView::Create {
                    note_id: a.note_id@,
                    content: match a.content {
                        Some(c) => c@,
                        None => seq![],
                    },
                    frontmatter: fm,
                },
            )
        } else if a.op@ == "update"@ {
            Ok(
                OpView::Update {
                    note_id: a.note_id@,
                    content: opt_text(a.content),
                    frontmatter: fm,
                },
            )
        } else if a.op@ == "delete"@ {
            Ok(OpView::Delete { note_id: a.note_id@ })
        } else {
            Err(
                invalid_input(
                    "op must be create|update|delete (got "@ + debug_text(a.op@) + ")."@,
                    "Use a valid op."@,
                ),
            )
        },
    }
}

/// The operations of the first `n` arguments, or the first error.
pub open spec fn ops_of(v: Seq<ChangeOpArg>, n: int) -> Result<Seq<OpView>, ErrorView>
    decreases n,
{
    if n <= 0 {
        Ok(seq![])
    } else {
        match ops_of(v, n - 1) {
            Err(e) => Err(e),
            Ok(done) => match op_of(v[n - 1]) {
                Err(e) => Err(e),
                Ok(op) => Ok(done.push(op)),
            },
        }
    }
}

/// propose_changes: a dry run of the operations.
pub open spec fn propose_ran(
    a: ProposeArgs,
    w0: NoteWriter,
    w1: NoteWriter,
    rec: Records,
    r: Result<Proposal, TacitusError>,
) -> bool {
    match ops_of(a.ops@, a.ops@.len() as int) {
        Err(e) => r matches Err(x) && x@ == e && w1 == w0,
        Ok(ops) => proposes(ops, w0, w1, rec, r),
    }
}

/// A dry run of a changeset with the given operations.
pub open spec fn proposes(
    ops: Seq<OpView>,
    w0: NoteWriter,
    w1: NoteWriter,
    rec: Records,
    r: Result<Proposal, TacitusError>,
) -> bool {
    exists|c: Changeset| c@ == ops && #[trigger] propose_made(w0, w1, rec.vault.notes(), c, r)
}

/// The operations of one tool call were applied at once.
pub open spec fn applied_at_once(
    ops: Seq<OpView>,
    w0: NoteWriter,
    w1: NoteWriter,
    r0: Records,
    r1: Records,
    at: Moment,
    r: Result<CommitResult, TacitusError>,
) -> bool {
    &&& apply_made(w0, r0.vault, r1.vault, ops, at.millis, at.now@, r)
    &&& session_after(w0, w1, ops, r0.vault.notes())
    &&& only_vault(r0, r1)
}

/// A call that was refused before anything was done.
pub open spec fn refused<T>(
    e: ErrorView,
    w0: NoteWriter,
    w1: NoteWriter,
    r0: Records,
    r1: Records,
    r: Result<T, TacitusError>,
) -> bool {
    r matches Err(x) && x@ == e && w1 == w0 && r1 == r0
}

/// create_note: the note is created.
pub open spec fn create_ran(
    a: CreateNoteArgs,
    w0: NoteWriter,
    w1: NoteWriter,
    r0: Records,
    r1: Records,
    at: Moment,
    r: Result<CommitResult, TacitusError>,
) -> bool {
    match frontmatter_of(a.frontmatter) {
        Err(e) => refused(e, w0, w1, r0, r1, r),
        Ok(fm) => applied_at_once(
            seq![OpView::Create { note_id: a.note_id@, content: a.content@, frontmatter: fm }],
            w0,
            w1,
            r0,
            r1,
            at,
            r,
        ),
    }
}

/// update_note: the note is updated.
pub open spec fn update_ran(
    a: UpdateNoteArgs,
    w0: NoteWriter,
    w1: NoteWriter,
    r0: Records,
    r1: Records,
    at: Moment,
    r: Result<CommitResult, TacitusError>,
) -> bool {
    match frontmatter_of(a.frontmatter) {
        Err(e) => refused(e, w0, w1, r0, r1, r),
        Ok(fm) => applied_at_once(
            seq![
                OpView::Update {
                    note_id: a.note_id@,
                    content: opt_text(a.content),
                    frontmatter: fm,
                },
            ],
            w0,
            w1,
            r0,
            r1,
            at,
            r,
        ),
    }
}

/// How many audit entries are asked for.
pub open spec fn audit_limit(limit: Option<usize>) -> nat {
    match limit {
        Some(n) => n as nat,
        None => 50,
    }
}

/// The filter that an argument stands for.
pub open spec fn filter_of(f: PropFilterArg) -> PropFilterView {
    PropFilterView {
        key: f.key@,
        op: PropOp::named(f.op@)->0,
        value: match f.value {
            Some(j) => Some(j@),
            None => None,
        },
    }
}

/// The first filter from `i` on whose operator is unknown.
pub open spec fn bad_filter_from(v: Seq<PropFilterArg>, i: int) -> Option<int>
    decreases v.len() - i,
{
    if i < 0 || i >= v.len() {
        None
    } else if PropOp::named(v[i].op@) is None {
        Some(i)
    } else {
        bad_filter_from(v, i + 1)
    }
}

/// The query that arguments stand for.
pub open spec fn query_of(a: PropertiesArgs) -> QueryView {
    QueryView {
        filters: a.filters@.map_values(|f: PropFilterArg| filter_of(f)),
        select: select_view(a.select),
        sort_by: opt_text(a.sort_by),
        descending: a.descending == Some(true),
        limit: a.limit,
        token_budget: a.token_budget,
    }
}

/// properties_query: the rows that match.
pub open spec fn properties_ran(
    a: PropertiesArgs,
    index: Seq<NoteView>,
    r: Result<Vec<PropertiesRow>, TacitusError>,
) -> bool {
    match bad_filter_from(a.filters@, 0) {
        Some(i) => r matches Err(e) && e@ == invalid_input(
            "op must be eq|ne|contains|exists|not_exists|gt|lt|gte|lte (got "@ + debug_text(
                a.filters@[i].op@,
            ) + ")."@,
            "Use a valid op."@,
        ),
        None => r matches Ok(rows) && rows_view(rows@) == query_rows(index, query_of(a)),
    }
}

/// The contents of template files, in the order of their names.
pub open spec fn file_texts(m: StrMap<String>) -> Seq<Seq<char>> {
    m.keys().map_values(|k: Seq<char>| m@[k]@)
}

/// The text of a template.
pub open spec fn template_of(m: Map<Seq<char>, String>, name: Seq<char>) -> Result<
    Seq<char>,
    ErrorView,
> {
    if !is_bare_name(name) {
        Err(
            error(
                "TEMPLATE_NOT_FOUND"@,
                "Invalid template name "@ + debug_text(name) + "."@,
                "Use a bare template name from list_templates."@,
            ),
        )
    } else if !m.contains_key(name + ".md"@) {
        Err(
            error(
                "TEMPLATE_NOT_FOUND"@,
                "No template named "@ + debug_text(name) + "."@,
                "Use list_templates to see available templates."@,
            ),
        )
    } else {
        Ok(m[name + ".md"@]@)
    }
}

/// The text that a scalar stands for in a template.
pub open spec fn scalar_text(j: JsonView) -> Option<Seq<char>> {
    match j {
        JsonView::Text(s) => Some(s),
        JsonView::Number(n) => Some(n.text),
        JsonView::Bool(b) => Some(
            if b {
                "true"@
            } else {
                "false"@
            },
        ),
        _ => None,
    }
}

/// The first variable from `i` on that is no scalar.
pub open spec fn bad_var_from(e: Seq<(Seq<char>, JsonView)>, i: int) -> Option<int>
    decreases e.len() - i,
{
    if i < 0 || i >= e.len() {
        None
    } else if scalar_text(e[i].1) is None {
        Some(i)
    } else {
        bad_var_from(e, i + 1)
    }
}

/// The entries of the variables of a template.
pub open spec fn var_entries(vars: Option<Json>) -> Seq<(Seq<char>, JsonView)> {
    match vars {
        Some(j) => match j@ {
            JsonView::Object(e) => e,
            _ => seq![],
        },
        None => seq![],
    }
}

/// Whether a map holds the texts of the first `n` variables.
pub open spec fn holds_vars(m: Map<Seq<char>, String>, e: Seq<(Seq<char>, JsonView)>, n: int) -> bool {
    m.map_values(|s: String| s@) == vars_text(e, n)
}

/// The texts of the first `n` variables.
pub open spec fn vars_text(e: Seq<(Seq<char>, JsonView)>, n: int) -> Map<Seq<char>, Seq<char>>
    decreases n,
{
    if n <= 0 {
        Map::empty()
    } else {
        vars_text(e, n - 1).insert(e[n - 1].0, scalar_text(e[n - 1].1)->0)
    }
}

/// The frontmatter that a note made from a template gets: none where it has no
/// entry.
pub open spec fn kept_frontmatter(fm: YamlView) -> Option<YamlView> {
    if fm == no_frontmatter() {
        None
    } else {
        Some(fm)
    }
}

/// The operation that makes a note from a text.
pub open spec fn template_ops(id: Seq<char>, text: Seq<char>) -> Seq<OpView> {
    let n = parsed(text, id + ".md"@);
    seq![
        OpView::Create {
            note_id: id,
            content: n.content,
            frontmatter: kept_frontmatter(n.frontmatter),
        },
    ]
}

/// A note was made from a template filled in with variables.
pub open spec fn filled_in(
    raw: Seq<char>,
    id: Seq<char>,
    vars: Map<Seq<char>, String>,
    w0: NoteWriter,
    w1: NoteWriter,
    r0: Records,
    r1: Records,
    at: Moment,
    r: Result<(CommitResult, String), TacitusError>,
) -> bool {
    match rendered(raw, vars, at.clock@) {
        Err(e) => refused(e, w0, w1, r0, r1, r),
        Ok(text) => (r matches Ok(x) ==> x.1@ == id) && applied_at_once(
            template_ops(id, text),
            w0,
            w1,
            r0,
            r1,
            at,
            match r {
                Ok(x) => Ok(x.0),
                Err(e) => Err(e),
            },
        ),
    }
}

/// A note was made from a template filled in with the variables of a call.
pub open spec fn filled_in_with(
    raw: Seq<char>,
    id: Seq<char>,
    e: Seq<(Seq<char>, JsonView)>,
    w0: NoteWriter,
    w1: NoteWriter,
    r0: Records,
    r1: Records,
    at: Moment,
    r: Result<(CommitResult, String), TacitusError>,
) -> bool {
    exists|vars: Map<Seq<char>, String>|
        holds_vars(vars, e, e.len() as int) && #[trigger] filled_in(
            raw,
            id,
            vars,
            w0,
            w1,
            r0,
            r1,
            at,
            r,
        )
}

/// create_from_template: the note is created from the filled-in template.
pub open spec fn template_ran(
    a: CreateFromTemplateArgs,
    w0: NoteWriter,
    w1: NoteWriter,
    r0: Records,
    r1: Records,
    at: Moment,
    r: Result<(CommitResult, String), TacitusError>,
) -> bool {
    let e = var_entries(a.vars);
    match template_of(r0.templates@, a.template@) {
        Err(x) => refused(x, w0, w1, r0, r1, r),
        Ok(raw) => match bad_var_from(e, 0) {
            Some(i) => refused(
                invalid_input(
                    "var "@ + debug_text(e[i].0) + " must be a scalar (string/number/bool)."@,
                    "Pass scalar values in vars."@,
                ),
                w0,
                w1,
                r0,
                r1,
                r,
            ),
            None => filled_in_with(raw, a.note_id@, e, w0, w1, r0, r1, at, r),
        },
    }
}

/// What tasks are asked for.
pub open spec fn filter_of_tasks(a: ListTasksArgs) -> TaskFilterView {
    TaskFilterView {
        done: a.done,
        due_before: opt_text(a.due_before),
        due_after: opt_text(a.due_after),
        tag: opt_text(a.tag),
        note_id: opt_text(a.note_id),
        limit: a.limit,
        token_budget: a.token_budget,
    }
}

/// toggle_task: the checkbox of one task is flipped.
pub open spec fn toggle_ran(
    a: ToggleTaskArgs,
    w0: NoteWriter,
    w1: NoteWriter,
    r0: Records,
    r1: Records,
    at: Moment,
    r: Result<CommitResult, TacitusError>,
) -> bool {
    match note_at(r0.vault.index@, a.note_id@) {
        None => refused(
            error(
                "NOTE_NOT_FOUND"@,
                "No note with id "@ + debug_text(a.note_id@) + "."@,
                "Use list_tasks to discover tasks."@,
            ),
            w0,
            w1,
            r0,
            r1,
            r,
        ),
        Some(n) => match toggled(a.note_id@, n.content, a.line as nat, a.expect_text@) {
            Err(e) => refused(e, w0, w1, r0, r1, r),
            Ok(content) => applied_at_once(
                seq![
                    OpView::Update {
                        note_id: a.note_id@,
                        content: Some(content),
                        frontmatter: None,
                    },
                ],
                w0,
                w1,
                r0,
                r1,
                at,
                r,
            ),
        },
    }
}

/// How many notes beside the renamed one a renaming updates.
pub open spec fn links_updated(ops: nat) -> nat {
    if ops >= 2 {
        (ops - 2) as nat
    } else {
        0
    }
}

/// rename_note: the note and all links to it change in one changeset.
pub open spec fn rename_ran(
    a: RenameNoteArgs,
    w0: NoteWriter,
    w1: NoteWriter,
    r0: Records,
    r1: Records,
    at: Moment,
    r: Result<RenameAnswer, TacitusError>,
) -> bool {
    match rename_ops(r0.vault.index@, a.from@, a.to@) {
        Err(e) => refused(e, w0, w1, r0, r1, r),
        Ok(ops) => (r matches Ok(x) ==> x.from@ == a.from@ && x.to@ == a.to@ && x.links_updated_in
            == links_updated(ops.len())) && renames(ops, w0, w1, r0, r1, at, r),
    }
}

/// The changeset of a renaming was applied at once.
pub open spec fn renames(
    ops: Seq<OpView>,
    w0: NoteWriter,
    w1: NoteWriter,
    r0: Records,
    r1: Records,
    at: Moment,
    r: Result<RenameAnswer, TacitusError>,
) -> bool {
    exists|c: Result<CommitResult, TacitusError>|
        #[trigger] applied_at_once(ops, w0, w1, r0, r1, at, c) && match r {
            Ok(x) => c matches Ok(y) && y.version_id@ == x.version_id@,
            Err(e) => c matches Err(y) && y == e,
        }
}

/// How many characters of each content are shown.
pub open spec fn shown_chars(max_tokens: Option<usize>) -> nat {
    4 * match max_tokens {
        Some(n) => n as nat,
        None => 500,
    }
}

/// Whether a clip is what is shown of a content.
pub open spec fn clips(
    c: Option<Clip>,
    content: Option<Seq<char>>,
    with_content: bool,
    max: nat,
) -> bool {
    match content {
        Some(t) => if with_content {
            c matches Some(x) && x.truncated == (t.len() > max) && x.content@ == if t.len() > max {
                t.take(max as int)
            } else {
                t
            }
        } else {
            c is None
        },
        None => c is None,
    }
}

/// Whether a change is shown as asked for.
pub open spec fn change_shown(
    c: ClippedChange,
    v: NoteChangeView,
    with_content: bool,
    max: nat,
) -> bool {
    &&& c.note_id@ == v.note_id
    &&& c.op@ == v.op
    &&& clips(c.before, v.before, with_content, max)
    &&& clips(c.after, v.after, with_content, max)
}

/// get_version: what a version did, note by note.
pub open spec fn version_ran(
    a: GetVersionArgs,
    vault: Vault,
    r: Result<VersionAnswer, TacitusError>,
) -> bool {
    let missing = no_record(vault, a.version_id@, "Use a version_id from audit_log."@);
    if missing is None {
        let snapshot = vault.history@[a.version_id@];
        let changes = version_changes(snapshot.before.keys(), snapshot@);
        r matches Ok(x) && x.version_id@ == snapshot@.version_id && x.change_id@
            == snapshot@.change_id && x.notes@.len() == changes.len() && forall|i: int|
            0 <= i < changes.len() ==> change_shown(
                #[trigger] x.notes@[i],
                changes[i],
                a.include_content == Some(true),
                shown_chars(a.max_tokens),
            )
    } else {
        r matches Err(e) && e@ == missing->0
    }
}

/// Whether a tool is visible under an allowlist.
pub open spec fn is_allowed(allow: Option<Seq<Seq<char>>>, name: Seq<char>) -> bool {
    match allow {
        Some(names) => names.contains(name),
        None => true,
    }
}

/// The tools from `i` on that are visible under an allowlist.
pub open spec fn visible_from(
    t: Seq<DescriptorView>,
    allow: Option<Seq<Seq<char>>>,
    i: int,
) -> Seq<DescriptorView>
    decreases t.len() - i,
{
    if i < 0 || i >= t.len() {
        seq![]
    } else if is_allowed(allow, t[i].name) {
        seq![t[i]] + visible_from(t, allow, i + 1)
    } else {
        visible_from(t, allow, i + 1)
    }
}

/// The order of tools by name.
pub open spec fn by_tool_name(t: Seq<DescriptorView>) -> spec_fn(int, int) -> bool {
    |a: int, b: int| before(t[a].name, t[b].name)
}

/// Tools sorted by name.
pub open spec fn sorted_tools(t: Seq<DescriptorView>) -> Seq<DescriptorView> {
    stable_order(t.len(), by_tool_name(t)).map_values(|k: int| t[k])
}

/// The model of an allowlist.
pub open spec fn allow_view(allow: Option<&Vec<String>>) -> Option<Seq<Seq<char>>> {
    match allow {
        Some(v) => Some(texts(v@)),
        None => None,
    }
}

/// capabilities: the visible tools by name, and who serves them.
pub open spec fn capabilities_ran(
    reg: ToolRegistry,
    allow: Option<Seq<Seq<char>>>,
    r: CapabilitiesAnswer,
) -> bool {
    &&& r.server@ == reg.server_name@
    &&& r.version@ == reg.version@
    &&& r.scope == reg.scope
    &&& descriptors_view(r.tools@) == sorted_tools(visible_from(tool_table(), allow, 0))
}

// ---------------------------------------------------------------------------
// The registry
// ---------------------------------------------------------------------------

/// The tools, ready to be called.
pub struct ToolRegistry {
    pub scope: PermissionScope,
    pub server_name: String,
    pub version: String,
    /// Lives as long as the registry, so that what was proposed can be
    /// committed by a later call.
    pub writer: NoteWriter,
}

/// The registry but for its writer stays as it is.
pub open spec fn only_writer(g0: ToolRegistry, g1: ToolRegistry) -> bool {
    g1.scope == g0.scope && g1.server_name == g0.server_name && g1.version == g0.version
}

fn frontmatter_yaml(frontmatter: &Option<Json>) -> (r: Result<Option<Yaml>, TacitusError>)
    ensures
        match r {
            Ok(y) => frontmatter_of(*frontmatter) == Ok::<Option<YamlView>, ErrorView>(opt_yaml(y)),
            Err(e) => frontmatter_of(*frontmatter) == Err::<Option<YamlView>, ErrorView>(e@),
        },
{
    match frontmatter {
        None => Ok(None),
        Some(j) => match yaml_of_json(j) {
            Ok(y) => Ok(Some(y)),
            Err(e) => {
                let mut reason = "frontmatter must be a plain object (".to_owned();
                reason.append(e.as_str());
                reason.append(").");
                Err(
                    TacitusError::new(
                        "INVALID_INPUT",
                        reason.as_str(),
                        "Pass frontmatter as a JSON object of scalar/array values.",
                    ),
                )
            },
        },
    }
}

fn got(head: &str, name: &str, tail: &str, suggestion: &str) -> (e: TacitusError)
    ensures
        e@ == invalid_input(head@ + debug_text(name@) + tail@, suggestion@),
{
    let mut reason = head.to_owned();
    reason.append(quoted(name).as_str());
    reason.append(tail);
    TacitusError::new("INVALID_INPUT", reason.as_str(), suggestion)
}

fn to_change_op(a: &ChangeOpArg) -> (r: Result<ChangeOp, TacitusError>)
    ensures
        match r {
            Ok(op) => op_of(*a) == Ok::<OpView, ErrorView>(op@),
            Err(e) => op_of(*a) == Err::<OpView, ErrorView>(e@),
        },
{
    let frontmatter = match frontmatter_yaml(&a.frontmatter) {
        Ok(fm) => fm,
        Err(e) => {
            return Err(e);
        },
    };
    if str_eq(a.op.as_str(), "create") {
        let content: String = match &a.content {
            Some(c) => c.clone(),
            None => {
                let s = String::new();
                assert(s@ =~= seq![]);
                s
            },
        };
        Ok(ChangeOp::Create { note_id: a.note_id.clone(), content, frontmatter })
    } else if str_eq(a.op.as_str(), "update") {
        Ok(
            ChangeOp::Update {
                note_id: a.note_id.clone(),
                content: copy_opt(&a.content),
                frontmatter,
            },
        )
    } else if str_eq(a.op.as_str(), "delete") {
        Ok(ChangeOp::Delete { note_id: a.note_id.clone() })
    } else {
        Err(
            got(
                "op must be create|update|delete (got ",
                a.op.as_str(),
                ").",
                "Use a valid op.",
            ),
        )
    }
}

proof fn lemma_ops_err(v: Seq<ChangeOpArg>, n: int, m: int)
    requires
        0 <= n <= m,
        ops_of(v, n) is Err,
    ensures
        ops_of(v, m) == ops_of(v, n),
    decreases m - n,
{
    if n < m {
        lemma_ops_err(v, n, m - 1);
    }
}

fn to_change_ops(v: &Vec<ChangeOpArg>) -> (r: Result<Vec<ChangeOp>, TacitusError>)
    ensures
        match r {
            Ok(ops) => ops_of(v@, v@.len() as int) == Ok::<Seq<OpView>, ErrorView>(ops_view(ops@)),
            Err(e) => ops_of(v@, v@.len() as int) == Err::<Seq<OpView>, ErrorView>(e@),
        },
{
    let mut out: Vec<ChangeOp> = Vec::new();
    let mut i: usize = 0;
    assert(ops_view(out@) =~= seq![]);
    while i < v.len()
        invariant
            i <= v@.len(),
            ops_of(v@, i as int) == Ok::<Seq<OpView>, ErrorView>(ops_view(out@)),
        decreases v@.len() - i,
    {
        match to_change_op(&v[i]) {
            Ok(op) => {
                let ghost prev = ops_view(out@);
                let ghost ov = op@;
                out.push(op);
                assert(ops_view(out@) =~= prev.push(ov));
            },
            Err(e) => {
                proof {
                    lemma_ops_err(v@, i + 1, v@.len() as int);
                }
                return Err(e);
            },
        }
        i = i + 1;
    }
    Ok(out)
}

fn all_memories(m: &StrMap<Option<Memory>>) -> (r: Vec<Memory>)
    ensures
        memories_view(r@) == memory_list(*m),
{
    let n: usize = m.len();
    let ghost names = m.keys();
    let mut out: Vec<Memory> = Vec::new();
    let mut i: usize = 0;
    assert(memories_view(out@) =~= seq![]);
    while i < n
        invariant
            i <= n,
            n == names.len(),
            names == m.keys(),
            memory_list(*m) == memories_view(out@) + memories_from(m@, names, i as int),
        decreases n - i,
    {
        let (_, v) = m.entry_at(i);
        let ghost rest = memories_from(m@, names, i + 1);
        if let Some(x) = v {
            let ghost prev = memories_view(out@);
            let ghost xv = x@;
            out.push(x.clone());
            assert(memories_view(out@) =~= prev.push(xv));
            assert(prev + (seq![xv] + rest) =~= memories_view(out@) + rest);
        }
        i = i + 1;
    }
    assert(memories_view(out@) + memories_from(m@, names, i as int) =~= memories_view(out@));
    out
}

fn memory_file_name(id: &str) -> (r: String)
    ensures
        r@ == memory_file(id@),
{
    let mut name = id.to_owned();
    name.append(".md");
    name
}

fn to_filters(v: Vec<PropFilterArg>) -> (r: Result<Vec<PropFilter>, TacitusError>)
    ensures
        match bad_filter_from(v@, 0) {
            Some(i) => r matches Err(e) && e@ == invalid_input(
                "op must be eq|ne|contains|exists|not_exists|gt|lt|gte|lte (got "@ + debug_text(
                    v@[i].op@,
                ) + ")."@,
                "Use a valid op."@,
            ),
            None => r matches Ok(fs) && filters_view(fs@) == v@.map_values(
                |f: PropFilterArg| filter_of(f),
            ),
        },
{
    let ghost want = v@.map_values(|f: PropFilterArg| filter_of(f));
    let mut out: Vec<PropFilter> = Vec::new();
    let mut i: usize = 0;
    assert(filters_view(out@) =~= want.take(0));
    while i < v.len()
        invariant
            i <= v@.len(),
            want == v@.map_values(|f: PropFilterArg| filter_of(f)),
            bad_filter_from(v@, 0) == bad_filter_from(v@, i as int),
            filters_view(out@) == want.take(i as int),
        decreases v@.len() - i,
    {
        let op = match PropOp::parse(v[i].op.as_str()) {
            Some(op) => op,
            None => {
                return Err(
                    got(
                        "op must be eq|ne|contains|exists|not_exists|gt|lt|gte|lte (got ",
                        v[i].op.as_str(),
                        ").",
                        "Use a valid op.",
                    ),
                );
            },
        };
        let value: Option<Json> = match &v[i].value {
            Some(j) => Some(j.copy()),
            None => None,
        };
        let f = PropFilter { key: v[i].key.clone(), op, value };
        assert(f@ == want[i as int]);
        let ghost prev = filters_view(out@);
        out.push(f);
        assert(filters_view(out@) =~= prev.push(want[i as int]));
        assert(want.take(i + 1) =~= want.take(i as int).push(want[i as int]));
        i = i + 1;
    }
    assert(want.take(want.len() as int) =~= want);
    Ok(out)
}

fn scalar_of(j: &Json) -> (r: Option<String>)
    ensures
        opt_text(r) == scalar_text(j@),
{
    match j {
        Json::Text(s) => Some(s.clone()),
        Json::Number(n) => Some(n.text.clone()),
        Json::Bool(b) => Some(
            if *b {
                "true".to_owned()
            } else {
                "false".to_owned()
            },
        ),
        Json::Null => None,
        Json::List(_) => None,
        Json::Object(_) => None,
    }
}

fn template_var_map(vars: &Option<Json>) -> (r: Result<StrMap<String>, TacitusError>)
    ensures
        ({
            let e = var_entries(*vars);
            match bad_var_from(e, 0) {
                Some(i) => r matches Err(x) && x@ == invalid_input(
                    "var "@ + debug_text(e[i].0) + " must be a scalar (string/number/bool)."@,
                    "Pass scalar values in vars."@,
                ),
                None => r matches Ok(m) && holds_vars(m@, e, e.len() as int),
            }
        }),
{
    let mut out: StrMap<String> = StrMap::new();
    let ghost e = var_entries(*vars);
    proof {
        match vars {
            Some(j) => lemma_json_model(*j),
            None => {},
        }
        assert(out@.map_values(|s: String| s@) =~= Map::empty());
    }
    let entries: &Vec<(String, Json)> = match vars {
        Some(j) => match j {
            Json::Object(v) => v,
            _ => {
                return Ok(out);
            },
        },
        None => {
            return Ok(out);
        },
    };
    let mut i: usize = 0;
    while i < entries.len()
        invariant
            i <= entries@.len(),
            e == json_entries(entries@),
            e == var_entries(*vars),
            bad_var_from(e, 0) == bad_var_from(e, i as int),
            holds_vars(out@, e, i as int),
        decreases entries@.len() - i,
    {
        assert(e[i as int] == (entries@[i as int].0@, entries@[i as int].1@));
        let text = match scalar_of(&entries[i].1) {
            Some(t) => t,
            None => {
                return Err(
                    got(
                        "var ",
                        entries[i].0.as_str(),
                        " must be a scalar (string/number/bool).",
                        "Pass scalar values in vars.",
                    ),
                );
            },
        };
        let ghost before_map = out@;
        let ghost tv = text@;
        out.insert(entries[i].0.clone(), text);
        assert(out@.map_values(|s: String| s@) =~= before_map.map_values(|s: String| s@).insert(
            e[i as int].0,
            tv,
        ));
        i = i + 1;
    }
    Ok(out)
}

fn file_list(m: &StrMap<String>) -> (r: (Vec<String>, Vec<String>))
    ensures
        texts(r.0@) == m.keys(),
        texts(r.1@) == file_texts(*m),
        r.0@.len() == r.1@.len(),
{
    let n: usize = m.len();
    let ghost keys = m.keys();
    let ghost want = file_texts(*m);
    let mut names: Vec<String> = Vec::new();
    let mut raws: Vec<String> = Vec::new();
    let mut i: usize = 0;
    assert(texts(names@) =~= keys.take(0));
    assert(texts(raws@) =~= want.take(0));
    while i < n
        invariant
            i <= n,
            n == keys.len(),
            keys == m.keys(),
            want == file_texts(*m),
            names@.len() == i,
            raws@.len() == i,
            texts(names@) == keys.take(i as int),
            texts(raws@) == want.take(i as int),
        decreases n - i,
    {
        let (k, v) = m.entry_at(i);
        let ghost prev_names = texts(names@);
        let ghost prev_raws = texts(raws@);
        names.push(k.clone());
        raws.push(v.clone());
        assert(texts(names@) =~= prev_names.push(keys[i as int]));
        assert(texts(raws@) =~= prev_raws.push(want[i as int]));
        assert(keys.take(i + 1) =~= keys.take(i as int).push(keys[i as int]));
        assert(want.take(i + 1) =~= want.take(i as int).push(want[i as int]));
        i = i + 1;
    }
    assert(keys.take(n as int) =~= keys);
    assert(want.take(n as int) =~= want);
    (names, raws)
}

fn load_template(m: &StrMap<String>, name: &str) -> (r: Result<String, TacitusError>)
    ensures
        match r {
            Ok(raw) => template_of(m@, name@) == Ok::<Seq<char>, ErrorView>(raw@),
            Err(e) => template_of(m@, name@) == Err::<Seq<char>, ErrorView>(e@),
        },
{
    match TemplateStore::new("").file_of(name) {
        Ok(_) => {},
        Err(e) => {
            return Err(e);
        },
    }
    let mut file = name.to_owned();
    file.append(".md");
    match m.get(file.as_str()) {
        Some(raw) => Ok(raw.clone()),
        None => Err(TemplateStore::missing(name)),
    }
}

fn has_entries(fm: &Yaml) -> (r: bool)
    ensures
        r == (fm@ != no_frontmatter()),
{
    proof {
        lemma_model(*fm);
    }
    match fm {
        Yaml::Table(e) => {
            proof {
                if e@.len() == 0 {
                    assert(fm@->Table_0 =~= seq![]);
                } else {
                    assert(fm@->Table_0.len() > 0);
                }
            }
            e.len() > 0
        },
        _ => true,
    }
}

fn clip(content: &Option<String>, with_content: bool, max_tokens: Option<usize>) -> (r: Option<Clip>)
    ensures
        clips(r, opt_text(*content), with_content, shown_chars(max_tokens)),
{
    match content {
        None => None,
        Some(t) => {
            if !with_content {
                return None;
            }
            let n: usize = match max_tokens {
                Some(n) => n,
                None => 500,
            };
            let length: usize = t.as_str().unicode_len();
            if n <= usize::MAX / 4 && length > 4 * n {
                let v = chars_of(t.as_str());
                let cut = string_range(&v, 0, 4 * n);
                assert(cut@ =~= t@.take(4 * n as int));
                Some(Clip { content: cut, truncated: true })
            } else {
                Some(Clip { content: t.clone(), truncated: false })
            }
        },
    }
}

/// The visible tools of a table.
pub(crate) fn visible_tools(table: Vec<ToolDescriptor>, allow: Option<&Vec<String>>) -> (r: Vec<
    ToolDescriptor,
>)
    ensures
        descriptors_view(r@) == visible_from(descriptors_view(table@), allow_view(allow), 0),
{
    let ghost t = descriptors_view(table@);
    let ghost av = allow_view(allow);
    let mut out: Vec<ToolDescriptor> = Vec::new();
    let mut i: usize = 0;
    assert(descriptors_view(out@) =~= seq![]);
    while i < table.len()
        invariant
            i <= table@.len(),
            t == descriptors_view(table@),
            av == allow_view(allow),
            visible_from(t, av, 0) == descriptors_view(out@) + visible_from(t, av, i as int),
        decreases table@.len() - i,
    {
        let d = &table[i];
        assert(t[i as int] == d@);
        let seen: bool = match allow {
            Some(names) => has_string(names, d.name),
            None => true,
        };
        if seen {
            let copy = ToolDescriptor {
                name: d.name,
                writes: d.writes,
                description: d.description,
            };
            let ghost prev = descriptors_view(out@);
            out.push(copy);
            assert(descriptors_view(out@) =~= prev.push(t[i as int]));
            assert(prev + (seq![t[i as int]] + visible_from(t, av, i + 1)) =~= descriptors_view(
                out@,
            ) + visible_from(t, av, i + 1));
        }
        i = i + 1;
    }
    assert(descriptors_view(out@) + visible_from(t, av, i as int) =~= descriptors_view(out@));
    out
}

fn sort_tools(tools: Vec<ToolDescriptor>) -> (r: Vec<ToolDescriptor>)
    ensures
        descriptors_view(r@) == sorted_tools(descriptors_view(tools@)),
{
    let n: usize = tools.len();
    let ghost t = descriptors_view(tools@);
    let ghost want = sorted_tools(t);
    let less = |a: usize, b: usize| -> (r: bool)
        requires
            a < n,
            b < n,
            n == tools@.len(),
        ensures
            r == by_tool_name(descriptors_view(tools@))(a as int, b as int),
        { str_before(tools[a].name, tools[b].name) };
    let order = sort_positions(n, less, Ghost(by_tool_name(t)));
    let mut out: Vec<ToolDescriptor> = Vec::new();
    let mut k: usize = 0;
    assert(descriptors_view(out@) =~= want.take(0));
    while k < order.len()
        invariant
            k <= order@.len(),
            n == tools@.len(),
            order@.len() == n,
            t == descriptors_view(tools@),
            want == sorted_tools(t),
            positions(order@) == stable_order(n as nat, by_tool_name(t)),
            forall|a: int| 0 <= a < order@.len() ==> #[trigger] order@[a] < n,
            descriptors_view(out@) == want.take(k as int),
        decreases order@.len() - k,
    {
        let d = &tools[order[k]];
        assert(positions(order@)[k as int] == order@[k as int]);
        let copy = ToolDescriptor { name: d.name, writes: d.writes, description: d.description };
        assert(copy@ == want[k as int]);
        let ghost prev = descriptors_view(out@);
        out.push(copy);
        assert(descriptors_view(out@) =~= prev.push(want[k as int]));
        assert(want.take(k + 1) =~= want.take(k as int).push(want[k as int]));
        k = k + 1;
    }
    assert(want.take(want.len() as int) =~= want);
    out
}

impl ToolRegistry {
    /// A registry with the default name.
    pub fn standard(vault_dir: &str, scope: PermissionScope, version: &str) -> (r: Self)
        ensures
            r.scope == scope,
            r.server_name@ == "tacitus"@,
            r.version@ == version@,
            r.writer.scope == scope,
            r.writer.vault_dir@ == vault_dir@,
            r.writer.origin is None,
            r.writer.pending@ == Map::<Seq<char>, Changeset>::empty(),
    {
        ToolRegistry {
            scope,
            server_name: "tacitus".to_owned(),
            version: version.to_owned(),
            writer: NoteWriter::new(vault_dir, scope),
        }
    }

    /// Sets who the capabilities tool says it is.
    pub fn with_identity(self, server_name: &str, version: &str) -> (r: Self)
        ensures
            r.server_name@ == server_name@,
            r.version@ == version@,
            r.scope == self.scope,
            r.writer == self.writer,
    {
        ToolRegistry {
            scope: self.scope,
            server_name: server_name.to_owned(),
            version: version.to_owned(),
            writer: self.writer,
        }
    }

    /// Puts another writer in, whose origin marks what the tools write.
    pub fn with_writer(self, writer: NoteWriter) -> (r: Self)
        ensures
            r.writer == writer,
            only_writer(self, r),
    {
        ToolRegistry {
            scope: self.scope,
            server_name: self.server_name,
            version: self.version,
            writer,
        }
    }

    pub fn scope(&self) -> (r: PermissionScope)
        ensures
            r == self.scope,
    {
        self.scope
    }

    /// All tools.
    pub fn descriptors() -> (r: Vec<ToolDescriptor>)
        ensures
            descriptors_view(r@) == tool_table(),
    {
        tool_descriptors()
    }

    pub fn remember(&self, rec: &mut Records, args: RememberArgs, at: &Moment) -> (r: Result<
        String,
        TacitusError,
    >)
        ensures
            remember_ran(self.writer.scope, args, at.now@, *old(rec), *final(rec), r),
    {
        match self.writer.assert_writable() {
            Ok(_) => {},
            Err(e) => {
                return Err(e);
            },
        }
        let source: Option<ProvenanceInput> = match args.source {
            Some(s) => Some(
                ProvenanceInput { origin: s.origin, author: s.author, timestamp: s.timestamp },
            ),
            None => None,
        };
        let input = RememberInput {
            content: args.content,
            memory_type: args.memory_type,
            tags: args.tags,
            key: args.key,
            source,
            ttl: args.ttl,
        };
        assert(input@ =~= memory_input(args));
        match remember_at(input, at.now.as_str()) {
            Ok(memory) => {
                let id = memory.id.clone();
                let file = memory_file_name(id.as_str());
                let ghost was = rec.memories@;
                let ghost name = file@;
                rec.memories.insert(file, Some(memory));
                assert(rec.memories@.remove(name) =~= was.remove(name));
                Ok(id)
            },
            Err(e) => Err(e),
        }
    }

    pub fn recall(&self, rec: &Records, args: RecallQuery) -> (r: RecallResult)
        ensures
            recall_ran(args, *rec, r),
    {
        let memories = all_memories(&rec.memories);
        let memory_type: Option<MemoryType> = match &args.memory_type {
            Some(n) => MemoryType::parse(n.as_str()),
            None => None,
        };
        recall(
            memories.as_slice(),
            &RecallArgs { query: args.query, memory_type, token_budget: args.token_budget },
        )
    }

    pub fn forget(&self, rec: &mut Records, args: &ForgetArgs) -> (r: Result<bool, TacitusError>)
        ensures
            forget_ran(self.writer.scope, *args, *old(rec), *final(rec), r),
    {
        match self.writer.assert_writable() {
            Ok(_) => {},
            Err(e) => {
                return Err(e);
            },
        }
        let file = memory_file_name(args.memory_id.as_str());
        Ok(rec.memories.remove(file.as_str()))
    }

    pub fn search(&self, rec: &Records, args: &SearchToolArgs) -> (r: Vec<SearchHit>)
        ensures
            hits_view(r@) == search_hits(
                rec.vault.index@,
                args.query@,
                args.top_k,
                args.token_budget,
            ),
    {
        search_notes(
            &rec.vault.index,
            args.query.as_str(),
            &SearchArgs { token_budget: args.token_budget, top_k: args.top_k },
        )
    }

    pub fn get_note(&self, rec: &Records, args: &GetNoteArgs) -> (r: Result<
        GetNoteResult,
        TacitusError,
    >)
        ensures
            get_note_ran(*args, rec.vault.index@, r),
    {
        let format = match &args.format {
            Some(n) => if str_eq(n.as_str(), "frontmatter_only") {
                NoteFormat::FrontmatterOnly
            } else if str_eq(n.as_str(), "full") {
                NoteFormat::Full
            } else {
                NoteFormat::Outline
            },
            None => NoteFormat::Outline,
        };
        get_note(&rec.vault.index, args.note_id.as_str(), format, args.max_tokens)
    }

    pub fn graph_query(&self, rec: &Records, args: GraphArgs) -> (r: Result<
        GraphAnswer,
        TacitusError,
    >)
        ensures
            graph_ran(args, rec.vault.index@, r),
    {
        let relation = if str_eq(args.relation.as_str(), "links") {
            Relation::Links
        } else if str_eq(args.relation.as_str(), "backlinks") {
            Relation::Backlinks
        } else if str_eq(args.relation.as_str(), "neighbors") {
            Relation::Neighbors
        } else {
            return Err(
                got(
                    "relation must be links|backlinks|neighbors (got ",
                    args.relation.as_str(),
                    ").",
                    "Use a valid relation.",
                ),
            );
        };
        let depth: usize = match args.depth {
            Some(d) => d,
            None => 1,
        };
        match graph_query(&rec.vault.index, args.from.as_str(), relation, depth) {
            Ok(nodes) => Ok(GraphAnswer { from: args.from, relation: args.relation, nodes }),
            Err(e) => Err(e),
        }
    }

    pub fn suggest_links(&self, rec: &Records, args: SuggestLinksArgs) -> (r: Result<
        SuggestAnswer,
        TacitusError,
    >)
        ensures
            suggest_ran(args, rec.vault.index@, r),
    {
        let bounds = SuggestArgs { top_k: args.top_k, token_budget: args.token_budget };
        match suggest_links(&rec.vault.index, args.note_id.as_str(), &args.ratings, &bounds) {
            Ok(suggestions) => Ok(SuggestAnswer { note_id: args.note_id, suggestions }),
            Err(e) => Err(e),
        }
    }

    pub fn list_notes(&self, rec: &Records) -> (r: Vec<NoteRef>)
        ensures
            notes_listed(r@, rec.vault.index@),
    {
        let all = rec.vault.index.all();
        let mut out: Vec<NoteRef> = Vec::new();
        let mut i: usize = 0;
        while i < all.len()
            invariant
                i <= all@.len(),
                all@.len() == rec.vault.index@.len(),
                forall|k: int|
                    0 <= k < all@.len() ==> (#[trigger] all@[k])@ == rec.vault.index@[k],
                out@.len() == i,
                forall|k: int|
                    0 <= k < i ==> (#[trigger] out@[k]).note_id@ == rec.vault.index@[k].id
                        && out@[k].title@ == rec.vault.index@[k].title && out@[k].path@
                        == rec.vault.index@[k].path,
            decreases all@.len() - i,
        {
            let n = all[i];
            assert(all@[i as int]@ == rec.vault.index@[i as int]);
            out.push(
                NoteRef { note_id: n.id.clone(), title: n.title.clone(), path: n.path.clone() },
            );
            i = i + 1;
        }
        out
    }

    pub fn propose_changes(&mut self, rec: &Records, args: &ProposeArgs) -> (r: Result<
        Proposal,
        TacitusError,
    >)
        ensures
            propose_ran(*args, old(self).writer, final(self).writer, *rec, r),
            only_writer(*old(self), *final(self)),
    {
        let ops = match to_change_ops(&args.ops) {
            Ok(ops) => ops,
            Err(e) => {
                return Err(e);
            },
        };
        let changeset = Changeset { ops };
        let ghost c = changeset;
        let ghost w0 = self.writer;
        let r = self.writer.propose(&rec.vault, changeset);
        assert(propose_made(w0, self.writer, rec.vault.notes(), c, r));
        r
    }

    pub fn commit_changes(&mut self, rec: &mut Records, args: &CommitArgs, at: &Moment) -> (r:
        Result<CommitResult, TacitusError>)
        ensures
            commit_done(
                old(self).writer,
                final(self).writer,
                old(rec).vault,
                final(rec).vault,
                args.change_id@,
                at.millis,
                at.now@,
                r,
            ),
            only_vault(*old(rec), *final(rec)),
            only_writer(*old(self), *final(self)),
    {
        self.writer.commit(&mut rec.vault, args.change_id.as_str(), at.millis, at.now.as_str())
    }

    pub fn revert(&self, rec: &mut Records, args: &RevertArgs, at: &Moment) -> (r: Result<
        RevertResult,
        TacitusError,
    >)
        ensures
            revert_done(
                self.writer,
                old(rec).vault,
                final(rec).vault,
                args.version_id@,
                at.now@,
                r,
            ),
            only_vault(*old(rec), *final(rec)),
    {
        self.writer.revert(&mut rec.vault, args.version_id.as_str(), at.now.as_str())
    }

    pub fn create_note(&mut self, rec: &mut Records, args: &CreateNoteArgs, at: &Moment) -> (r:
        Result<CommitResult, TacitusError>)
        ensures
            create_ran(
                *args,
                old(self).writer,
                final(self).writer,
                *old(rec),
                *final(rec),
                *at,
                r,
            ),
            only_writer(*old(self), *final(self)),
    {
        let frontmatter = match frontmatter_yaml(&args.frontmatter) {
            Ok(fm) => fm,
            Err(e) => {
                return Err(e);
            },
        };
        self.writer.create_note(
            &mut rec.vault,
            args.note_id.as_str(),
            args.content.as_str(),
            frontmatter,
            at.millis,
            at.now.as_str(),
        )
    }

    pub fn update_note(&mut self, rec: &mut Records, args: &UpdateNoteArgs, at: &Moment) -> (r:
        Result<CommitResult, TacitusError>)
        ensures
            update_ran(
                *args,
                old(self).writer,
                final(self).writer,
                *old(rec),
                *final(rec),
                *at,
                r,
            ),
            only_writer(*old(self), *final(self)),
    {
        let frontmatter = match frontmatter_yaml(&args.frontmatter) {
            Ok(fm) => fm,
            Err(e) => {
                return Err(e);
            },
        };
        self.writer.update_note(
            &mut rec.vault,
            args.note_id.as_str(),
            copy_opt(&args.content),
            frontmatter,
            at.millis,
            at.now.as_str(),
        )
    }

    pub fn link(&mut self, rec: &mut Records, args: &LinkArgs, at: &Moment) -> (r: Result<
        CommitResult,
        TacitusError,
    >)
        ensures
            edit_done(
                old(self).writer,
                final(self).writer,
                old(rec).vault,
                final(rec).vault,
                args.from@,
                |raw: Seq<char>| link_ops(raw, args.from@, args.to@),
                at.millis,
                at.now@,
                r,
            ),
            only_vault(*old(rec), *final(rec)),
            only_writer(*old(self), *final(self)),
    {
        self.writer.link(
            &mut rec.vault,
            args.from.as_str(),
            args.to.as_str(),
            at.millis,
            at.now.as_str(),
        )
    }

    pub fn tag(&mut self, rec: &mut Records, args: &TagArgs, at: &Moment) -> (r: Result<
        CommitResult,
        TacitusError,
    >)
        ensures
            edit_done(
                old(self).writer,
                final(self).writer,
                old(rec).vault,
                final(rec).vault,
                args.note_id@,
                |raw: Seq<char>| tag_ops(raw, args.note_id@, args.tag@),
                at.millis,
                at.now@,
                r,
            ),
            only_vault(*old(rec), *final(rec)),
            only_writer(*old(self), *final(self)),
    {
        self.writer.tag(
            &mut rec.vault,
            args.note_id.as_str(),
            args.tag.as_str(),
            at.millis,
            at.now.as_str(),
        )
    }

    pub fn audit_log(&self, rec: &Records, args: &AuditArgs) -> (r: Vec<AuditEntry>)
        ensures
            audit_view(r@) == newest(audit_view(rec.vault.audit@), audit_limit(args.limit)),
    {
        let limit: usize = match args.limit {
            Some(n) => n,
            None => 50,
        };
        self.writer.read_audit(&rec.vault, limit)
    }

    pub fn properties_query(&self, rec: &Records, args: PropertiesArgs) -> (r: Result<
        Vec<PropertiesRow>,
        TacitusError,
    >)
        ensures
            properties_ran(args, rec.vault.index@, r),
    {
        let filters = match to_filters(args.filters) {
            Ok(fs) => fs,
            Err(e) => {
                return Err(e);
            },
        };
        let descending: bool = match args.descending {
            Some(d) => d,
            None => false,
        };
        let query = PropertiesQueryArgs {
            filters,
            select: args.select,
            sort_by: args.sort_by,
            descending,
            limit: args.limit,
            token_budget: args.token_budget,
        };
        assert(query@ =~= query_of(args));
        Ok(properties_query(&rec.vault.index, &query))
    }

    pub fn list_templates(&self, rec: &Records) -> (r: Vec<Template>)
        ensures
            templates_view(r@) == template_list(rec.templates.keys(), file_texts(rec.templates)),
    {
        let (names, raws) = file_list(&rec.templates);
        list_templates(&names, &raws)
    }

    pub fn create_from_template(
        &mut self,
        rec: &mut Records,
        args: &CreateFromTemplateArgs,
        at: &Moment,
    ) -> (r: Result<(CommitResult, String), TacitusError>)
        ensures
            template_ran(
                *args,
                old(self).writer,
                final(self).writer,
                *old(rec),
                *final(rec),
                *at,
                r,
            ),
            only_writer(*old(self), *final(self)),
    {
        let ghost w0 = self.writer;
        let ghost r0 = *rec;
        let raw = match load_template(&rec.templates, args.template.as_str()) {
            Ok(raw) => raw,
            Err(e) => {
                return Err(e);
            },
        };
        let vars = match template_var_map(&args.vars) {
            Ok(m) => m,
            Err(e) => {
                return Err(e);
            },
        };
        let ghost e = var_entries(args.vars);
        let text = match render_at(raw.as_str(), &vars, &at.clock) {
            Ok(t) => t,
            Err(x) => {
                let r: Result<(CommitResult, String), TacitusError> = Err(x);
                assert(filled_in(
                    raw@,
                    args.note_id@,
                    vars@,
                    w0,
                    self.writer,
                    r0,
                    *rec,
                    *at,
                    r,
                ));
                return r;
            },
        };
        let mut path = args.note_id.clone();
        path.append(".md");
        let note = parse_note(text.as_str(), path.as_str());
        let frontmatter: Option<Yaml> = if has_entries(&note.frontmatter) {
            Some(note.frontmatter.copy())
        } else {
            None
        };
        assert(opt_yaml(frontmatter) == kept_frontmatter(note@.frontmatter));
        let made = self.writer.create_note(
            &mut rec.vault,
            args.note_id.as_str(),
            note.content.as_str(),
            frontmatter,
            at.millis,
            at.now.as_str(),
        );
        let ghost mv = made;
        let r: Result<(CommitResult, String), TacitusError> = match made {
            Ok(c) => Ok((c, args.note_id.clone())),
            Err(x) => Err(x),
        };
        assert(template_ops(args.note_id@, text@) == seq![
            OpView::Create {
                note_id: args.note_id@,
                content: note@.content,
                frontmatter: opt_yaml(frontmatter),
            },
        ]);
        assert(filled_in(raw@, args.note_id@, vars@, w0, self.writer, r0, *rec, *at, r));
        r
    }

    pub fn list_tasks(&self, rec: &Records, args: ListTasksArgs) -> (r: Vec<Task>)
        ensures
            tasks_view(r@) == listed(rec.vault.index@, filter_of_tasks(args)),
    {
        let filter = TaskFilter {
            done: args.done,
            due_before: args.due_before,
            due_after: args.due_after,
            tag: args.tag,
            note_id: args.note_id,
            limit: args.limit,
            token_budget: args.token_budget,
        };
        assert(filter@ == filter_of_tasks(args));
        list_tasks(&rec.vault.index, &filter)
    }

    pub fn toggle_task(&mut self, rec: &mut Records, args: &ToggleTaskArgs, at: &Moment) -> (r:
        Result<CommitResult, TacitusError>)
        ensures
            toggle_ran(
                *args,
                old(self).writer,
                final(self).writer,
                *old(rec),
                *final(rec),
                *at,
                r,
            ),
            only_writer(*old(self), *final(self)),
    {
        let content = match rec.vault.index.get(args.note_id.as_str()) {
            Some(note) => match toggled_content(
                args.note_id.as_str(),
                note.content.as_str(),
                args.line,
                args.expect_text.as_str(),
            ) {
                Ok(c) => c,
                Err(e) => {
                    return Err(e);
                },
            },
            None => {
                let mut reason = "No note with id ".to_owned();
                reason.append(quoted(args.note_id.as_str()).as_str());
                reason.append(".");
                return Err(
                    TacitusError::new(
                        "NOTE_NOT_FOUND",
                        reason.as_str(),
                        "Use list_tasks to discover tasks.",
                    ),
                );
            },
        };
        self.writer.update_note(
            &mut rec.vault,
            args.note_id.as_str(),
            Some(content),
            None,
            at.millis,
            at.now.as_str(),
        )
    }

    pub fn rename_note(&mut self, rec: &mut Records, args: RenameNoteArgs, at: &Moment) -> (r:
        Result<RenameAnswer, TacitusError>)
        ensures
            rename_ran(
                args,
                old(self).writer,
                final(self).writer,
                *old(rec),
                *final(rec),
                *at,
                r,
            ),
            only_writer(*old(self), *final(self)),
    {
        let ghost w0 = self.writer;
        let ghost r0 = *rec;
        let changeset = match rename_note_ops(
            &rec.vault.index,
            args.from.as_str(),
            args.to.as_str(),
        ) {
            Ok(c) => c,
            Err(e) => {
                return Err(e);
            },
        };
        let count: usize = changeset.ops.len();
        let ghost ops = changeset@;
        assert(ops.len() == count);
        let updated: usize = if count >= 2 {
            count - 2
        } else {
            0
        };
        let done = self.writer.apply(&mut rec.vault, changeset, at.millis, at.now.as_str());
        let ghost c = done;
        assert(applied_at_once(ops, w0, self.writer, r0, *rec, *at, c));
        match done {
            Ok(x) => Ok(
                RenameAnswer {
                    version_id: x.version_id,
                    from: args.from,
                    to: args.to,
                    links_updated_in: updated,
                },
            ),
            Err(e) => Err(e),
        }
    }

    pub fn delete_note(&mut self, rec: &mut Records, args: &DeleteNoteArgs, at: &Moment) -> (r:
        Result<CommitResult, TacitusError>)
        ensures
            applied_at_once(
                seq![OpView::Delete { note_id: args.note_id@ }],
                old(self).writer,
                final(self).writer,
                *old(rec),
                *final(rec),
                *at,
                r,
            ),
            only_writer(*old(self), *final(self)),
    {
        self.writer.delete_note(
            &mut rec.vault,
            args.note_id.as_str(),
            at.millis,
            at.now.as_str(),
        )
    }

    pub fn get_version(&self, rec: &Records, args: &GetVersionArgs) -> (r: Result<
        VersionAnswer,
        TacitusError,
    >)
        ensures
            version_ran(*args, rec.vault, r),
    {
        let detail = match self.writer.get_version(&rec.vault, args.version_id.as_str()) {
            Ok(d) => d,
            Err(e) => {
                return Err(e);
            },
        };
        let with_content: bool = match args.include_content {
            Some(b) => b,
            None => false,
        };
        let ghost changes = changes_view(detail.notes@);
        let mut notes: Vec<ClippedChange> = Vec::new();
        let mut i: usize = 0;
        while i < detail.notes.len()
            invariant
                i <= detail.notes@.len(),
                changes == changes_view(detail.notes@),
                with_content == (args.include_content == Some(true)),
                notes@.len() == i,
                forall|k: int|
                    0 <= k < i ==> change_shown(
                        #[trigger] notes@[k],
                        changes[k],
                        with_content,
                        shown_chars(args.max_tokens),
                    ),
            decreases detail.notes@.len() - i,
        {
            let n = &detail.notes[i];
            assert(changes[i as int] == n@);
            notes.push(
                ClippedChange {
                    note_id: n.note_id.clone(),
                    op: n.op.clone(),
                    before: clip(&n.before, with_content, args.max_tokens),
                    after: clip(&n.after, with_content, args.max_tokens),
                },
            );
            i = i + 1;
        }
        Ok(VersionAnswer { version_id: detail.version_id, change_id: detail.change_id, notes })
    }

    /// The tools that are visible under an allowlist, sorted by name.
    pub fn capabilities(&self, allow: Option<&Vec<String>>) -> (r: CapabilitiesAnswer)
        ensures
            capabilities_ran(*self, allow_view(allow), r),
    {
        let visible = visible_tools(tool_descriptors(), allow);
        CapabilitiesAnswer {
            server: self.server_name.clone(),
            version: self.version.clone(),
            tools: sort_tools(visible),
            scope: self.scope,
        }
    }
}

// ---------------------------------------------------------------------------
// Dispatch
// ---------------------------------------------------------------------------

/// What a call came to: the answer of its tool, and what it changed.
pub open spec fn tool_ran(
    call: ToolCall,
    allow: Option<Seq<Seq<char>>>,
    g0: ToolRegistry,
    g1: ToolRegistry,
    r0: Records,
    r1: Records,
    at: Moment,
    r: Result<ToolData, TacitusError>,
) -> bool {
    let w0 = g0.writer;
    let w1 = g1.writer;
    let idle = w1 == w0 && r1 == r0;
    let commits = match r {
        Ok(ToolData::Committed(c)) => Ok::<CommitResult, TacitusError>(c),
        Ok(_) => arbitrary(),
        Err(e) => Err(e),
    };
    only_writer(g0, g1) && (r matches Ok(d) ==> answers(call, d)) && match call {
        ToolCall::Remember(a) => w1 == w0 && remember_ran(
            w0.scope,
            a,
            at.now@,
            r0,
            r1,
            match r {
                Ok(d) => Ok(d->Remembered_0),
                Err(e) => Err(e),
            },
        ),
        ToolCall::Recall(a) => idle && r is Ok && recall_ran(a, r0, r->Ok_0->Recalled_0),
        ToolCall::Forget(a) => w1 == w0 && forget_ran(
            w0.scope,
            a,
            r0,
            r1,
            match r {
                Ok(d) => Ok(d->Removed_0),
                Err(e) => Err(e),
            },
        ),
        ToolCall::Search(a) => idle && r is Ok && hits_view(r->Ok_0->Hits_0@) == search_hits(
            r0.vault.index@,
            a.query@,
            a.top_k,
            a.token_budget,
        ),
        ToolCall::GetNote(a) => idle && get_note_ran(
            a,
            r0.vault.index@,
            match r {
                Ok(d) => Ok(d->Note_0),
                Err(e) => Err(e),
            },
        ),
        ToolCall::GraphQuery(a) => idle && graph_ran(
            a,
            r0.vault.index@,
            match r {
                Ok(d) => Ok(d->Graph_0),
                Err(e) => Err(e),
            },
        ),
        ToolCall::SuggestLinks(a) => idle && suggest_ran(
            a,
            r0.vault.index@,
            match r {
                Ok(d) => Ok(d->Suggestions_0),
                Err(e) => Err(e),
            },
        ),
        ToolCall::ListNotes => idle && r is Ok && notes_listed(
            r->Ok_0->Notes_0@,
            r0.vault.index@,
        ),
        ToolCall::ProposeChanges(a) => r1 == r0 && propose_ran(
            a,
            w0,
            w1,
            r0,
            match r {
                Ok(d) => Ok(d->Proposed_0),
                Err(e) => Err(e),
            },
        ),
        ToolCall::CommitChanges(a) => only_vault(r0, r1) && commit_done(
            w0,
            w1,
            r0.vault,
            r1.vault,
            a.change_id@,
            at.millis,
            at.now@,
            commits,
        ),
        ToolCall::Revert(a) => w1 == w0 && only_vault(r0, r1) && revert_done(
            w0,
            r0.vault,
            r1.vault,
            a.version_id@,
            at.now@,
            match r {
                Ok(d) => Ok(d->Reverted_0),
                Err(e) => Err(e),
            },
        ),
        ToolCall::CreateNote(a) => create_ran(a, w0, w1, r0, r1, at, commits),
        ToolCall::UpdateNote(a) => update_ran(a, w0, w1, r0, r1, at, commits),
        ToolCall::Link(a) => only_vault(r0, r1) && edit_done(
            w0,
            w1,
            r0.vault,
            r1.vault,
            a.from@,
            |raw: Seq<char>| link_ops(raw, a.from@, a.to@),
            at.millis,
            at.now@,
            commits,
        ),
        ToolCall::Tag(a) => only_vault(r0, r1) && edit_done(
            w0,
            w1,
            r0.vault,
            r1.vault,
            a.note_id@,
            |raw: Seq<char>| tag_ops(raw, a.note_id@, a.tag@),
            at.millis,
            at.now@,
            commits,
        ),
        ToolCall::AuditLog(a) => idle && r is Ok && audit_view(r->Ok_0->Audit_0@) == newest(
            audit_view(r0.vault.audit@),
            audit_limit(a.limit),
        ),
        ToolCall::PropertiesQuery(a) => idle && properties_ran(
            a,
            r0.vault.index@,
            match r {
                Ok(d) => Ok(d->Rows_0),
                Err(e) => Err(e),
            },
        ),
        ToolCall::ListTemplates => idle && r is Ok && templates_view(r->Ok_0->Templates_0@)
            == template_list(r0.templates.keys(), file_texts(r0.templates)),
        ToolCall::CreateFromTemplate(a) => template_ran(
            a,
            w0,
            w1,
            r0,
            r1,
            at,
            match r {
                Ok(d) => Ok((d->Created_0, d->Created_1)),
                Err(e) => Err(e),
            },
        ),
        ToolCall::ListTasks(a) => idle && r is Ok && tasks_view(r->Ok_0->Tasks_0@) == listed(
            r0.vault.index@,
            filter_of_tasks(a),
        ),
        ToolCall::ToggleTask(a) => toggle_ran(a, w0, w1, r0, r1, at, commits),
        ToolCall::RenameNote(a) => rename_ran(
            a,
            w0,
            w1,
            r0,
            r1,
            at,
            match r {
                Ok(d) => Ok(d->Renamed_0),
                Err(e) => Err(e),
            },
        ),
        ToolCall::DeleteNote(a) => applied_at_once(
            seq![OpView::Delete { note_id: a.note_id@ }],
            w0,
            w1,
            r0,
            r1,
            at,
            commits,
        ),
        ToolCall::GetVersion(a) => idle && version_ran(
            a,
            r0.vault,
            match r {
                Ok(d) => Ok(d->Version_0),
                Err(e) => Err(e),
            },
        ),
        ToolCall::Capabilities => idle && r is Ok && capabilities_ran(
            g0,
            allow,
            r->Ok_0->Capabilities_0,
        ),
    }
}

/// What dispatching a call came to: a refusal without a trace, or what its tool
/// did.
pub open spec fn tool_dispatched(
    tool: Seq<char>,
    call: Result<ToolCall, String>,
    allow: Option<Seq<Seq<char>>>,
    g0: ToolRegistry,
    g1: ToolRegistry,
    r0: Records,
    r1: Records,
    at: Moment,
    r: Result<ToolData, TacitusError>,
) -> bool {
    match call_refused(tool_table(), tool, allow, call) {
        Some(e) => r matches Err(x) && x@ == e && g1 == g0 && r1 == r0,
        None => call is Ok && tool_ran(call->Ok_0, allow, g0, g1, r0, r1, at, r),
    }
}

/// Whether an answer is of the kind that a call gets.
pub open spec fn answers(call: ToolCall, d: ToolData) -> bool {
    match call {
        ToolCall::Remember(_) => d is Remembered,
        ToolCall::Recall(_) => d is Recalled,
        ToolCall::Forget(_) => d is Removed,
        ToolCall::Search(_) => d is Hits,
        ToolCall::GetNote(_) => d is Note,
        ToolCall::GraphQuery(_) => d is Graph,
        ToolCall::SuggestLinks(_) => d is Suggestions,
        ToolCall::ListNotes => d is Notes,
        ToolCall::ProposeChanges(_) => d is Proposed,
        ToolCall::CommitChanges(_) => d is Committed,
        ToolCall::Revert(_) => d is Reverted,
        ToolCall::CreateNote(_) => d is Committed,
        ToolCall::UpdateNote(_) => d is Committed,
        ToolCall::Link(_) => d is Committed,
        ToolCall::Tag(_) => d is Committed,
        ToolCall::AuditLog(_) => d is Audit,
        ToolCall::PropertiesQuery(_) => d is Rows,
        ToolCall::ListTemplates => d is Templates,
        ToolCall::CreateFromTemplate(_) => d is Created,
        ToolCall::ListTasks(_) => d is Tasks,
        ToolCall::ToggleTask(_) => d is Committed,
        ToolCall::RenameNote(_) => d is Renamed,
        ToolCall::DeleteNote(_) => d is Committed,
        ToolCall::GetVersion(_) => d is Version,
        ToolCall::Capabilities => d is Capabilities,
    }
}

fn committed_data(r: Result<CommitResult, TacitusError>) -> (d: Result<ToolData, TacitusError>)
    ensures
        d == (match r {
            Ok(c) => Ok::<ToolData, TacitusError>(ToolData::Committed(c)),
            Err(e) => Err(e),
        }),
{
    match r {
        Ok(c) => Ok(ToolData::Committed(c)),
        Err(e) => Err(e),
    }
}

/// Why a call is turned away before its tool runs: no such tool, or one that
/// the caller may not use, or arguments that cannot be read.
pub open spec fn call_refused(
    table: Seq<DescriptorView>,
    tool: Seq<char>,
    allow: Option<Seq<Seq<char>>>,
    call: Result<ToolCall, String>,
) -> Option<ErrorView> {
    if find_tool(table, tool) is None {
        Some(
            invalid_input(
                "Unknown tool "@ + debug_text(tool) + "."@,
                "Valid tools: "@ + join(names_of(table), ", "@) + "."@,
            ),
        )
    } else if !is_allowed(allow, tool) {
        Some(
            error(
                "PERMISSION_DENIED"@,
                "Tool "@ + debug_text(tool) + " is not in this plugin's allowlist."@,
                "Declare it under [permissions].tools in tacitus-plugin.toml."@,
            ),
        )
    } else {
        match call {
            Err(e) => Some(
                invalid_input(
                    "Bad arguments: "@ + e@ + "."@,
                    "Match the tool's argument shape in docs/MCP_API.md."@,
                ),
            ),
            Ok(c) => if call_name(c) != tool {
                Some(
                    error(
                        "INTERNAL"@,
                        "Tool "@ + debug_text(tool) + " has no dispatch arm."@,
                        "Report this as a tacitus bug."@,
                    ),
                )
            } else {
                None
            },
        }
    }
}

/// Turns a call away that its tool must not see.
pub(crate) fn gate(
    table: &Vec<ToolDescriptor>,
    tool: &str,
    call: Result<ToolCall, String>,
    allow: Option<&Vec<String>>,
) -> (r: Result<ToolCall, TacitusError>)
    ensures
        match call_refused(descriptors_view(table@), tool@, allow_view(allow), call) {
            Some(e) => r matches Err(x) && x@ == e,
            None => r matches Ok(c) && call == Ok::<ToolCall, String>(c) && call_name(c) == tool@,
        },
{
    if tool_position(table, tool).is_none() {
        let mut reason = "Unknown tool ".to_owned();
        reason.append(quoted(tool).as_str());
        reason.append(".");
        let names = tool_names(table);
        let mut suggestion = "Valid tools: ".to_owned();
        suggestion.append(join_strings(&names, ", ").as_str());
        suggestion.append(".");
        return Err(TacitusError::new("INVALID_INPUT", reason.as_str(), suggestion.as_str()));
    }
    let allowed: bool = match allow {
        Some(names) => has_string(names, tool),
        None => true,
    };
    if !allowed {
        let mut reason = "Tool ".to_owned();
        reason.append(quoted(tool).as_str());
        reason.append(" is not in this plugin's allowlist.");
        return Err(
            TacitusError::new(
                "PERMISSION_DENIED",
                reason.as_str(),
                "Declare it under [permissions].tools in tacitus-plugin.toml.",
            ),
        );
    }
    match call {
        Err(e) => {
            let mut reason = "Bad arguments: ".to_owned();
            reason.append(e.as_str());
            reason.append(".");
            Err(
                TacitusError::new(
                    "INVALID_INPUT",
                    reason.as_str(),
                    "Match the tool's argument shape in docs/MCP_API.md.",
                ),
            )
        },
        Ok(c) => if !str_eq(c.name(), tool) {
            let mut reason = "Tool ".to_owned();
            reason.append(quoted(tool).as_str());
            reason.append(" has no dispatch arm.");
            Err(
                TacitusError::new("INTERNAL", reason.as_str(), "Report this as a tacitus bug."),
            )
        } else {
            Ok(c)
        },
    }
}

impl ToolRegistry {
    /// Runs one tool.
    pub fn run_tool(
        &mut self,
        rec: &mut Records,
        call: ToolCall,
        allow: Option<&Vec<String>>,
        at: &Moment,
    ) -> (r: Result<ToolData, TacitusError>)
        ensures
            tool_ran(
                call,
                allow_view(allow),
                *old(self),
                *final(self),
                *old(rec),
                *final(rec),
                *at,
                r,
            ),
    {
        match call {
            ToolCall::Remember(a) => match self.remember(rec, a, at) {
                Ok(id) => Ok(ToolData::Remembered(id)),
                Err(e) => Err(e),
            },
            ToolCall::Recall(a) => Ok(ToolData::Recalled(self.recall(rec, a))),
            ToolCall::Forget(a) => match self.forget(rec, &a) {
                Ok(b) => Ok(ToolData::Removed(b)),
                Err(e) => Err(e),
            },
            ToolCall::Search(a) => Ok(ToolData::Hits(self.search(rec, &a))),
            ToolCall::GetNote(a) => match self.get_note(rec, &a) {
                Ok(g) => Ok(ToolData::Note(g)),
                Err(e) => Err(e),
            },
            ToolCall::GraphQuery(a) => match self.graph_query(rec, a) {
                Ok(g) => Ok(ToolData::Graph(g)),
                Err(e) => Err(e),
            },
            ToolCall::SuggestLinks(a) => match self.suggest_links(rec, a) {
                Ok(s) => Ok(ToolData::Suggestions(s)),
                Err(e) => Err(e),
            },
            ToolCall::ListNotes => Ok(ToolData::Notes(self.list_notes(rec))),
            ToolCall::ProposeChanges(a) => match self.propose_changes(rec, &a) {
                Ok(p) => Ok(ToolData::Proposed(p)),
                Err(e) => Err(e),
            },
            ToolCall::CommitChanges(a) => {
                let done = self.commit_changes(rec, &a, at);
                committed_data(done)
            },
            ToolCall::Revert(a) => match self.revert(rec, &a, at) {
                Ok(v) => Ok(ToolData::Reverted(v)),
                Err(e) => Err(e),
            },
            ToolCall::CreateNote(a) => {
                let done = self.create_note(rec, &a, at);
                committed_data(done)
            },
            ToolCall::UpdateNote(a) => {
                let done = self.update_note(rec, &a, at);
                committed_data(done)
            },
            ToolCall::Link(a) => {
                let done = self.link(rec, &a, at);
                committed_data(done)
            },
            ToolCall::Tag(a) => {
                let done = self.tag(rec, &a, at);
                committed_data(done)
            },
            ToolCall::AuditLog(a) => Ok(ToolData::Audit(self.audit_log(rec, &a))),
            ToolCall::PropertiesQuery(a) => match self.properties_query(rec, a) {
                Ok(rows) => Ok(ToolData::Rows(rows)),
                Err(e) => Err(e),
            },
            ToolCall::ListTemplates => Ok(ToolData::Templates(self.list_templates(rec))),
            ToolCall::CreateFromTemplate(a) => match self.create_from_template(rec, &a, at) {
                Ok(x) => Ok(ToolData::Created(x.0, x.1)),
                Err(e) => Err(e),
            },
            ToolCall::ListTasks(a) => Ok(ToolData::Tasks(self.list_tasks(rec, a))),
            ToolCall::ToggleTask(a) => {
                let done = self.toggle_task(rec, &a, at);
                committed_data(done)
            },
            ToolCall::RenameNote(a) => match self.rename_note(rec, a, at) {
                Ok(x) => Ok(ToolData::Renamed(x)),
                Err(e) => Err(e),
            },
            ToolCall::DeleteNote(a) => {
                let done = self.delete_note(rec, &a, at);
                committed_data(done)
            },
            ToolCall::GetVersion(a) => match self.get_version(rec, &a) {
                Ok(v) => Ok(ToolData::Version(v)),
                Err(e) => Err(e),
            },
            ToolCall::Capabilities => Ok(ToolData::Capabilities(self.capabilities(allow))),
        }
    }

    /// Runs one tool call by the name of its tool. `call` is what its
    /// arguments were read as, or why they could not be read. Without an
    /// allowlist every tool may be called.
    pub fn dispatch(
        &mut self,
        rec: &mut Records,
        tool: &str,
        call: Result<ToolCall, String>,
        allow: Option<&Vec<String>>,
        at: &Moment,
    ) -> (r: Result<ToolData, TacitusError>)
        ensures
            tool_dispatched(
                tool@,
                call,
                allow_view(allow),
                *old(self),
                *final(self),
                *old(rec),
                *final(rec),
                *at,
                r,
            ),
    {
        let table = tool_descriptors();
        match gate(&table, tool, call, allow) {
            Ok(c) => self.run_tool(rec, c, allow, at),
            Err(e) => Err(e),
        }
    }
}

} // verus!

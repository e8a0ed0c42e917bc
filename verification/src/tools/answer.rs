//! What tools answer, as JSON.
use crate::memory::conflict::{conflicts_view, Conflict, ConflictView};
use crate::memory::recall::{recall_items_view, RecallItem, RecallItemView, RecallResult};
use crate::memory::types::{Memory, MemoryView};
use crate::numbers::{dec, render_u64};
use crate::text::{opt_text, texts};
use crate::tools::registry::{
    err_envelope, err_object, ok_envelope, ok_object, CapabilitiesAnswer, Clip, ClippedChange,
    GraphAnswer, NoteRef, RenameAnswer, SuggestAnswer, ToolData, VersionAnswer,
};
use crate::tools::table::{descriptors_view, DescriptorView, ToolDescriptor};
use crate::error::TacitusError;
use crate::vault::get::{GetNoteResult, GetNoteView, NoteFormat};
use crate::vault::graph::{nodes_view, GraphNode, GraphNodeView};
use crate::vault::json::{
    copy_json_entries, json_entries, json_items, lemma_json_model, Json, JsonNumber,
    JsonNumberView, JsonView,
};
use crate::vault::properties::{rows_view, PropertiesRow, RowView};
use crate::vault::search::{hits_view, SearchHit, SearchHitView};
use crate::vault::suggest::{suggestions_view, LinkSuggestion, SuggestionView};
use crate::vault::tasks::{tasks_view, Task, TaskView};
use crate::vault::template::{templates_view, Template, TemplateView};
use crate::vault::write::{diff_view, DiffEntry, DiffView, PermissionScope};
use crate::vault::writer::{audit_view, AuditEntry, AuditView, Proposal};
use vstd::prelude::*;
use vstd::string::*;

verus! {

// ---------------------------------------------------------------------------
// Values
// ---------------------------------------------------------------------------

/// The bits of the double that `serde_json::Number::as_f64` gives for a whole
/// number.
pub uninterp spec fn whole_bits(n: u64) -> u64;

/// `serde_json::Number::as_f64` of a whole number, as bits. It has a double
/// for every one.
#[verifier::external_body]
fn double_bits(n: u64) -> (r: u64)
    ensures
        r == whole_bits(n),
{
    serde_json::Number::from(n).as_f64().map_or(0, |x| x.to_bits())
}

/// A whole number as JSON.
pub open spec fn whole_json(n: nat) -> JsonView {
    JsonView::Number(JsonNumberView { whole: true, text: dec(n), bits: whole_bits(n as u64) })
}

/// A text, or null.
pub open spec fn opt_json(o: Option<Seq<char>>) -> JsonView {
    match o {
        Some(s) => JsonView::Text(s),
        None => JsonView::Null,
    }
}

/// A list of texts.
pub open spec fn texts_json(v: Seq<Seq<char>>) -> JsonView {
    JsonView::List(v.map_values(|s: Seq<char>| JsonView::Text(s)))
}

fn whole(n: u64) -> (r: Json)
    ensures
        r@ == whole_json(n as nat),
{
    Json::Number(JsonNumber { whole: true, text: render_u64(n), bits: double_bits(n) })
}

fn size(n: usize) -> (r: Json)
    ensures
        r@ == whole_json(n as nat),
{
    whole(n as u64)
}

fn text(s: &str) -> (r: Json)
    ensures
        r@ == JsonView::Text(s@),
{
    Json::Text(s.to_owned())
}

fn opt(o: &Option<String>) -> (r: Json)
    ensures
        r@ == opt_json(opt_text(*o)),
{
    match o {
        Some(s) => Json::Text(s.clone()),
        None => Json::Null,
    }
}

fn list(v: Vec<Json>) -> (r: Json)
    ensures
        r@ == JsonView::List(json_items(v@)),
{
    let r = Json::List(v);
    proof {
        lemma_json_model(r);
    }
    r
}

fn object(v: Vec<(String, Json)>) -> (r: Json)
    ensures
        r@ == JsonView::Object(json_entries(v@)),
{
    let r = Json::Object(v);
    proof {
        lemma_json_model(r);
    }
    r
}

fn field(name: &str, value: Json) -> (r: (String, Json))
    ensures
        r.0@ == name@,
        r.1 == value,
{
    (name.to_owned(), value)
}

fn strings(v: &Vec<String>) -> (r: Json)
    ensures
        r@ == texts_json(texts(v@)),
{
    let ghost want = texts(v@).map_values(|s: Seq<char>| JsonView::Text(s));
    let mut out: Vec<Json> = Vec::new();
    let mut i: usize = 0;
    while i < v.len()
        invariant
            i <= v@.len(),
            want == texts(v@).map_values(|s: Seq<char>| JsonView::Text(s)),
            out@.len() == i,
            forall|k: int| 0 <= k < i ==> (#[trigger] out@[k])@ == want[k],
        decreases v@.len() - i,
    {
        out.push(Json::Text(v[i].clone()));
        i = i + 1;
    }
    assert(json_items(out@) =~= want);
    list(out)
}

/// An object with one entry.
pub open spec fn one(name: Seq<char>, value: JsonView) -> JsonView {
    JsonView::Object(seq![(name, value)])
}

fn single(name: &str, value: Json) -> (r: Json)
    ensures
        r@ == one(name@, value@),
{
    let ghost vv = value@;
    let mut e: Vec<(String, Json)> = Vec::new();
    e.push(field(name, value));
    assert(json_entries(e@) =~= seq![(name@, vv)]);
    object(e)
}

/// The name of a scope.
pub open spec fn scope_name(scope: PermissionScope) -> Seq<char> {
    match scope {
        PermissionScope::ReadOnly => "read-only"@,
        PermissionScope::ReadWrite => "read-write"@,
    }
}

/// The name of a scope.
pub fn scope_str(scope: PermissionScope) -> (r: &'static str)
    ensures
        r@ == scope_name(scope),
{
    match scope {
        PermissionScope::ReadOnly => "read-only",
        PermissionScope::ReadWrite => "read-write",
    }
}

/// The name of a format.
pub open spec fn format_name(f: NoteFormat) -> Seq<char> {
    match f {
        NoteFormat::Outline => "outline"@,
        NoteFormat::FrontmatterOnly => "frontmatter_only"@,
        NoteFormat::Full => "full"@,
    }
}

fn format_str(f: NoteFormat) -> (r: &'static str)
    ensures
        r@ == format_name(f),
{
    match f {
        NoteFormat::Outline => "outline",
        NoteFormat::FrontmatterOnly => "frontmatter_only",
        NoteFormat::Full => "full",
    }
}

// ---------------------------------------------------------------------------
// The parts of answers
// ---------------------------------------------------------------------------

/// An entry that is left out where there is no value.
pub open spec fn when_some(name: Seq<char>, o: Option<Seq<char>>) -> Seq<(Seq<char>, JsonView)> {
    match o {
        Some(s) => seq![(name, JsonView::Text(s))],
        None => seq![],
    }
}

/// A memory as JSON.
pub open spec fn memory_json(m: MemoryView) -> JsonView {
    JsonView::Object(
        seq![
            ("id"@, JsonView::Text(m.id)),
            ("type"@, JsonView::Text(m.memory_type.name())),
            ("content"@, JsonView::Text(m.content)),
            ("tags"@, texts_json(m.tags)),
        ] + when_some("key"@, m.key) + seq![
            (
                "source"@,
                JsonView::Object(
                    seq![
                        ("origin"@, JsonView::Text(m.source.origin)),
                        ("author"@, JsonView::Text(m.source.author.name())),
                        ("timestamp"@, JsonView::Text(m.source.timestamp)),
                    ],
                ),
            ),
        ] + match m.ttl {
            Some(t) => seq![("ttl"@, whole_json(t as nat))],
            None => seq![],
        },
    )
}

fn memory_value(m: &Memory) -> (r: Json)
    ensures
        r@ == memory_json(m@),
{
    let mut source: Vec<(String, Json)> = Vec::new();
    source.push(field("origin", text(m.source.origin.as_str())));
    source.push(field("author", text(m.source.author.as_str())));
    source.push(field("timestamp", text(m.source.timestamp.as_str())));
    let ghost sv = seq![
        ("origin"@, JsonView::Text(m@.source.origin)),
        ("author"@, JsonView::Text(m@.source.author.name())),
        ("timestamp"@, JsonView::Text(m@.source.timestamp)),
    ];
    assert(json_entries(source@) =~= sv);
    let mut e: Vec<(String, Json)> = Vec::new();
    e.push(field("id", text(m.id.as_str())));
    e.push(field("type", text(m.memory_type.as_str())));
    e.push(field("content", text(m.content.as_str())));
    e.push(field("tags", strings(&m.tags)));
    let ghost head = seq![
        ("id"@, JsonView::Text(m@.id)),
        ("type"@, JsonView::Text(m@.memory_type.name())),
        ("content"@, JsonView::Text(m@.content)),
        ("tags"@, texts_json(m@.tags)),
    ];
    assert(json_entries(e@) =~= head);
    match &m.key {
        Some(k) => {
            e.push(field("key", text(k.as_str())));
        },
        None => {},
    }
    let ghost keyed = head + when_some("key"@, m@.key);
    assert(json_entries(e@) =~= keyed);
    e.push(field("source", object(source)));
    let ghost sourced = keyed + seq![("source"@, JsonView::Object(sv))];
    assert(json_entries(e@) =~= sourced);
    match m.ttl {
        Some(t) => {
            e.push(field("ttl", whole(t)));
        },
        None => {},
    }
    assert(json_entries(e@) =~= sourced + match m.ttl {
        Some(t) => seq![("ttl"@, whole_json(t as nat))],
        None => seq![],
    });
    object(e)
}

/// A recalled memory as JSON.
pub open spec fn item_json(i: RecallItemView) -> JsonView {
    JsonView::Object(
        seq![
            ("memory"@, memory_json(i.memory)),
            ("score"@, whole_json(i.score as nat)),
            ("token_count"@, whole_json(i.token_count)),
        ],
    )
}

fn item_value(i: &RecallItem) -> (r: Json)
    ensures
        r@ == item_json(i@),
{
    let mut e: Vec<(String, Json)> = Vec::new();
    e.push(field("memory", memory_value(&i.memory)));
    e.push(field("score", whole(i.score as u64)));
    e.push(field("token_count", size(i.token_count)));
    assert(json_entries(e@) =~= item_json(i@)->Object_0);
    object(e)
}

/// A contradiction as JSON.
pub open spec fn conflict_json(c: ConflictView) -> JsonView {
    JsonView::Object(
        seq![("key"@, JsonView::Text(c.key)), ("memory_ids"@, texts_json(c.memory_ids))],
    )
}

fn conflict_value(c: &Conflict) -> (r: Json)
    ensures
        r@ == conflict_json(c@),
{
    let mut e: Vec<(String, Json)> = Vec::new();
    e.push(field("key", text(c.key.as_str())));
    e.push(field("memory_ids", strings(&c.memory_ids)));
    assert(json_entries(e@) =~= conflict_json(c@)->Object_0);
    object(e)
}

/// A hit as JSON.
pub open spec fn hit_json(h: SearchHitView) -> JsonView {
    JsonView::Object(
        seq![
            ("note_id"@, JsonView::Text(h.note_id)),
            ("title"@, JsonView::Text(h.title)),
            ("score"@, whole_json(h.score as nat)),
            ("snippet"@, JsonView::Text(h.snippet)),
            ("token_count"@, whole_json(h.token_count)),
        ],
    )
}

fn hit_value(h: &SearchHit) -> (r: Json)
    ensures
        r@ == hit_json(h@),
{
    let mut e: Vec<(String, Json)> = Vec::new();
    e.push(field("note_id", text(h.note_id.as_str())));
    e.push(field("title", text(h.title.as_str())));
    e.push(field("score", whole(h.score as u64)));
    e.push(field("snippet", text(h.snippet.as_str())));
    e.push(field("token_count", size(h.token_count)));
    assert(json_entries(e@) =~= hit_json(h@)->Object_0);
    object(e)
}

/// A note as shown, as JSON.
pub open spec fn shown_json(g: GetNoteView) -> JsonView {
    JsonView::Object(
        seq![
            ("note_id"@, JsonView::Text(g.note_id)),
            ("title"@, JsonView::Text(g.title)),
            ("format"@, JsonView::Text(format_name(g.format))),
            ("content"@, JsonView::Text(g.content)),
            ("token_count"@, whole_json(g.token_count)),
            ("truncated"@, JsonView::Bool(g.truncated)),
        ],
    )
}

fn shown_value(g: &GetNoteResult) -> (r: Json)
    ensures
        r@ == shown_json(g@),
{
    let mut e: Vec<(String, Json)> = Vec::new();
    e.push(field("note_id", text(g.note_id.as_str())));
    e.push(field("title", text(g.title.as_str())));
    e.push(field("format", text(format_str(g.format))));
    e.push(field("content", text(g.content.as_str())));
    e.push(field("token_count", size(g.token_count)));
    e.push(field("truncated", Json::Bool(g.truncated)));
    assert(json_entries(e@) =~= shown_json(g@)->Object_0);
    object(e)
}

/// A note of the graph as JSON.
pub open spec fn node_json(n: GraphNodeView) -> JsonView {
    JsonView::Object(
        seq![("note_id"@, JsonView::Text(n.note_id)), ("title"@, JsonView::Text(n.title))],
    )
}

fn node_value(n: &GraphNode) -> (r: Json)
    ensures
        r@ == node_json(n@),
{
    let mut e: Vec<(String, Json)> = Vec::new();
    e.push(field("note_id", text(n.note_id.as_str())));
    e.push(field("title", text(n.title.as_str())));
    assert(json_entries(e@) =~= node_json(n@)->Object_0);
    object(e)
}

/// A suggested link as JSON.
pub open spec fn suggestion_json(s: SuggestionView) -> JsonView {
    JsonView::Object(
        seq![
            ("note_id"@, JsonView::Text(s.note_id)),
            ("title"@, JsonView::Text(s.title)),
            ("score"@, JsonView::Number(s.score)),
            ("reasons"@, texts_json(s.reasons)),
            ("snippet"@, JsonView::Text(s.snippet)),
            ("token_count"@, whole_json(s.token_count)),
        ],
    )
}

fn suggestion_value(s: &LinkSuggestion) -> (r: Json)
    ensures
        r@ == suggestion_json(s@),
{
    let mut e: Vec<(String, Json)> = Vec::new();
    e.push(field("note_id", text(s.note_id.as_str())));
    e.push(field("title", text(s.title.as_str())));
    e.push(field("score", Json::Number(s.score.copy())));
    e.push(field("reasons", strings(&s.reasons)));
    e.push(field("snippet", text(s.snippet.as_str())));
    e.push(field("token_count", size(s.token_count)));
    assert(json_entries(e@) =~= suggestion_json(s@)->Object_0);
    object(e)
}

/// A listed note as JSON.
pub open spec fn note_json(n: NoteRef) -> JsonView {
    JsonView::Object(
        seq![
            ("note_id"@, JsonView::Text(n.note_id@)),
            ("title"@, JsonView::Text(n.title@)),
            ("path"@, JsonView::Text(n.path@)),
        ],
    )
}

fn note_value(n: &NoteRef) -> (r: Json)
    ensures
        r@ == note_json(*n),
{
    let mut e: Vec<(String, Json)> = Vec::new();
    e.push(field("note_id", text(n.note_id.as_str())));
    e.push(field("title", text(n.title.as_str())));
    e.push(field("path", text(n.path.as_str())));
    assert(json_entries(e@) =~= note_json(*n)->Object_0);
    object(e)
}

/// One note of a diff as JSON.
pub open spec fn diff_json(d: DiffView) -> JsonView {
    JsonView::Object(
        seq![
            ("note_id"@, JsonView::Text(d.note_id)),
            ("op"@, JsonView::Text(d.op)),
            ("before"@, opt_json(d.before)),
            ("after"@, opt_json(d.after)),
        ],
    )
}

fn diff_value(d: &DiffEntry) -> (r: Json)
    ensures
        r@ == diff_json(d@),
{
    let mut e: Vec<(String, Json)> = Vec::new();
    e.push(field("note_id", text(d.note_id.as_str())));
    e.push(field("op", text(d.op.as_str())));
    e.push(field("before", opt(&d.before)));
    e.push(field("after", opt(&d.after)));
    assert(json_entries(e@) =~= diff_json(d@)->Object_0);
    object(e)
}

/// An audit entry as JSON.
pub open spec fn audit_json(a: AuditView) -> JsonView {
    JsonView::Object(
        seq![
            ("ts"@, JsonView::Text(a.ts)),
            ("action"@, JsonView::Text(a.action)),
            ("version_id"@, JsonView::Text(a.version_id)),
        ] + when_some("change_id"@, a.change_id) + seq![
            ("notes"@, texts_json(a.notes)),
            ("scope"@, JsonView::Text(scope_name(a.scope))),
        ] + when_some("origin"@, a.origin),
    )
}

fn audit_value(a: &AuditEntry) -> (r: Json)
    ensures
        r@ == audit_json(a@),
{
    let mut e: Vec<(String, Json)> = Vec::new();
    e.push(field("ts", text(a.ts.as_str())));
    e.push(field("action", text(a.action.as_str())));
    e.push(field("version_id", text(a.version_id.as_str())));
    let ghost head = seq![
        ("ts"@, JsonView::Text(a@.ts)),
        ("action"@, JsonView::Text(a@.action)),
        ("version_id"@, JsonView::Text(a@.version_id)),
    ];
    assert(json_entries(e@) =~= head);
    match &a.change_id {
        Some(c) => {
            e.push(field("change_id", text(c.as_str())));
        },
        None => {},
    }
    let ghost changed = head + when_some("change_id"@, a@.change_id);
    assert(json_entries(e@) =~= changed);
    e.push(field("notes", strings(&a.notes)));
    e.push(field("scope", text(scope_str(a.scope))));
    let ghost scoped = changed + seq![
        ("notes"@, texts_json(a@.notes)),
        ("scope"@, JsonView::Text(scope_name(a@.scope))),
    ];
    assert(json_entries(e@) =~= scoped);
    match &a.origin {
        Some(o) => {
            e.push(field("origin", text(o.as_str())));
        },
        None => {},
    }
    assert(json_entries(e@) =~= scoped + when_some("origin"@, a@.origin));
    object(e)
}

/// A row as JSON.
pub open spec fn row_json(w: RowView) -> JsonView {
    JsonView::Object(
        seq![
            ("note_id"@, JsonView::Text(w.note_id)),
            ("title"@, JsonView::Text(w.title)),
            ("properties"@, JsonView::Object(w.properties)),
            ("token_count"@, whole_json(w.token_count)),
        ],
    )
}

fn row_value(w: &PropertiesRow) -> (r: Json)
    ensures
        r@ == row_json(w@),
{
    let mut e: Vec<(String, Json)> = Vec::new();
    e.push(field("note_id", text(w.note_id.as_str())));
    e.push(field("title", text(w.title.as_str())));
    e.push(field("properties", object(copy_json_entries(&w.properties))));
    e.push(field("token_count", size(w.token_count)));
    assert(json_entries(e@) =~= row_json(w@)->Object_0);
    object(e)
}

/// A template as JSON.
pub open spec fn template_json(t: TemplateView) -> JsonView {
    JsonView::Object(seq![("name"@, JsonView::Text(t.name)), ("vars"@, texts_json(t.vars))])
}

fn template_value(t: &Template) -> (r: Json)
    ensures
        r@ == template_json(t@),
{
    let mut e: Vec<(String, Json)> = Vec::new();
    e.push(field("name", text(t.name.as_str())));
    e.push(field("vars", strings(&t.vars)));
    assert(json_entries(e@) =~= template_json(t@)->Object_0);
    object(e)
}

/// A task as JSON.
pub open spec fn task_json(t: TaskView) -> JsonView {
    JsonView::Object(
        seq![
            ("note_id"@, JsonView::Text(t.note_id)),
            ("line"@, whole_json(t.line)),
            ("text"@, JsonView::Text(t.text)),
            ("done"@, JsonView::Bool(t.done)),
            ("due"@, opt_json(t.due)),
            ("tags"@, texts_json(t.tags)),
            ("token_count"@, whole_json(t.token_count)),
        ],
    )
}

fn task_value(t: &Task) -> (r: Json)
    ensures
        r@ == task_json(t@),
{
    let mut e: Vec<(String, Json)> = Vec::new();
    e.push(field("note_id", text(t.note_id.as_str())));
    e.push(field("line", size(t.line)));
    e.push(field("text", text(t.text.as_str())));
    e.push(field("done", Json::Bool(t.done)));
    e.push(field("due", opt(&t.due)));
    e.push(field("tags", strings(&t.tags)));
    e.push(field("token_count", size(t.token_count)));
    assert(json_entries(e@) =~= task_json(t@)->Object_0);
    object(e)
}

/// What is shown of a content, as JSON.
pub open spec fn clip_json(c: Option<Clip>) -> JsonView {
    match c {
        Some(x) => JsonView::Object(
            seq![
                ("content"@, JsonView::Text(x.content@)),
                ("truncated"@, JsonView::Bool(x.truncated)),
            ],
        ),
        None => JsonView::Null,
    }
}

fn clip_value(c: &Option<Clip>) -> (r: Json)
    ensures
        r@ == clip_json(*c),
{
    match c {
        Some(x) => {
            let mut e: Vec<(String, Json)> = Vec::new();
            e.push(field("content", text(x.content.as_str())));
            e.push(field("truncated", Json::Bool(x.truncated)));
            assert(json_entries(e@) =~= clip_json(*c)->Object_0);
            object(e)
        },
        None => Json::Null,
    }
}

/// One note of a version as JSON.
pub open spec fn change_json(c: ClippedChange) -> JsonView {
    JsonView::Object(
        seq![
            ("note_id"@, JsonView::Text(c.note_id@)),
            ("op"@, JsonView::Text(c.op@)),
            ("before"@, clip_json(c.before)),
            ("after"@, clip_json(c.after)),
        ],
    )
}

fn change_value(c: &ClippedChange) -> (r: Json)
    ensures
        r@ == change_json(*c),
{
    let mut e: Vec<(String, Json)> = Vec::new();
    e.push(field("note_id", text(c.note_id.as_str())));
    e.push(field("op", text(c.op.as_str())));
    e.push(field("before", clip_value(&c.before)));
    e.push(field("after", clip_value(&c.after)));
    assert(json_entries(e@) =~= change_json(*c)->Object_0);
    object(e)
}

/// A tool as JSON.
pub open spec fn tool_json(d: DescriptorView) -> JsonView {
    JsonView::Object(
        seq![("name"@, JsonView::Text(d.name)), ("description"@, JsonView::Text(d.description))],
    )
}

fn tool_value(d: &ToolDescriptor) -> (r: Json)
    ensures
        r@ == tool_json(d@),
{
    let mut e: Vec<(String, Json)> = Vec::new();
    e.push(field("name", text(d.name)));
    e.push(field("description", text(d.description)));
    assert(json_entries(e@) =~= tool_json(d@)->Object_0);
    object(e)
}

// ---------------------------------------------------------------------------
// Lists
// ---------------------------------------------------------------------------

fn item_list(v: &Vec<RecallItem>) -> (r: Json)
    ensures
        r@ == JsonView::List(recall_items_view(v@).map_values(|x: RecallItemView| item_json(x))),
{
    let ghost want = recall_items_view(v@).map_values(|x: RecallItemView| item_json(x));
    let mut out: Vec<Json> = Vec::new();
    let mut i: usize = 0;
    while i < v.len()
        invariant
            i <= v@.len(),
            want == recall_items_view(v@).map_values(|x: RecallItemView| item_json(x)),
            out@.len() == i,
            forall|k: int| 0 <= k < i ==> (#[trigger] out@[k])@ == want[k],
        decreases v@.len() - i,
    {
        let made = item_value(&v[i]);
        assert(made@ == want[i as int]);
        out.push(made);
        i = i + 1;
    }
    assert(json_items(out@) =~= want);
    list(out)
}

fn conflict_list(v: &Vec<Conflict>) -> (r: Json)
    ensures
        r@ == JsonView::List(conflicts_view(v@).map_values(|x: ConflictView| conflict_json(x))),
{
    let ghost want = conflicts_view(v@).map_values(|x: ConflictView| conflict_json(x));
    let mut out: Vec<Json> = Vec::new();
    let mut i: usize = 0;
    while i < v.len()
        invariant
            i <= v@.len(),
            want == conflicts_view(v@).map_values(|x: ConflictView| conflict_json(x)),
            out@.len() == i,
            forall|k: int| 0 <= k < i ==> (#[trigger] out@[k])@ == want[k],
        decreases v@.len() - i,
    {
        let made = conflict_value(&v[i]);
        assert(made@ == want[i as int]);
        out.push(made);
        i = i + 1;
    }
    assert(json_items(out@) =~= want);
    list(out)
}

fn hit_list(v: &Vec<SearchHit>) -> (r: Json)
    ensures
        r@ == JsonView::List(hits_view(v@).map_values(|x: SearchHitView| hit_json(x))),
{
    let ghost want = hits_view(v@).map_values(|x: SearchHitView| hit_json(x));
    let mut out: Vec<Json> = Vec::new();
    let mut i: usize = 0;
    while i < v.len()
        invariant
            i <= v@.len(),
            want == hits_view(v@).map_values(|x: SearchHitView| hit_json(x)),
            out@.len() == i,
            forall|k: int| 0 <= k < i ==> (#[trigger] out@[k])@ == want[k],
        decreases v@.len() - i,
    {
        let made = hit_value(&v[i]);
        assert(made@ == want[i as int]);
        out.push(made);
        i = i + 1;
    }
    assert(json_items(out@) =~= want);
    list(out)
}

fn node_list(v: &Vec<GraphNode>) -> (r: Json)
    ensures
        r@ == JsonView::List(nodes_view(v@).map_values(|x: GraphNodeView| node_json(x))),
{
    let ghost want = nodes_view(v@).map_values(|x: GraphNodeView| node_json(x));
    let mut out: Vec<Json> = Vec::new();
    let mut i: usize = 0;
    while i < v.len()
        invariant
            i <= v@.len(),
            want == nodes_view(v@).map_values(|x: GraphNodeView| node_json(x)),
            out@.len() == i,
            forall|k: int| 0 <= k < i ==> (#[trigger] out@[k])@ == want[k],
        decreases v@.len() - i,
    {
        let made = node_value(&v[i]);
        assert(made@ == want[i as int]);
        out.push(made);
        i = i + 1;
    }
    assert(json_items(out@) =~= want);
    list(out)
}

fn suggestion_list(v: &Vec<LinkSuggestion>) -> (r: Json)
    ensures
        r@ == JsonView::List(suggestions_view(v@).map_values(|x: SuggestionView| suggestion_json(x))),
{
    let ghost want = suggestions_view(v@).map_values(|x: SuggestionView| suggestion_json(x));
    let mut out: Vec<Json> = Vec::new();
    let mut i: usize = 0;
    while i < v.len()
        invariant
            i <= v@.len(),
            want == suggestions_view(v@).map_values(|x: SuggestionView| suggestion_json(x)),
            out@.len() == i,
            forall|k: int| 0 <= k < i ==> (#[trigger] out@[k])@ == want[k],
        decreases v@.len() - i,
    {
        let made = suggestion_value(&v[i]);
        assert(made@ == want[i as int]);
        out.push(made);
        i = i + 1;
    }
    assert(json_items(out@) =~= want);
    list(out)
}

fn note_list(v: &Vec<NoteRef>) -> (r: Json)
    ensures
        r@ == JsonView::List(v@.map_values(|x: NoteRef| note_json(x))),
{
    let ghost want = v@.map_values(|x: NoteRef| note_json(x));
    let mut out: Vec<Json> = Vec::new();
    let mut i: usize = 0;
    while i < v.len()
        invariant
            i <= v@.len(),
            want == v@.map_values(|x: NoteRef| note_json(x)),
            out@.len() == i,
            forall|k: int| 0 <= k < i ==> (#[trigger] out@[k])@ == want[k],
        decreases v@.len() - i,
    {
        let made = note_value(&v[i]);
        assert(made@ == want[i as int]);
        out.push(made);
        i = i + 1;
    }
    assert(json_items(out@) =~= want);
    list(out)
}

fn diff_list(v: &Vec<DiffEntry>) -> (r: Json)
    ensures
        r@ == JsonView::List(diff_view(v@).map_values(|x: DiffView| diff_json(x))),
{
    let ghost want = diff_view(v@).map_values(|x: DiffView| diff_json(x));
    let mut out: Vec<Json> = Vec::new();
    let mut i: usize = 0;
    while i < v.len()
        invariant
            i <= v@.len(),
            want == diff_view(v@).map_values(|x: DiffView| diff_json(x)),
            out@.len() == i,
            forall|k: int| 0 <= k < i ==> (#[trigger] out@[k])@ == want[k],
        decreases v@.len() - i,
    {
        let made = diff_value(&v[i]);
        assert(made@ == want[i as int]);
        out.push(made);
        i = i + 1;
    }
    assert(json_items(out@) =~= want);
    list(out)
}

fn audit_list(v: &Vec<AuditEntry>) -> (r: Json)
    ensures
        r@ == JsonView::List(audit_view(v@).map_values(|x: AuditView| audit_json(x))),
{
    let ghost want = audit_view(v@).map_values(|x: AuditView| audit_json(x));
    let mut out: Vec<Json> = Vec::new();
    let mut i: usize = 0;
    while i < v.len()
        invariant
            i <= v@.len(),
            want == audit_view(v@).map_values(|x: AuditView| audit_json(x)),
            out@.len() == i,
            forall|k: int| 0 <= k < i ==> (#[trigger] out@[k])@ == want[k],
        decreases v@.len() - i,
    {
        let made = audit_value(&v[i]);
        assert(made@ == want[i as int]);
        out.push(made);
        i = i + 1;
    }
    assert(json_items(out@) =~= want);
    list(out)
}

fn row_list(v: &Vec<PropertiesRow>) -> (r: Json)
    ensures
        r@ == JsonView::List(rows_view(v@).map_values(|x: RowView| row_json(x))),
{
    let ghost want = rows_view(v@).map_values(|x: RowView| row_json(x));
    let mut out: Vec<Json> = Vec::new();
    let mut i: usize = 0;
    while i < v.len()
        invariant
            i <= v@.len(),
            want == rows_view(v@).map_values(|x: RowView| row_json(x)),
            out@.len() == i,
            forall|k: int| 0 <= k < i ==> (#[trigger] out@[k])@ == want[k],
        decreases v@.len() - i,
    {
        let made = row_value(&v[i]);
        assert(made@ == want[i as int]);
        out.push(made);
        i = i + 1;
    }
    assert(json_items(out@) =~= want);
    list(out)
}

fn template_list(v: &Vec<Template>) -> (r: Json)
    ensures
        r@ == JsonView::List(templates_view(v@).map_values(|x: TemplateView| template_json(x))),
{
    let ghost want = templates_view(v@).map_values(|x: TemplateView| template_json(x));
    let mut out: Vec<Json> = Vec::new();
    let mut i: usize = 0;
    while i < v.len()
        invariant
            i <= v@.len(),
            want == templates_view(v@).map_values(|x: TemplateView| template_json(x)),
            out@.len() == i,
            forall|k: int| 0 <= k < i ==> (#[trigger] out@[k])@ == want[k],
        decreases v@.len() - i,
    {
        let made = template_value(&v[i]);
        assert(made@ == want[i as int]);
        out.push(made);
        i = i + 1;
    }
    assert(json_items(out@) =~= want);
    list(out)
}

fn task_list(v: &Vec<Task>) -> (r: Json)
    ensures
        r@ == JsonView::List(tasks_view(v@).map_values(|x: TaskView| task_json(x))),
{
    let ghost want = tasks_view(v@).map_values(|x: TaskView| task_json(x));
    let mut out: Vec<Json> = Vec::new();
    let mut i: usize = 0;
    while i < v.len()
        invariant
            i <= v@.len(),
            want == tasks_view(v@).map_values(|x: TaskView| task_json(x)),
            out@.len() == i,
            forall|k: int| 0 <= k < i ==> (#[trigger] out@[k])@ == want[k],
        decreases v@.len() - i,
    {
        let made = task_value(&v[i]);
        assert(made@ == want[i as int]);
        out.push(made);
        i = i + 1;
    }
    assert(json_items(out@) =~= want);
    list(out)
}

fn change_list(v: &Vec<ClippedChange>) -> (r: Json)
    ensures
        r@ == JsonView::List(v@.map_values(|x: ClippedChange| change_json(x))),
{
    let ghost want = v@.map_values(|x: ClippedChange| change_json(x));
    let mut out: Vec<Json> = Vec::new();
    let mut i: usize = 0;
    while i < v.len()
        invariant
            i <= v@.len(),
            want == v@.map_values(|x: ClippedChange| change_json(x)),
            out@.len() == i,
            forall|k: int| 0 <= k < i ==> (#[trigger] out@[k])@ == want[k],
        decreases v@.len() - i,
    {
        let made = change_value(&v[i]);
        assert(made@ == want[i as int]);
        out.push(made);
        i = i + 1;
    }
    assert(json_items(out@) =~= want);
    list(out)
}

fn tool_list(v: &Vec<ToolDescriptor>) -> (r: Json)
    ensures
        r@ == JsonView::List(descriptors_view(v@).map_values(|x: DescriptorView| tool_json(x))),
{
    let ghost want = descriptors_view(v@).map_values(|x: DescriptorView| tool_json(x));
    let mut out: Vec<Json> = Vec::new();
    let mut i: usize = 0;
    while i < v.len()
        invariant
            i <= v@.len(),
            want == descriptors_view(v@).map_values(|x: DescriptorView| tool_json(x)),
            out@.len() == i,
            forall|k: int| 0 <= k < i ==> (#[trigger] out@[k])@ == want[k],
        decreases v@.len() - i,
    {
        let made = tool_value(&v[i]);
        assert(made@ == want[i as int]);
        out.push(made);
        i = i + 1;
    }
    assert(json_items(out@) =~= want);
    list(out)
}

// ---------------------------------------------------------------------------
// Answers
// ---------------------------------------------------------------------------

fn recalled(r: &RecallResult) -> (j: Json)
    ensures
        j@ == recalled_json(*r),
{
    let mut e: Vec<(String, Json)> = Vec::new();
    e.push(field("items", item_list(&r.items)));
    e.push(field("conflicts", conflict_list(&r.conflicts)));
    assert(json_entries(e@) =~= recalled_json(*r)->Object_0);
    object(e)
}

/// What recall answers, as JSON.
pub open spec fn recalled_json(r: RecallResult) -> JsonView {
    JsonView::Object(
        seq![
            (
                "items"@,
                JsonView::List(
                    recall_items_view(r.items@).map_values(|x: RecallItemView| item_json(x)),
                ),
            ),
            (
                "conflicts"@,
                JsonView::List(
                    conflicts_view(r.conflicts@).map_values(|x: ConflictView| conflict_json(x)),
                ),
            ),
        ],
    )
}

/// What graph_query answers, as JSON.
pub open spec fn graph_json(g: GraphAnswer) -> JsonView {
    JsonView::Object(
        seq![
            ("from"@, JsonView::Text(g.from@)),
            ("relation"@, JsonView::Text(g.relation@)),
            (
                "nodes"@,
                JsonView::List(nodes_view(g.nodes@).map_values(|x: GraphNodeView| node_json(x))),
            ),
        ],
    )
}

fn graph(g: &GraphAnswer) -> (j: Json)
    ensures
        j@ == graph_json(*g),
{
    let mut e: Vec<(String, Json)> = Vec::new();
    e.push(field("from", text(g.from.as_str())));
    e.push(field("relation", text(g.relation.as_str())));
    e.push(field("nodes", node_list(&g.nodes)));
    assert(json_entries(e@) =~= graph_json(*g)->Object_0);
    object(e)
}

/// What suggest_links answers, as JSON.
pub open spec fn suggested_json(s: SuggestAnswer) -> JsonView {
    JsonView::Object(
        seq![
            ("note_id"@, JsonView::Text(s.note_id@)),
            (
                "suggestions"@,
                JsonView::List(
                    suggestions_view(s.suggestions@).map_values(
                        |x: SuggestionView| suggestion_json(x),
                    ),
                ),
            ),
        ],
    )
}

fn suggested(s: &SuggestAnswer) -> (j: Json)
    ensures
        j@ == suggested_json(*s),
{
    let mut e: Vec<(String, Json)> = Vec::new();
    e.push(field("note_id", text(s.note_id.as_str())));
    e.push(field("suggestions", suggestion_list(&s.suggestions)));
    assert(json_entries(e@) =~= suggested_json(*s)->Object_0);
    object(e)
}

/// A proposal as JSON.
pub open spec fn proposal_json(p: Proposal) -> JsonView {
    JsonView::Object(
        seq![
            ("change_id"@, JsonView::Text(p.change_id@)),
            ("diff"@, JsonView::List(diff_view(p.diff@).map_values(|x: DiffView| diff_json(x)))),
        ],
    )
}

fn proposal(p: &Proposal) -> (j: Json)
    ensures
        j@ == proposal_json(*p),
{
    let mut e: Vec<(String, Json)> = Vec::new();
    e.push(field("change_id", text(p.change_id.as_str())));
    e.push(field("diff", diff_list(&p.diff)));
    assert(json_entries(e@) =~= proposal_json(*p)->Object_0);
    object(e)
}

/// What rename_note answers, as JSON.
pub open spec fn renamed_json(x: RenameAnswer) -> JsonView {
    JsonView::Object(
        seq![
            ("version_id"@, JsonView::Text(x.version_id@)),
            ("from"@, JsonView::Text(x.from@)),
            ("to"@, JsonView::Text(x.to@)),
            ("links_updated_in"@, whole_json(x.links_updated_in as nat)),
        ],
    )
}

fn renamed(x: &RenameAnswer) -> (j: Json)
    ensures
        j@ == renamed_json(*x),
{
    let mut e: Vec<(String, Json)> = Vec::new();
    e.push(field("version_id", text(x.version_id.as_str())));
    e.push(field("from", text(x.from.as_str())));
    e.push(field("to", text(x.to.as_str())));
    e.push(field("links_updated_in", size(x.links_updated_in)));
    assert(json_entries(e@) =~= renamed_json(*x)->Object_0);
    object(e)
}

/// What get_version answers, as JSON.
pub open spec fn version_json(v: VersionAnswer) -> JsonView {
    JsonView::Object(
        seq![
            ("version_id"@, JsonView::Text(v.version_id@)),
            ("change_id"@, JsonView::Text(v.change_id@)),
            ("notes"@, JsonView::List(v.notes@.map_values(|x: ClippedChange| change_json(x)))),
        ],
    )
}

fn version(v: &VersionAnswer) -> (j: Json)
    ensures
        j@ == version_json(*v),
{
    let mut e: Vec<(String, Json)> = Vec::new();
    e.push(field("version_id", text(v.version_id.as_str())));
    e.push(field("change_id", text(v.change_id.as_str())));
    e.push(field("notes", change_list(&v.notes)));
    assert(json_entries(e@) =~= version_json(*v)->Object_0);
    object(e)
}

/// What capabilities answers, as JSON.
pub open spec fn capabilities_json(c: CapabilitiesAnswer) -> JsonView {
    JsonView::Object(
        seq![
            ("server"@, JsonView::Text(c.server@)),
            ("version"@, JsonView::Text(c.version@)),
            (
                "tools"@,
                JsonView::List(
                    descriptors_view(c.tools@).map_values(|x: DescriptorView| tool_json(x)),
                ),
            ),
            ("permissions"@, one("scope"@, JsonView::Text(scope_name(c.scope)))),
        ],
    )
}

fn capabilities(c: &CapabilitiesAnswer) -> (j: Json)
    ensures
        j@ == capabilities_json(*c),
{
    let mut e: Vec<(String, Json)> = Vec::new();
    e.push(field("server", text(c.server.as_str())));
    e.push(field("version", text(c.version.as_str())));
    e.push(field("tools", tool_list(&c.tools)));
    e.push(field("permissions", single("scope", text(scope_str(c.scope)))));
    assert(json_entries(e@) =~= capabilities_json(*c)->Object_0);
    object(e)
}

/// The data that a tool answers, as JSON.
pub open spec fn data_json(d: ToolData) -> JsonView {
    match d {
        ToolData::Remembered(id) => one("memory_id"@, JsonView::Text(id@)),
        ToolData::Recalled(r) => recalled_json(r),
        ToolData::Removed(b) => one("removed"@, JsonView::Bool(b)),
        ToolData::Hits(v) => one(
            "hits"@,
            JsonView::List(hits_view(v@).map_values(|x: SearchHitView| hit_json(x))),
        ),
        ToolData::Note(g) => shown_json(g@),
        ToolData::Graph(g) => graph_json(g),
        ToolData::Suggestions(s) => suggested_json(s),
        ToolData::Notes(v) => one(
            "notes"@,
            JsonView::List(v@.map_values(|x: NoteRef| note_json(x))),
        ),
        ToolData::Proposed(p) => proposal_json(p),
        ToolData::Committed(c) => one("version_id"@, JsonView::Text(c.version_id@)),
        ToolData::Reverted(v) => JsonView::Object(
            seq![
                ("reverted"@, JsonView::Bool(v.reverted)),
                ("version_id"@, JsonView::Text(v.version_id@)),
            ],
        ),
        ToolData::Audit(v) => one(
            "entries"@,
            JsonView::List(audit_view(v@).map_values(|x: AuditView| audit_json(x))),
        ),
        ToolData::Rows(v) => one(
            "rows"@,
            JsonView::List(rows_view(v@).map_values(|x: RowView| row_json(x))),
        ),
        ToolData::Templates(v) => one(
            "templates"@,
            JsonView::List(templates_view(v@).map_values(|x: TemplateView| template_json(x))),
        ),
        ToolData::Created(c, id) => JsonView::Object(
            seq![
                ("version_id"@, JsonView::Text(c.version_id@)),
                ("note_id"@, JsonView::Text(id@)),
            ],
        ),
        ToolData::Tasks(v) => one(
            "tasks"@,
            JsonView::List(tasks_view(v@).map_values(|x: TaskView| task_json(x))),
        ),
        ToolData::Renamed(x) => renamed_json(x),
        ToolData::Version(v) => version_json(v),
        ToolData::Capabilities(c) => capabilities_json(c),
    }
}

impl ToolData {
    /// The data as JSON.
    pub fn to_json(&self) -> (r: Json)
        ensures
            r@ == data_json(*self),
    {
        match self {
            ToolData::Remembered(id) => single("memory_id", text(id.as_str())),
            ToolData::Recalled(r) => recalled(r),
            ToolData::Removed(b) => single("removed", Json::Bool(*b)),
            ToolData::Hits(v) => single("hits", hit_list(v)),
            ToolData::Note(g) => shown_value(g),
            ToolData::Graph(g) => graph(g),
            ToolData::Suggestions(s) => suggested(s),
            ToolData::Notes(v) => single("notes", note_list(v)),
            ToolData::Proposed(p) => proposal(p),
            ToolData::Committed(c) => single("version_id", text(c.version_id.as_str())),
            ToolData::Reverted(v) => {
                let mut e: Vec<(String, Json)> = Vec::new();
                e.push(field("reverted", Json::Bool(v.reverted)));
                e.push(field("version_id", text(v.version_id.as_str())));
                assert(json_entries(e@) =~= data_json(*self)->Object_0);
                object(e)
            },
            ToolData::Audit(v) => single("entries", audit_list(v)),
            ToolData::Rows(v) => single("rows", row_list(v)),
            ToolData::Templates(v) => single("templates", template_list(v)),
            ToolData::Created(c, id) => {
                let mut e: Vec<(String, Json)> = Vec::new();
                e.push(field("version_id", text(c.version_id.as_str())));
                e.push(field("note_id", text(id.as_str())));
                assert(json_entries(e@) =~= data_json(*self)->Object_0);
                object(e)
            },
            ToolData::Tasks(v) => single("tasks", task_list(v)),
            ToolData::Renamed(x) => renamed(x),
            ToolData::Version(v) => version(v),
            ToolData::Capabilities(c) => capabilities(c),
        }
    }
}

/// The envelope of what a call came to.
pub open spec fn envelope_of(r: Result<ToolData, TacitusError>) -> JsonView {
    match r {
        Ok(d) => ok_object(data_json(d)),
        Err(e) => err_object(e@),
    }
}

/// The envelope of what a call came to: `{ ok: true, data }` or
/// `{ ok: false, error }`.
pub fn envelope(r: &Result<ToolData, TacitusError>) -> (j: Json)
    ensures
        j@ == envelope_of(*r),
{
    match r {
        Ok(d) => ok_envelope(d.to_json()),
        Err(e) => err_envelope(e),
    }
}

} // verus!

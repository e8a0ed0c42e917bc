//! The tools: what each is called, whether it writes, and what it does.
use crate::text::{str_eq, texts};
use vstd::prelude::*;
use vstd::string::*;

verus! {

/// What is known of a tool.
#[derive(Debug)]
pub struct ToolDescriptor {
    pub name: &'static str,
    /// Tools that write need a read-write scope.
    pub writes: bool,
    pub description: &'static str,
}

/// The model of what is known of a tool.
#[verifier::ext_equal]
pub struct DescriptorView {
    pub name: Seq<char>,
    pub writes: bool,
    pub description: Seq<char>,
}

impl View for ToolDescriptor {
    type V = DescriptorView;

    open spec fn view(&self) -> DescriptorView {
        DescriptorView {
            name: self.name@,
            writes: self.writes,
            description: self.description@,
        }
    }
}

pub open spec fn descriptors_view(v: Seq<ToolDescriptor>) -> Seq<DescriptorView> {
    v.map_values(|d: ToolDescriptor| d@)
}

/// The names of tools.
pub open spec fn names_of(t: Seq<DescriptorView>) -> Seq<Seq<char>> {
    t.map_values(|d: DescriptorView| d.name)
}

fn describe(name: &'static str, writes: bool, description: &'static str) -> (r: ToolDescriptor)
    ensures
        r@ == (DescriptorView { name: name@, writes, description: description@ }),
{
    ToolDescriptor { name, writes, description }
}

/// The names of tools.
pub(crate) fn tool_names(table: &Vec<ToolDescriptor>) -> (r: Vec<String>)
    ensures
        texts(r@) == names_of(descriptors_view(table@)),
{
    let ghost want = names_of(descriptors_view(table@));
    let mut out: Vec<String> = Vec::new();
    let mut i: usize = 0;
    assert(texts(out@) =~= want.take(0));
    while i < table.len()
        invariant
            i <= table@.len(),
            want == names_of(descriptors_view(table@)),
            texts(out@) == want.take(i as int),
        decreases table@.len() - i,
    {
        let ghost prev = texts(out@);
        out.push(table[i].name.to_owned());
        assert(texts(out@) =~= prev.push(want[i as int]));
        assert(want.take(i + 1) =~= want.take(i as int).push(want[i as int]));
        i = i + 1;
    }
    assert(want.take(i as int) =~= want);
    out
}

/// Where a tool stands in a table.
pub open spec fn find_tool_from(t: Seq<DescriptorView>, name: Seq<char>, i: int) -> Option<int>
    decreases t.len() - i,
{
    if i < 0 || i >= t.len() {
        None
    } else if t[i].name == name {
        Some(i)
    } else {
        find_tool_from(t, name, i + 1)
    }
}

/// Where a tool stands in a table.
pub open spec fn find_tool(t: Seq<DescriptorView>, name: Seq<char>) -> Option<int> {
    find_tool_from(t, name, 0)
}

/// Where a tool stands in a table.
pub(crate) fn tool_position(table: &Vec<ToolDescriptor>, name: &str) -> (r: Option<usize>)
    ensures
        match r {
            Some(i) => find_tool(descriptors_view(table@), name@) == Some(i as int) && i
                < table@.len(),
            None => find_tool(descriptors_view(table@), name@) is None,
        },
{
    let ghost t = descriptors_view(table@);
    let mut i: usize = 0;
    while i < table.len()
        invariant
            i <= table@.len(),
            t == descriptors_view(table@),
            find_tool(t, name@) == find_tool_from(t, name@, i as int),
        decreases table@.len() - i,
    {
        assert(t[i as int] == table@[i as int]@);
        if str_eq(table[i].name, name) {
            return Some(i);
        }
        i = i + 1;
    }
    None
}

/// All tools, in the order in which the server defines them.
pub open spec fn tool_table() -> Seq<DescriptorView> {
    seq![
        DescriptorView {
            name: "remember"@,
            writes: true,
            description: "Store a typed memory (user|feedback|project|reference) with mandatory provenance. Idempotent for identical content+source."@,
        },
        DescriptorView {
            name: "recall"@,
            writes: false,
            description: "Recall memories relevant to a query, ranked, within an optional token_budget. Surfaces conflicting memories instead of silently choosing."@,
        },
        DescriptorView {
            name: "forget"@,
            writes: true,
            description: "Delete a memory by id. Returns whether a memory was removed."@,
        },
        DescriptorView {
            name: "search"@,
            writes: false,
            description: "Search vault notes by relevance; ranked snippets within an optional token_budget (never whole notes). mode: hybrid (default) | lexical | semantic. Expand with get_note."@,
        },
        DescriptorView {
            name: "get_note"@,
            writes: false,
            description: "Fetch a note progressively: outline | frontmatter_only | full, with an optional max_tokens ceiling."@,
        },
        DescriptorView {
            name: "graph_query"@,
            writes: false,
            description: "Traverse the wikilink graph: links (outgoing) | backlinks | neighbors (both directions, to depth)."@,
        },
        DescriptorView {
            name: "suggest_links"@,
            writes: false,
            description: "Suggest [[wikilinks]] a note is missing: ranked candidates it doesn't link to yet, scored by title mentions in the note, semantic similarity, shared tags, and existing backlinks — each with machine-readable reasons. Bounded by top_k/min_score/token_budget."@,
        },
        DescriptorView {
            name: "list_notes"@,
            writes: false,
            description: "List all note ids with their titles and paths."@,
        },
        DescriptorView {
            name: "propose_changes"@,
            writes: false,
            description: "Dry-run a changeset (create/update/delete notes). Returns a change_id and a before/after diff. Nothing is written until commit_changes."@,
        },
        DescriptorView {
            name: "commit_changes"@,
            writes: true,
            description: "Atomically apply a previously proposed change_id (all-or-nothing). Returns a version_id usable with revert."@,
        },
        DescriptorView {
            name: "revert"@,
            writes: true,
            description: "Undo a committed change by version_id, restoring the prior note state."@,
        },
        DescriptorView {
            name: "create_note"@,
            writes: true,
            description: "Create a note (auto-committed). Fails if it already exists. Returns a version_id."@,
        },
        DescriptorView {
            name: "update_note"@,
            writes: true,
            description: "Update a note body and/or frontmatter (auto-committed). Returns a version_id."@,
        },
        DescriptorView {
            name: "link"@,
            writes: true,
            description: "Append a [[to]] wikilink to the `from` note (idempotent). Returns a version_id."@,
        },
        DescriptorView {
            name: "tag"@,
            writes: true,
            description: "Add a tag to a note (deduplicated). Returns a version_id."@,
        },
        DescriptorView {
            name: "audit_log"@,
            writes: false,
            description: "Read recent agent actions (commits/reverts), most recent first."@,
        },
        DescriptorView {
            name: "properties_query"@,
            writes: false,
            description: "Query notes by typed frontmatter properties (Bases-like). filters are AND-ed {key, op: eq|ne|contains|exists|not_exists|gt|lt|gte|lte, value}; contains = array membership or substring; gt/lt work on numbers and ISO dates. Optional select (project keys), sort_by/descending, limit (default 50), token_budget."@,
        },
        DescriptorView {
            name: "list_templates"@,
            writes: false,
            description: "List note templates (.tacitus/templates/*.md) with the vars each requires. Builtins {{date}}/{{time}}/{{datetime}} auto-fill."@,
        },
        DescriptorView {
            name: "create_from_template"@,
            writes: true,
            description: "Create a note from a template (auto-committed, versioned, audited). Substitution happens before YAML parsing, so numeric vars stay typed. Returns a version_id."@,
        },
        DescriptorView {
            name: "list_tasks"@,
            writes: false,
            description: "List tasks (checklist lines) across the vault as typed entities: text, done, due (from due:YYYY-MM-DD or 📅 YYYY-MM-DD), #tags. Filter by done/due_before/due_after/tag/note_id; sorted by due date; bounded by limit + token_budget."@,
        },
        DescriptorView {
            name: "toggle_task"@,
            writes: true,
            description: "Flip a task's checkbox (versioned + audited). Pass the line and text exactly as returned by list_tasks — if the line changed since, you get a CONFLICT instead of toggling the wrong task."@,
        },
        DescriptorView {
            name: "rename_note"@,
            writes: true,
            description: "Rename a note AND retarget every wikilink that resolves to it (alias/heading kept) — one atomic, versioned changeset; a single revert undoes the whole rename."@,
        },
        DescriptorView {
            name: "delete_note"@,
            writes: true,
            description: "Delete a note (versioned + audited — revert restores it)."@,
        },
        DescriptorView {
            name: "get_version"@,
            writes: false,
            description: "Inspect a committed version: which notes it created/updated/deleted (default), plus each note's before/after when include_content=true (truncated to max_tokens each, default 500). Pairs with audit_log and revert."@,
        },
        DescriptorView {
            name: "capabilities"@,
            writes: false,
            description: "List available tools and the current permission scope."@,
        },
    ]
}

/// All tools, in the order in which the server defines them.
pub fn tool_descriptors() -> (r: Vec<ToolDescriptor>)
    ensures
        descriptors_view(r@) == tool_table(),
        r@.len() == 25,
{
    let mut out: Vec<ToolDescriptor> = Vec::new();
    out.push(
        describe(
            "remember",
            true,
            "Store a typed memory (user|feedback|project|reference) with mandatory provenance. Idempotent for identical content+source.",
        ),
    );
    out.push(
        describe(
            "recall",
            false,
            "Recall memories relevant to a query, ranked, within an optional token_budget. Surfaces conflicting memories instead of silently choosing.",
        ),
    );
    out.push(
        describe(
            "forget",
            true,
            "Delete a memory by id. Returns whether a memory was removed.",
        ),
    );
    out.push(
        describe(
            "search",
            false,
            "Search vault notes by relevance; ranked snippets within an optional token_budget (never whole notes). mode: hybrid (default) | lexical | semantic. Expand with get_note.",
        ),
    );
    out.push(
        describe(
            "get_note",
            false,
            "Fetch a note progressively: outline | frontmatter_only | full, with an optional max_tokens ceiling.",
        ),
    );
    out.push(
        describe(
            "graph_query",
            false,
            "Traverse the wikilink graph: links (outgoing) | backlinks | neighbors (both directions, to depth).",
        ),
    );
    out.push(
        describe(
            "suggest_links",
            false,
            "Suggest [[wikilinks]] a note is missing: ranked candidates it doesn't link to yet, scored by title mentions in the note, semantic similarity, shared tags, and existing backlinks — each with machine-readable reasons. Bounded by top_k/min_score/token_budget.",
        ),
    );
    out.push(
        describe(
            "list_notes",
            false,
            "List all note ids with their titles and paths.",
        ),
    );
    out.push(
        describe(
            "propose_changes",
            false,
            "Dry-run a changeset (create/update/delete notes). Returns a change_id and a before/after diff. Nothing is written until commit_changes.",
        ),
    );
    out.push(
        describe(
            "commit_changes",
            true,
            "Atomically apply a previously proposed change_id (all-or-nothing). Returns a version_id usable with revert.",
        ),
    );
    out.push(
        describe(
            "revert",
            true,
            "Undo a committed change by version_id, restoring the prior note state.",
        ),
    );
    out.push(
        describe(
            "create_note",
            true,
            "Create a note (auto-committed). Fails if it already exists. Returns a version_id.",
        ),
    );
    out.push(
        describe(
            "update_note",
            true,
            "Update a note body and/or frontmatter (auto-committed). Returns a version_id.",
        ),
    );
    out.push(
        describe(
            "link",
            true,
            "Append a [[to]] wikilink to the `from` note (idempotent). Returns a version_id.",
        ),
    );
    out.push(
        describe(
            "tag",
            true,
            "Add a tag to a note (deduplicated). Returns a version_id.",
        ),
    );
    out.push(
        describe(
            "audit_log",
            false,
            "Read recent agent actions (commits/reverts), most recent first.",
        ),
    );
    out.push(
        describe(
            "properties_query",
            false,
            "Query notes by typed frontmatter properties (Bases-like). filters are AND-ed {key, op: eq|ne|contains|exists|not_exists|gt|lt|gte|lte, value}; contains = array membership or substring; gt/lt work on numbers and ISO dates. Optional select (project keys), sort_by/descending, limit (default 50), token_budget.",
        ),
    );
    out.push(
        describe(
            "list_templates",
            false,
            "List note templates (.tacitus/templates/*.md) with the vars each requires. Builtins {{date}}/{{time}}/{{datetime}} auto-fill.",
        ),
    );
    out.push(
        describe(
            "create_from_template",
            true,
            "Create a note from a template (auto-committed, versioned, audited). Substitution happens before YAML parsing, so numeric vars stay typed. Returns a version_id.",
        ),
    );
    out.push(
        describe(
            "list_tasks",
            false,
            "List tasks (checklist lines) across the vault as typed entities: text, done, due (from due:YYYY-MM-DD or 📅 YYYY-MM-DD), #tags. Filter by done/due_before/due_after/tag/note_id; sorted by due date; bounded by limit + token_budget.",
        ),
    );
    out.push(
        describe(
            "toggle_task",
            true,
            "Flip a task's checkbox (versioned + audited). Pass the line and text exactly as returned by list_tasks — if the line changed since, you get a CONFLICT instead of toggling the wrong task.",
        ),
    );
    out.push(
        describe(
            "rename_note",
            true,
            "Rename a note AND retarget every wikilink that resolves to it (alias/heading kept) — one atomic, versioned changeset; a single revert undoes the whole rename.",
        ),
    );
    out.push(
        describe(
            "delete_note",
            true,
            "Delete a note (versioned + audited — revert restores it).",
        ),
    );
    out.push(
        describe(
            "get_version",
            false,
            "Inspect a committed version: which notes it created/updated/deleted (default), plus each note's before/after when include_content=true (truncated to max_tokens each, default 500). Pairs with audit_log and revert.",
        ),
    );
    out.push(
        describe(
            "capabilities",
            false,
            "List available tools and the current permission scope.",
        ),
    );
    assert(descriptors_view(out@) =~= tool_table());
    out
}

/// The tools that a plugin can reach.
pub open spec fn plugin_table() -> Seq<DescriptorView> {
    seq![
        DescriptorView {
            name: "capabilities"@,
            writes: false,
            description: "List the tools this plugin may call and its permission scope."@,
        },
        DescriptorView {
            name: "search"@,
            writes: false,
            description: "Search vault notes by relevance; ranked snippets within a token_budget."@,
        },
        DescriptorView {
            name: "get_note"@,
            writes: false,
            description: "Fetch a note progressively: outline | frontmatter_only | full."@,
        },
        DescriptorView {
            name: "list_notes"@,
            writes: false,
            description: "List all note ids with their titles and paths."@,
        },
        DescriptorView {
            name: "graph_query"@,
            writes: false,
            description: "Traverse the wikilink graph: links | backlinks | neighbors."@,
        },
        DescriptorView {
            name: "list_tasks"@,
            writes: false,
            description: "List checklist tasks as typed entities (done/due/tags), bounded."@,
        },
        DescriptorView {
            name: "properties_query"@,
            writes: false,
            description: "Query notes by typed frontmatter properties (Bases-like)."@,
        },
        DescriptorView {
            name: "recall"@,
            writes: false,
            description: "Recall agent memories relevant to a query, ranked, with conflicts surfaced."@,
        },
        DescriptorView {
            name: "create_note"@,
            writes: true,
            description: "Create a note (auto-committed, versioned, audited)."@,
        },
        DescriptorView {
            name: "update_note"@,
            writes: true,
            description: "Update a note body and/or frontmatter (auto-committed, versioned, audited)."@,
        },
        DescriptorView {
            name: "remember"@,
            writes: true,
            description: "Store a typed agent memory with mandatory provenance."@,
        },
    ]
}

/// The tools that a plugin can reach.
pub fn plugin_descriptors() -> (r: Vec<ToolDescriptor>)
    ensures
        descriptors_view(r@) == plugin_table(),
        r@.len() == 11,
{
    let mut out: Vec<ToolDescriptor> = Vec::new();
    out.push(
        describe(
            "capabilities",
            false,
            "List the tools this plugin may call and its permission scope.",
        ),
    );
    out.push(
        describe(
            "search",
            false,
            "Search vault notes by relevance; ranked snippets within a token_budget.",
        ),
    );
    out.push(
        describe(
            "get_note",
            false,
            "Fetch a note progressively: outline | frontmatter_only | full.",
        ),
    );
    out.push(
        describe(
            "list_notes",
            false,
            "List all note ids with their titles and paths.",
        ),
    );
    out.push(
        describe(
            "graph_query",
            false,
            "Traverse the wikilink graph: links | backlinks | neighbors.",
        ),
    );
    out.push(
        describe(
            "list_tasks",
            false,
            "List checklist tasks as typed entities (done/due/tags), bounded.",
        ),
    );
    out.push(
        describe(
            "properties_query",
            false,
            "Query notes by typed frontmatter properties (Bases-like).",
        ),
    );
    out.push(
        describe(
            "recall",
            false,
            "Recall agent memories relevant to a query, ranked, with conflicts surfaced.",
        ),
    );
    out.push(
        describe(
            "create_note",
            true,
            "Create a note (auto-committed, versioned, audited).",
        ),
    );
    out.push(
        describe(
            "update_note",
            true,
            "Update a note body and/or frontmatter (auto-committed, versioned, audited).",
        ),
    );
    out.push(
        describe(
            "remember",
            true,
            "Store a typed agent memory with mandatory provenance.",
        ),
    );
    assert(descriptors_view(out@) =~= plugin_table());
    out
}

} // verus!

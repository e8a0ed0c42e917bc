//! The tools that a sandboxed plugin can reach: the same names, arguments and
//! envelope as the server's, but fewer of them. A call always gets an answer:
//! malformed arguments, unknown tools and denied calls are data.
use crate::error::{error, ErrorView, TacitusError};
use crate::plugins::manifest::{tools_refused, ManifestView};
use crate::text::{debug_text, quoted};
use crate::tools::laws::{call_writes, law_only_allowed_tools_run, lemma_find_tool};
use crate::tools::registry::{
    allow_view, call_name, call_refused, gate, tool_ran, visible_from, visible_tools,
    CapabilitiesAnswer, Moment, Records, ToolCall, ToolData,
};
use crate::tools::table::{
    descriptors_view, find_tool, names_of, plugin_descriptors, plugin_table, DescriptorView,
    ToolDescriptor,
};
use crate::vault::write::{Changeset, PermissionScope};
use vstd::prelude::*;
use vstd::string::*;

verus! {

/// The tools of a plugin, ready to be called.
pub struct ToolRegistry {
    /// The tools that plugins share with the server.
    pub shared: crate::tools::registry::ToolRegistry,
}

/// Whether plugins can reach the tool of a call.
pub open spec fn is_plugin_call(call: ToolCall) -> bool {
    match call {
        ToolCall::Capabilities => true,
        ToolCall::Search(_) => true,
        ToolCall::GetNote(_) => true,
        ToolCall::ListNotes => true,
        ToolCall::GraphQuery(_) => true,
        ToolCall::ListTasks(_) => true,
        ToolCall::PropertiesQuery(_) => true,
        ToolCall::Recall(_) => true,
        ToolCall::Remember(_) => true,
        ToolCall::CreateNote(_) => true,
        ToolCall::UpdateNote(_) => true,
        _ => false,
    }
}

/// What a plugin is told of its tools: those that it may call, in the order of
/// the table.
pub open spec fn plugin_capabilities(
    g: ToolRegistry,
    allow: Option<Seq<Seq<char>>>,
    c: CapabilitiesAnswer,
) -> bool {
    &&& c.server@ == "tacitus-plugins"@
    &&& c.version@ == g.shared.version@
    &&& c.scope == g.shared.scope
    &&& descriptors_view(c.tools@) == visible_from(plugin_table(), allow, 0)
}

/// A call that no arm takes.
pub open spec fn no_arm(name: Seq<char>) -> ErrorView {
    error(
        "INTERNAL"@,
        "Tool "@ + debug_text(name) + " has no dispatch arm."@,
        "Report this as a tacitus-plugins bug."@,
    )
}

/// What a plugin's call came to.
pub open spec fn plugin_ran(
    call: ToolCall,
    allow: Option<Seq<Seq<char>>>,
    g0: ToolRegistry,
    g1: ToolRegistry,
    r0: Records,
    r1: Records,
    at: Moment,
    r: Result<ToolData, TacitusError>,
) -> bool {
    if call is Capabilities {
        g1 == g0 && r1 == r0 && r is Ok && r->Ok_0 is Capabilities && plugin_capabilities(
            g0,
            allow,
            r->Ok_0->Capabilities_0,
        )
    } else if is_plugin_call(call) {
        tool_ran(call, allow, g0.shared, g1.shared, r0, r1, at, r)
    } else {
        g1 == g0 && r1 == r0 && (r matches Err(e) && e@ == no_arm(call_name(call)))
    }
}

impl ToolRegistry {
    pub fn standard(vault_dir: &str, scope: PermissionScope, version: &str) -> (r: Self)
        ensures
            r.shared.scope == scope,
            r.shared.version@ == version@,
            r.shared.writer.scope == scope,
            r.shared.writer.vault_dir@ == vault_dir@,
            r.shared.writer.origin is None,
            r.shared.writer.pending@ == Map::<Seq<char>, Changeset>::empty(),
    {
        ToolRegistry {
            shared: crate::tools::registry::ToolRegistry::standard(vault_dir, scope, version),
        }
    }

    /// The tools that a plugin can reach.
    pub fn descriptors() -> (r: Vec<ToolDescriptor>)
        ensures
            descriptors_view(r@) == plugin_table(),
    {
        plugin_descriptors()
    }

    fn capabilities(&self, allow: Option<&Vec<String>>) -> (r: CapabilitiesAnswer)
        ensures
            plugin_capabilities(*self, allow_view(allow), r),
    {
        CapabilitiesAnswer {
            server: "tacitus-plugins".to_owned(),
            version: self.shared.version.clone(),
            tools: visible_tools(plugin_descriptors(), allow),
            scope: self.shared.scope,
        }
    }

    /// Runs one tool.
    pub fn run_tool(
        &mut self,
        rec: &mut Records,
        call: ToolCall,
        allow: Option<&Vec<String>>,
        at: &Moment,
    ) -> (r: Result<ToolData, TacitusError>)
        ensures
            plugin_ran(
                call,
                allow_view(allow),
                *old(self),
                *final(self),
                *old(rec),
                *final(rec),
                *at,
                r,
            ),
    {
        match call {
            ToolCall::Capabilities => Ok(ToolData::Capabilities(self.capabilities(allow))),
            ToolCall::Search(a) => self.shared.run_tool(rec, ToolCall::Search(a), allow, at),
            ToolCall::GetNote(a) => self.shared.run_tool(rec, ToolCall::GetNote(a), allow, at),
            ToolCall::ListNotes => self.shared.run_tool(rec, ToolCall::ListNotes, allow, at),
            ToolCall::GraphQuery(a) => self.shared.run_tool(
                rec,
                ToolCall::GraphQuery(a),
                allow,
                at,
            ),
            ToolCall::ListTasks(a) => self.shared.run_tool(rec, ToolCall::ListTasks(a), allow, at),
            ToolCall::PropertiesQuery(a) => self.shared.run_tool(
                rec,
                ToolCall::PropertiesQuery(a),
                allow,
                at,
            ),
            ToolCall::Recall(a) => self.shared.run_tool(rec, ToolCall::Recall(a), allow, at),
            ToolCall::Remember(a) => self.shared.run_tool(rec, ToolCall::Remember(a), allow, at),
            ToolCall::CreateNote(a) => self.shared.run_tool(
                rec,
                ToolCall::CreateNote(a),
                allow,
                at,
            ),
            ToolCall::UpdateNote(a) => self.shared.run_tool(
                rec,
                ToolCall::UpdateNote(a),
                allow,
                at,
            ),
            other => {
                let mut reason = "Tool ".to_owned();
                reason.append(quoted(other.name()).as_str());
                reason.append(" has no dispatch arm.");
                Err(
                    TacitusError::new(
                        "INTERNAL",
                        reason.as_str(),
                        "Report this as a tacitus-plugins bug.",
                    ),
                )
            },
        }
    }

    /// Runs one tool call by the name of its tool. `call` is what its
    /// arguments were read as, or why they could not be read. Without an
    /// allowlist every tool may be called.
    pub fn dispatch(
        &mut self,
        rec: &mut Records,
        tool: &str,
        call: Result<ToolCall, String>,
        allow: Option<&Vec<String>>,
        at: &Moment,
    ) -> (r: Result<ToolData, TacitusError>)
        ensures
            plugin_dispatched(
                tool@,
                call,
                allow_view(allow),
                *old(self),
                *final(self),
                *old(rec),
                *final(rec),
                *at,
                r,
            ),
    {
        let table = plugin_descriptors();
        match gate(&table, tool, call, allow) {
            Ok(c) => self.run_tool(rec, c, allow, at),
            Err(e) => Err(e),
        }
    }
}

/// What dispatching a plugin's call came to.
pub open spec fn plugin_dispatched(
    tool: Seq<char>,
    call: Result<ToolCall, String>,
    allow: Option<Seq<Seq<char>>>,
    g0: ToolRegistry,
    g1: ToolRegistry,
    r0: Records,
    r1: Records,
    at: Moment,
    r: Result<ToolData, TacitusError>,
) -> bool {
    match call_refused(plugin_table(), tool, allow, call) {
        Some(e) => r matches Err(x) && x@ == e && g1 == g0 && r1 == r0,
        None => call is Ok && plugin_ran(call->Ok_0, allow, g0, g1, r0, r1, at, r),
    }
}

/// A manifest that passes its check names only tools of the table, and under a
/// read-only scope none that writes.
proof fn lemma_checked_tools(m: ManifestView, table: Seq<DescriptorView>, i: int, k: int)
    requires
        0 <= i <= k < m.tools.len(),
        tools_refused(m, table, i) is None,
    ensures
        find_tool(table, m.tools[k]) is Some,
        m.scope == PermissionScope::ReadOnly ==> !table[find_tool(table, m.tools[k])->0].writes,
    decreases k - i,
{
    if i < k {
        lemma_checked_tools(m, table, i + 1, k);
    }
}

/// A plugin whose manifest has a read-only scope changes nothing through any
/// call that it makes: no note, no memory, no version, no audit entry.
pub proof fn law_read_only_plugins_change_nothing(
    m: ManifestView,
    tool: Seq<char>,
    call: Result<ToolCall, String>,
    g0: ToolRegistry,
    g1: ToolRegistry,
    r0: Records,
    r1: Records,
    at: Moment,
    r: Result<ToolData, TacitusError>,
)
    requires
        tools_refused(m, plugin_table(), 0) is None,
        m.scope == PermissionScope::ReadOnly,
        plugin_dispatched(tool, call, Some(m.tools), g0, g1, r0, r1, at, r),
    ensures
        r1 == r0,
{
    law_only_allowed_tools_run(plugin_table(), tool, Some(m.tools), call);
    if call_refused(plugin_table(), tool, Some(m.tools), call) is None {
        let k = choose|k: int| 0 <= k < m.tools.len() && m.tools[k] == tool;
        lemma_checked_tools(m, plugin_table(), 0, k);
        lemma_find_tool(plugin_table(), tool, 0);
        let c = call->Ok_0;
        if call_writes(c) && is_plugin_call(c) {
            lemma_plugin_writers(c, find_tool(plugin_table(), tool)->0);
        }
    }
}

/// No plugin tool that only reads has the name of one that writes.
proof fn lemma_plugin_writers(call: ToolCall, i: int)
    requires
        call_writes(call),
        is_plugin_call(call),
        0 <= i < plugin_table().len(),
        plugin_table()[i].name == call_name(call),
    ensures
        plugin_table()[i].writes,
{
    reveal_strlit("capabilities");
    reveal_strlit("search");
    reveal_strlit("get_note");
    reveal_strlit("list_notes");
    reveal_strlit("graph_query");
    reveal_strlit("list_tasks");
    reveal_strlit("properties_query");
    reveal_strlit("recall");
    reveal_strlit("create_note");
    reveal_strlit("update_note");
    reveal_strlit("remember");
    assert("create_note"@[0] != "graph_query"@[0]);
    assert("update_note"@[0] != "graph_query"@[0]);
    assert("remember"@[0] != "get_note"@[0]);
    assert(plugin_table()[0].name == "capabilities"@);
    assert(plugin_table()[1].name == "search"@);
    assert(plugin_table()[2].name == "get_note"@);
    assert(plugin_table()[3].name == "list_notes"@);
    assert(plugin_table()[4].name == "graph_query"@);
    assert(plugin_table()[5].name == "list_tasks"@);
    assert(plugin_table()[6].name == "properties_query"@);
    assert(plugin_table()[7].name == "recall"@);
    assert(plugin_table()[8].name == "create_note"@ && plugin_table()[8].writes);
    assert(plugin_table()[9].name == "update_note"@ && plugin_table()[9].writes);
    assert(plugin_table()[10].name == "remember"@ && plugin_table()[10].writes);
}

/// A plugin never reaches a tool that its manifest does not name.
pub proof fn law_plugins_reach_declared_tools_only(
    m: ManifestView,
    tool: Seq<char>,
    call: Result<ToolCall, String>,
    g0: ToolRegistry,
    g1: ToolRegistry,
    r0: Records,
    r1: Records,
    at: Moment,
    r: Result<ToolData, TacitusError>,
)
    requires
        plugin_dispatched(tool, call, Some(m.tools), g0, g1, r0, r1, at, r),
        !m.tools.contains(tool),
    ensures
        r is Err,
        g1 == g0,
        r1 == r0,
        names_of(plugin_table()).contains(tool) ==> r->Err_0@ == error(
            "PERMISSION_DENIED"@,
            "Tool "@ + debug_text(tool) + " is not in this plugin's allowlist."@,
            "Declare it under [permissions].tools in tacitus-plugin.toml."@,
        ),
{
    law_only_allowed_tools_run(plugin_table(), tool, Some(m.tools), call);
}

} // verus!

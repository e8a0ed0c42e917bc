//! Plugins from the command line, for scheduled agents and scripts.
//!
//! ```text
//! plugin list [--vault <path>]
//! plugin run <name> [--vault <path>] [--input '<json>'] [--timeout-ms <n>]
//! ```
//!
//! To run a plugin from a terminal is to consent to it, and its manifest still
//! gates what it writes.
use crate::error::{ErrorView, TacitusError};
use crate::numbers::{nat_of, parse_u64};
use crate::memory::store::by_text;
use crate::order::{positions, sort_positions, stable_order, str_before};
use crate::paths::{join_path, path_join};
use crate::plugins::host::{HostConfig, PluginHost};
use crate::plugins::manifest::{
    manifest_loaded, tools_refused, ManifestRead, ManifestView, PluginManifest,
};
use crate::text::{
    debug_text, has_prefix, join, join_strings, opt_text, quoted, starts_with, str_eq, texts,
};
use crate::tools::answer::{scope_name, scope_str};
use crate::tools::registry::ToolRegistry;
use crate::tools::table::{tool_descriptors, tool_table};
use crate::vault::json::{entry_value, json_get, lemma_json_model, Json, JsonView};
use crate::vault::write::Changeset;
use crate::vault::writer::NoteWriter;
use vstd::prelude::*;
use vstd::string::*;

verus! {

pub const DEFAULT_TIMEOUT_MS: u64 = 30_000;

/// What a plugin command asks for.
#[derive(Debug, PartialEq, Eq)]
pub enum PluginCmd {
    List { vault: String },
    Run { vault: String, name: String, input: String, timeout_ms: u64 },
}

/// The model of a plugin command.
#[verifier::ext_equal]
pub enum PluginCmdView {
    List { vault: Seq<char> },
    Run { vault: Seq<char>, name: Seq<char>, input: Seq<char>, timeout_ms: u64 },
}

impl View for PluginCmd {
    type V = PluginCmdView;

    open spec fn view(&self) -> PluginCmdView {
        match *self {
            PluginCmd::List { vault } => PluginCmdView::List { vault: vault@ },
            PluginCmd::Run { vault, name, input, timeout_ms } => PluginCmdView::Run {
                vault: vault@,
                name: name@,
                input: input@,
                timeout_ms,
            },
        }
    }
}

/// What the flags say.
#[verifier::ext_equal]
pub struct PluginFlags {
    pub vault: Seq<char>,
    pub input: Seq<char>,
    pub timeout_ms: u64,
    pub name: Option<Seq<char>>,
}

/// What the flags from `i` on say, after `f`.
pub open spec fn plugin_flags(args: Seq<Seq<char>>, i: int, f: PluginFlags) -> Result<
    PluginFlags,
    Seq<char>,
>
    decreases args.len() - i,
{
    if i < 0 || i >= args.len() {
        Ok(f)
    } else if args[i] == "--vault"@ {
        if i + 1 < args.len() {
            plugin_flags(args, i + 2, PluginFlags { vault: args[i + 1], ..f })
        } else {
            Err("--vault needs a path"@)
        }
    } else if args[i] == "--input"@ {
        if i + 1 < args.len() {
            plugin_flags(args, i + 2, PluginFlags { input: args[i + 1], ..f })
        } else {
            Err("--input needs a JSON string"@)
        }
    } else if args[i] == "--timeout-ms"@ {
        if i + 1 < args.len() {
            match nat_of(args[i + 1]) {
                Some(n) => if n <= u64::MAX {
                    plugin_flags(args, i + 2, PluginFlags { timeout_ms: n as u64, ..f })
                } else {
                    Err("--timeout-ms must be a number of milliseconds"@)
                },
                None => Err("--timeout-ms must be a number of milliseconds"@),
            }
        } else {
            Err("--timeout-ms needs a number"@)
        }
    } else if !has_prefix(args[i], "--"@) && f.name is None {
        plugin_flags(args, i + 1, PluginFlags { name: Some(args[i]), ..f })
    } else {
        Err("unknown plugin flag: "@ + args[i])
    }
}

/// What the arguments of a plugin command ask for, or what is wrong with them.
pub open spec fn plugin_asked(args: Seq<Seq<char>>) -> Result<PluginCmdView, Seq<char>> {
    let sub = if args.len() > 0 {
        args[0]
    } else {
        seq![]
    };
    match plugin_flags(
        args,
        1,
        PluginFlags { vault: "."@, input: "{}"@, timeout_ms: DEFAULT_TIMEOUT_MS, name: None },
    ) {
        Err(e) => Err(e),
        Ok(f) => if sub == "list"@ {
            Ok(PluginCmdView::List { vault: f.vault })
        } else if sub == "run"@ {
            match f.name {
                Some(name) => Ok(
                    PluginCmdView::Run {
                        vault: f.vault,
                        name,
                        input: f.input,
                        timeout_ms: f.timeout_ms,
                    },
                ),
                None => Err("plugin run needs a plugin name"@),
            }
        } else {
            Err("unknown plugin subcommand "@ + debug_text(sub) + " — use list | run"@)
        },
    }
}

/// Reads the arguments of a plugin command.
pub fn parse_plugin_args(args: &Vec<String>) -> (r: Result<PluginCmd, String>)
    ensures
        match r {
            Ok(c) => plugin_asked(texts(args@)) == Ok::<PluginCmdView, Seq<char>>(c@),
            Err(e) => plugin_asked(texts(args@)) == Err::<PluginCmdView, Seq<char>>(e@),
        },
{
    let ghost a = texts(args@);
    let sub: String = if args.len() > 0 {
        args[0].clone()
    } else {
        let s = String::new();
        assert(s@ =~= seq![]);
        s
    };
    let mut vault = ".".to_owned();
    let mut input = "{}".to_owned();
    let mut timeout_ms: u64 = DEFAULT_TIMEOUT_MS;
    let mut name: Option<String> = None;
    let ghost start = PluginFlags {
        vault: "."@,
        input: "{}"@,
        timeout_ms: DEFAULT_TIMEOUT_MS,
        name: None,
    };
    let n: usize = args.len();
    let mut i: usize = 1;
    while i < n
        invariant
            1 <= i,
            n == args@.len(),
            a == texts(args@),
            start == (PluginFlags {
                vault: "."@,
                input: "{}"@,
                timeout_ms: DEFAULT_TIMEOUT_MS,
                name: None,
            }),
            plugin_flags(a, 1, start) == plugin_flags(
                a,
                i as int,
                PluginFlags { vault: vault@, input: input@, timeout_ms, name: opt_text(name) },
            ),
        decreases n - i,
    {
        assert(a[i as int] == args@[i as int]@);
        let flag = args[i].as_str();
        let has_next: bool = n - i > 1;
        if str_eq(flag, "--vault") {
            if !has_next {
                return Err("--vault needs a path".to_owned());
            }
            vault = args[i + 1].clone();
            i = i + 2;
        } else if str_eq(flag, "--input") {
            if !has_next {
                return Err("--input needs a JSON string".to_owned());
            }
            input = args[i + 1].clone();
            i = i + 2;
        } else if str_eq(flag, "--timeout-ms") {
            if !has_next {
                return Err("--timeout-ms needs a number".to_owned());
            }
            match parse_u64(args[i + 1].as_str(), u64::MAX) {
                Some(t) => {
                    timeout_ms = t;
                },
                None => {
                    return Err("--timeout-ms must be a number of milliseconds".to_owned());
                },
            }
            i = i + 2;
        } else if !starts_with(flag, "--") && name.is_none() {
            name = Some(args[i].clone());
            i = i + 1;
        } else {
            let mut e = "unknown plugin flag: ".to_owned();
            e.append(flag);
            return Err(e);
        }
    }
    if str_eq(sub.as_str(), "list") {
        Ok(PluginCmd::List { vault })
    } else if str_eq(sub.as_str(), "run") {
        match name {
            Some(name) => Ok(PluginCmd::Run { vault, name, input, timeout_ms }),
            None => Err("plugin run needs a plugin name".to_owned()),
        }
    } else {
        let mut e = "unknown plugin subcommand ".to_owned();
        e.append(quoted(sub.as_str()).as_str());
        e.append(" — use list | run");
        Err(e)
    }
}

// ---------------------------------------------------------------------------
// Listing
// ---------------------------------------------------------------------------

/// A directory that plugins are installed in.
pub struct PluginDir {
    pub name: String,
    /// What reading its manifest gave.
    pub read: ManifestRead,
}

/// The directory with the plugins of a vault.
pub open spec fn plugins_path(vault: Seq<char>) -> Seq<char> {
    join_path(join_path(vault, ".tacitus"@), "plugins"@)
}

/// The directory with the plugins of a vault.
pub fn plugins_dir(vault: &str) -> (r: String)
    ensures
        r@ == plugins_path(vault@),
{
    let dir = path_join(vault, ".tacitus");
    path_join(dir.as_str(), "plugins")
}

/// The directory of one plugin.
pub fn plugin_dir(vault: &str, name: &str) -> (r: String)
    ensures
        r@ == join_path(plugins_path(vault@), name@),
{
    path_join(plugins_dir(vault).as_str(), name)
}

/// The line of a plugin that can be loaded.
pub open spec fn valid_line(m: ManifestView) -> Seq<char> {
    m.name + " "@ + m.version + " "@ + scope_name(m.scope) + " tools=["@ + join(m.tools, ", "@)
        + "]"@ + if m.hooks.len() == 0 {
        seq![]
    } else {
        " hooks=["@ + join(m.hooks, ", "@) + "]"@
    }
}

/// The line of a plugin that cannot be loaded, with the reason.
pub open spec fn invalid_line(name: Seq<char>, e: ErrorView) -> Seq<char> {
    name + " INVALID ("@ + e.code + ": "@ + e.reason + ")"@
}

/// The line of an installed plugin.
pub open spec fn plugin_line(dir: Seq<char>, p: PluginDir) -> Seq<char> {
    match manifest_loaded(join_path(dir, p.name@), Some(p.name@), p.read@) {
        Err(e) => invalid_line(p.name@, e),
        Ok(m) => match tools_refused(m, tool_table(), 0) {
            Some(e) => invalid_line(p.name@, e),
            None => valid_line(m),
        },
    }
}

/// The names of directories.
pub open spec fn dir_names(v: Seq<PluginDir>) -> Seq<Seq<char>> {
    v.map_values(|p: PluginDir| p.name@)
}

/// The lines for what was found where plugins are installed.
pub open spec fn listed_plugins(vault: Seq<char>, found: Option<Seq<PluginDir>>) -> Seq<Seq<char>> {
    let dir = plugins_path(vault);
    match found {
        None => seq!["no plugins directory at "@ + dir],
        Some(v) => if v.len() == 0 {
            seq!["no plugins installed in "@ + dir]
        } else {
            stable_order(v.len(), by_text(dir_names(v))).map_values(
                |k: int| plugin_line(dir, v[k]),
            )
        },
    }
}

fn line_of(dir: &str, p: &PluginDir) -> (r: String)
    ensures
        r@ == plugin_line(dir@, *p),
{
    let path = path_join(dir, p.name.as_str());
    let dir_name: Option<String> = Some(p.name.clone());
    let checked: Result<PluginManifest, TacitusError> = match PluginManifest::load(
        path.as_str(),
        &dir_name,
        &p.read,
    ) {
        Ok(m) => {
            let tools = tool_descriptors();
            match m.validate(&tools) {
                Ok(()) => Ok(m),
                Err(e) => Err(e),
            }
        },
        Err(e) => Err(e),
    };
    match checked {
        Ok(m) => {
            let mut s = m.name.clone();
            s.append(" ");
            s.append(m.version.as_str());
            s.append(" ");
            s.append(scope_str(m.permissions.scope));
            s.append(" tools=[");
            s.append(join_strings(&m.permissions.tools, ", ").as_str());
            s.append("]");
            if m.hooks.len() > 0 {
                let ghost head = s@;
                s.append(" hooks=[");
                s.append(join_strings(&m.hooks, ", ").as_str());
                s.append("]");
                assert(s@ =~= head + (" hooks=["@ + join(m@.hooks, ", "@) + "]"@));
            } else {
                assert(s@ =~= s@ + Seq::<char>::empty());
            }
            s
        },
        Err(e) => {
            let mut s = p.name.clone();
            s.append(" INVALID (");
            s.append(e.code.as_str());
            s.append(": ");
            s.append(e.reason.as_str());
            s.append(")");
            s
        },
    }
}

/// One line for each installed plugin, in the order of their names: a valid one
/// with what it may do, a broken one with the reason. `found` is what the
/// plugins' directory holds, if it can be read.
pub fn list_lines(vault: &str, found: &Option<Vec<PluginDir>>) -> (r: Vec<String>)
    ensures
        texts(r@) == listed_plugins(
            vault@,
            match found {
                Some(v) => Some(v@),
                None => None,
            },
        ),
{
    let dir = plugins_dir(vault);
    let mut out: Vec<String> = Vec::new();
    let v = match found {
        None => {
            let mut s = "no plugins directory at ".to_owned();
            s.append(dir.as_str());
            out.push(s);
            assert(texts(out@) =~= seq!["no plugins directory at "@ + dir@]);
            return out;
        },
        Some(v) => v,
    };
    let n: usize = v.len();
    if n == 0 {
        let mut s = "no plugins installed in ".to_owned();
        s.append(dir.as_str());
        out.push(s);
        assert(texts(out@) =~= seq!["no plugins installed in "@ + dir@]);
        return out;
    }
    let ghost names = dir_names(v@);
    let less = |a: usize, b: usize| -> (r: bool)
        requires
            a < n,
            b < n,
            n == v@.len(),
        ensures
            r == by_text(dir_names(v@))(a as int, b as int),
        { str_before(v[a].name.as_str(), v[b].name.as_str()) };
    let order = sort_positions(n, less, Ghost(by_text(names)));
    let ghost want = listed_plugins(vault@, Some(v@));
    let mut k: usize = 0;
    assert(texts(out@) =~= want.take(0));
    while k < order.len()
        invariant
            k <= order@.len(),
            n == v@.len(),
            n > 0,
            order@.len() == n,
            names == dir_names(v@),
            dir@ == plugins_path(vault@),
            want == listed_plugins(vault@, Some(v@)),
            positions(order@) == stable_order(n as nat, by_text(names)),
            forall|a: int| 0 <= a < order@.len() ==> #[trigger] order@[a] < n,
            texts(out@) == want.take(k as int),
        decreases order@.len() - k,
    {
        let p = &v[order[k]];
        assert(positions(order@)[k as int] == order@[k as int]);
        let line = line_of(dir.as_str(), p);
        assert(line@ == want[k as int]);
        let ghost prev = texts(out@);
        out.push(line);
        assert(texts(out@) =~= prev.push(want[k as int]));
        assert(want.take(k + 1) =~= want.take(k as int).push(want[k as int]));
        k = k + 1;
    }
    assert(want.take(want.len() as int) =~= want);
    out
}

// ---------------------------------------------------------------------------
// Running
// ---------------------------------------------------------------------------

/// The host that runs a plugin from the command line.
pub fn cli_host(timeout_ms: u64) -> (r: PluginHost)
    ensures
        r.config.epoch_deadline_ms == Some(timeout_ms),
        r.config.fuel_per_run == 1_000_000_000,
        r.config.max_memory_bytes == 67_108_864,
{
    let limits = HostConfig::default();
    PluginHost::new(
        HostConfig {
            fuel_per_run: limits.fuel_per_run,
            max_memory_bytes: limits.max_memory_bytes,
            epoch_deadline_ms: Some(timeout_ms),
        },
    )
}

/// The tools of a plugin that is run from the command line: under the scope of
/// its manifest, and with every write marked as the plugin's in the audit log.
pub fn cli_registry(vault: &str, manifest: &PluginManifest, version: &str) -> (r: ToolRegistry)
    ensures
        r.scope == manifest.permissions.scope,
        r.server_name@ == "tacitus-cli"@,
        r.version@ == version@,
        r.writer.scope == manifest.permissions.scope,
        r.writer.vault_dir@ == vault@,
        opt_text(r.writer.origin) == Some("plugin:"@ + manifest.name@),
        r.writer.pending@ == Map::<Seq<char>, Changeset>::empty(),
{
    let scope = manifest.permissions.scope;
    let mut writer = NoteWriter::new(vault, scope);
    let mut origin = "plugin:".to_owned();
    origin.append(manifest.name.as_str());
    writer.set_origin(origin.as_str());
    ToolRegistry::standard(vault, scope, version).with_writer(writer).with_identity(
        "tacitus-cli",
        version,
    )
}

/// The name of a log level.
pub open spec fn level_name(level: u8) -> Seq<char> {
    if level == 0 {
        "debug"@
    } else if level == 1 {
        "info"@
    } else if level == 2 {
        "warn"@
    } else {
        "error"@
    }
}

/// A line of a guest's log as it is shown.
pub fn log_line(level: u8, line: &str) -> (r: String)
    ensures
        r@ == "["@ + level_name(level) + "] "@ + line@,
{
    let mut s = "[".to_owned();
    s.append(
        if level == 0 {
            "debug"
        } else if level == 1 {
            "info"
        } else if level == 2 {
            "warn"
        } else {
            "error"
        },
    );
    s.append("] ");
    s.append(line);
    s
}

/// What is wrong with an input that is no JSON.
pub fn bad_input(e: &str) -> (r: String)
    ensures
        r@ == "--input is not valid JSON: "@ + e@,
{
    let mut s = "--input is not valid JSON: ".to_owned();
    s.append(e);
    s
}

/// Whether an envelope is that of a result.
pub open spec fn is_success(envelope: JsonView) -> bool {
    envelope matches JsonView::Object(e) && json_get(e, "ok"@) == Some(JsonView::Bool(true))
}

/// Whether an envelope is that of a result, which is what the exit code says.
pub fn succeeded(envelope: &Json) -> (r: bool)
    ensures
        r == is_success(envelope@),
{
    proof {
        lemma_json_model(*envelope);
    }
    match envelope {
        Json::Object(e) => match entry_value(e, "ok") {
            Some(j) => match j {
                Json::Bool(b) => *b,
                _ => false,
            },
            None => false,
        },
        _ => false,
    }
}

} // verus!

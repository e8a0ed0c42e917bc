//! Loading and running a guest module: every decision of the host, with the
//! sandbox itself left to the caller.
//!
//! A guest that fails never takes the host down. It surfaces as an error with
//! the code `PLUGIN_ABI` (the protocol is broken) or `PLUGIN_TRAP` (the guest
//! crashed or went over its limits).
use crate::error::{error, ErrorView, TacitusError};
use crate::numbers::{dec_int, render_i64, render_u64};
use crate::plugins::abi::{pack, packed, unpack, ABI_VERSION};
use crate::plugins::manifest::{
    escapes, invalid_manifest, manifest_loaded, tools_refused, ManifestRead, ManifestView,
    ReadView,
    PluginManifest,
};
use crate::plugins::registry::{plugin_dispatched, ToolRegistry};
use crate::text::{byte_len, debug_text, opt_text, quoted, texts, utf8_len};
use crate::tools::answer::{envelope, envelope_of};
use crate::tools::registry::{
    err_envelope, err_object, tool_dispatched, Moment, Records, ToolCall, ToolData,
};
use crate::tools::table::{descriptors_view, DescriptorView, ToolDescriptor};
use crate::paths::join_path;
use crate::vault::json::{
    json_entries, json_read, json_text, lemma_json_model, parse_json, render_json, Json, JsonView,
};
use vstd::prelude::*;
use vstd::string::*;
use vstd::utf8::{encode_utf8, valid_utf8};

verus! {

// ---------------------------------------------------------------------------
// Limits and faults
// ---------------------------------------------------------------------------

/// The limits of the host. No manifest can raise them.
#[derive(Debug)]
pub struct HostConfig {
    /// How many instructions one run may take.
    pub fuel_per_run: u64,
    /// How large the guest's memory may get.
    pub max_memory_bytes: usize,
    /// How long one run may take, if that is limited.
    pub epoch_deadline_ms: Option<u64>,
}

impl Default for HostConfig {
    fn default() -> (r: Self)
        ensures
            r.fuel_per_run == 1_000_000_000,
            r.max_memory_bytes == 67_108_864,
            r.epoch_deadline_ms is None,
    {
        HostConfig {
            fuel_per_run: 1_000_000_000,
            max_memory_bytes: 67_108_864,
            epoch_deadline_ms: None,
        }
    }
}

/// How a guest failed, with what the sandbox says of it.
#[derive(Debug)]
pub enum GuestFault {
    Trapped(String),
    Failed(String),
}

/// The error of a guest that failed.
pub open spec fn fault_error(f: GuestFault) -> ErrorView {
    error(
        "PLUGIN_TRAP"@,
        match f {
            GuestFault::Trapped(t) => "Guest trapped: "@ + t@ + "."@,
            GuestFault::Failed(t) => "Guest failed: "@ + t@ + "."@,
        },
        "The plugin crashed or exceeded its fuel/memory limits. Fix the plugin, or raise HostConfig if the limits are too tight."@,
    )
}

/// The error of a guest that failed.
pub fn plugin_trap(f: &GuestFault) -> (e: TacitusError)
    ensures
        e@ == fault_error(*f),
{
    let reason = match f {
        GuestFault::Trapped(t) => {
            let mut s = "Guest trapped: ".to_owned();
            s.append(t.as_str());
            s.append(".");
            s
        },
        GuestFault::Failed(t) => {
            let mut s = "Guest failed: ".to_owned();
            s.append(t.as_str());
            s.append(".");
            s
        },
    };
    TacitusError::new(
        "PLUGIN_TRAP",
        reason.as_str(),
        "The plugin crashed or exceeded its fuel/memory limits. Fix the plugin, or raise HostConfig if the limits are too tight.",
    )
}

pub open spec fn abi_error(reason: Seq<char>, suggestion: Seq<char>) -> ErrorView {
    error("PLUGIN_ABI"@, reason, suggestion)
}

fn plugin_abi(head: &str, middle: &str, tail: &str, suggestion: &str) -> (e: TacitusError)
    ensures
        e@ == abi_error(head@ + middle@ + tail@, suggestion@),
{
    let mut reason = head.to_owned();
    reason.append(middle);
    reason.append(tail);
    TacitusError::new("PLUGIN_ABI", reason.as_str(), suggestion)
}

// ---------------------------------------------------------------------------
// Loading
// ---------------------------------------------------------------------------

/// A plugin that passed all checks that need no module.
#[derive(Debug)]
pub struct LoadPlan {
    pub manifest: PluginManifest,
    /// The module to read.
    pub wasm_path: String,
}

/// An export that the guest must have.
#[derive(Debug)]
pub enum Export {
    Missing,
    /// There, but of another type.
    Mistyped(String),
    Found,
}

/// The exports that a guest has.
#[derive(Debug)]
pub struct Exports {
    pub memory: bool,
    pub abi_version: Export,
    pub alloc: Export,
    pub dealloc: Export,
    pub run: Export,
}

/// What became of the module of a plugin.
#[derive(Debug)]
pub enum ModuleFound {
    /// Its file cannot be read.
    Unreadable(String),
    /// It is no module.
    Invalid(String),
    /// It wants imports that the host has not.
    Unlinkable(String),
    Linked(Exports),
}

/// What a host decides of a plugin before it reads a module: the manifest is
/// read, then checked, then the module is located.
pub open spec fn load_planned(
    plugin_dir: Seq<char>,
    dir_name: Option<Seq<char>>,
    read: ReadView,
    table: Seq<DescriptorView>,
) -> Result<(ManifestView, Seq<char>), ErrorView> {
    match manifest_loaded(plugin_dir, dir_name, read) {
        Err(e) => Err(e),
        Ok(m) => match tools_refused(m, table, 0) {
            Some(e) => Err(e),
            None => if escapes(m.entry) {
                Err(
                    invalid_manifest(
                        "entry "@ + debug_text(m.entry) + " escapes the plugin directory."@,
                        "Use a path relative to tacitus-plugin.toml, e.g. \"plugin.wasm\"."@,
                    ),
                )
            } else {
                Ok((m, join_path(plugin_dir, m.entry)))
            },
        },
    }
}

/// A guest without an export.
pub open spec fn missing_export(name: Seq<char>) -> ErrorView {
    abi_error(
        "Guest is missing the required export "@ + debug_text(name) + "."@,
        "Implement ABI v1: memory, tacitus_abi_version, tacitus_alloc, tacitus_dealloc, tacitus_run."@,
    )
}

/// Why an export is no good.
pub open spec fn export_refused(name: Seq<char>, x: Export) -> Option<ErrorView> {
    match x {
        Export::Missing => Some(missing_export(name)),
        Export::Mistyped(e) => Some(
            abi_error(
                "Export "@ + debug_text(name) + " has the wrong signature: "@ + e@ + "."@,
                "Match the ABI v1 signatures in docs/PLUGINS.md."@,
            ),
        ),
        Export::Found => None,
    }
}

/// Why a guest is refused for its exports: the first that is no good.
pub open spec fn exports_refused(x: Exports) -> Option<ErrorView> {
    if !x.memory {
        Some(missing_export("memory"@))
    } else if export_refused("tacitus_abi_version"@, x.abi_version) is Some {
        export_refused("tacitus_abi_version"@, x.abi_version)
    } else if export_refused("tacitus_alloc"@, x.alloc) is Some {
        export_refused("tacitus_alloc"@, x.alloc)
    } else if export_refused("tacitus_dealloc"@, x.dealloc) is Some {
        export_refused("tacitus_dealloc"@, x.dealloc)
    } else {
        export_refused("tacitus_run"@, x.run)
    }
}

/// Why a module is refused.
pub open spec fn module_refused(wasm_path: Seq<char>, m: ModuleFound) -> Option<ErrorView> {
    match m {
        ModuleFound::Unreadable(e) => Some(
            error(
                "IO_ERROR"@,
                "Cannot read wasm module "@ + wasm_path + ": "@ + e@ + "."@,
                "Build the plugin first so the manifest's `entry` .wasm exists."@,
            ),
        ),
        ModuleFound::Invalid(e) => Some(
            abi_error(
                "Entry is not a valid wasm module: "@ + e@ + "."@,
                "Compile the plugin for wasm32-unknown-unknown and point `entry` at the .wasm."@,
            ),
        ),
        ModuleFound::Unlinkable(e) => Some(
            abi_error(
                "Cannot instantiate plugin: "@ + e@ + "."@,
                "The only host imports are tacitus.call and tacitus.log (module \"tacitus\")."@,
            ),
        ),
        ModuleFound::Linked(x) => exports_refused(x),
    }
}

/// Why a guest is refused for what it answers when asked for its version.
pub open spec fn version_refused(answer: Result<i32, GuestFault>) -> Option<ErrorView> {
    match answer {
        Err(f) => Some(fault_error(f)),
        Ok(v) => if v == ABI_VERSION {
            None
        } else {
            Some(
                abi_error(
                    "Plugin speaks ABI v"@ + dec_int(v as int) + "; this host speaks v1."@,
                    "Rebuild the plugin against this host's ABI (docs/PLUGINS.md)."@,
                ),
            )
        },
    }
}

fn check_export(name: &str, x: &Export) -> (r: Result<(), TacitusError>)
    ensures
        match export_refused(name@, *x) {
            Some(e) => r matches Err(t) && t@ == e,
            None => r is Ok,
        },
{
    match x {
        Export::Missing => Err(lacks_export(name)),
        Export::Mistyped(e) => {
            let mut reason = "Export ".to_owned();
            reason.append(quoted(name).as_str());
            reason.append(" has the wrong signature: ");
            reason.append(e.as_str());
            reason.append(".");
            Err(
                TacitusError::new(
                    "PLUGIN_ABI",
                    reason.as_str(),
                    "Match the ABI v1 signatures in docs/PLUGINS.md.",
                ),
            )
        },
        Export::Found => Ok(()),
    }
}

fn lacks_export(name: &str) -> (e: TacitusError)
    ensures
        e@ == missing_export(name@),
{
    plugin_abi(
        "Guest is missing the required export ",
        quoted(name).as_str(),
        ".",
        "Implement ABI v1: memory, tacitus_abi_version, tacitus_alloc, tacitus_dealloc, tacitus_run.",
    )
}

/// Loads plugins under its limits.
#[derive(Debug)]
pub struct PluginHost {
    pub config: HostConfig,
}

impl PluginHost {
    pub fn new(config: HostConfig) -> (r: Self)
        ensures
            r.config == config,
    {
        PluginHost { config }
    }

    /// What to load: the manifest of the directory, read, checked against the
    /// tools that there are, and with the module that it names.
    pub fn plan(
        &self,
        plugin_dir: &str,
        dir_name: &Option<String>,
        read: &ManifestRead,
        tools: &Vec<ToolDescriptor>,
    ) -> (r: Result<LoadPlan, TacitusError>)
        ensures
            match load_planned(
                plugin_dir@,
                opt_text(*dir_name),
                read@,
                descriptors_view(tools@),
            ) {
                Ok(p) => r matches Ok(x) && x.manifest@ == p.0 && x.wasm_path@ == p.1,
                Err(e) => r matches Err(x) && x@ == e,
            },
    {
        let manifest = match PluginManifest::load(plugin_dir, dir_name, read) {
            Ok(m) => m,
            Err(e) => {
                return Err(e);
            },
        };
        match manifest.validate(tools) {
            Ok(()) => {},
            Err(e) => {
                return Err(e);
            },
        }
        match manifest.wasm_path(plugin_dir) {
            Ok(wasm_path) => Ok(LoadPlan { manifest, wasm_path }),
            Err(e) => Err(e),
        }
    }

    /// Whether a module will do, before anything in it is run.
    pub fn examine(&self, plan: &LoadPlan, found: &ModuleFound) -> (r: Result<(), TacitusError>)
        ensures
            match module_refused(plan.wasm_path@, *found) {
                Some(e) => r matches Err(t) && t@ == e,
                None => r is Ok,
            },
    {
        match found {
            ModuleFound::Unreadable(e) => {
                let mut reason = "Cannot read wasm module ".to_owned();
                reason.append(plan.wasm_path.as_str());
                reason.append(": ");
                reason.append(e.as_str());
                reason.append(".");
                Err(
                    TacitusError::new(
                        "IO_ERROR",
                        reason.as_str(),
                        "Build the plugin first so the manifest's `entry` .wasm exists.",
                    ),
                )
            },
            ModuleFound::Invalid(e) => Err(
                plugin_abi(
                    "Entry is not a valid wasm module: ",
                    e.as_str(),
                    ".",
                    "Compile the plugin for wasm32-unknown-unknown and point `entry` at the .wasm.",
                ),
            ),
            ModuleFound::Unlinkable(e) => Err(
                plugin_abi(
                    "Cannot instantiate plugin: ",
                    e.as_str(),
                    ".",
                    "The only host imports are tacitus.call and tacitus.log (module \"tacitus\").",
                ),
            ),
            ModuleFound::Linked(x) => {
                if !x.memory {
                    return Err(lacks_export("memory"));
                }
                match check_export("tacitus_abi_version", &x.abi_version) {
                    Ok(()) => {},
                    Err(e) => {
                        return Err(e);
                    },
                }
                match check_export("tacitus_alloc", &x.alloc) {
                    Ok(()) => {},
                    Err(e) => {
                        return Err(e);
                    },
                }
                match check_export("tacitus_dealloc", &x.dealloc) {
                    Ok(()) => {},
                    Err(e) => {
                        return Err(e);
                    },
                }
                check_export("tacitus_run", &x.run)
            },
        }
    }

    /// The instance of a plugin, once its module was admitted and has answered
    /// which version of the protocol it speaks.
    pub fn ready(&self, plan: LoadPlan, answer: &Result<i32, GuestFault>) -> (r: Result<
        PluginInstance,
        TacitusError,
    >)
        ensures
            match version_refused(*answer) {
                Some(e) => r matches Err(t) && t@ == e,
                None => r matches Ok(p) && p.manifest == plan.manifest && p.fuel_per_run
                    == self.config.fuel_per_run && p.logs@.len() == 0,
            },
    {
        match answer {
            Err(f) => Err(plugin_trap(f)),
            Ok(v) => if *v == ABI_VERSION {
                Ok(
                    PluginInstance {
                        manifest: plan.manifest,
                        fuel_per_run: self.config.fuel_per_run,
                        logs: Vec::new(),
                    },
                )
            } else {
                Err(
                    plugin_abi(
                        "Plugin speaks ABI v",
                        render_i64(*v as i64).as_str(),
                        "; this host speaks v1.",
                        "Rebuild the plugin against this host's ABI (docs/PLUGINS.md).",
                    ),
                )
            },
        }
    }
}

// ---------------------------------------------------------------------------
// The guest's memory
// ---------------------------------------------------------------------------

/// Whether `len` bytes from `ptr` on lie inside a memory.
pub open spec fn in_memory(ptr: int, len: int, size: nat) -> bool {
    0 <= ptr && 0 <= len && ptr + len <= size
}

/// The bytes of a memory from `ptr` on.
fn bytes_at(memory: &[u8], ptr: usize, len: usize) -> (r: Vec<u8>)
    requires
        ptr + len <= memory@.len(),
    ensures
        r@ == memory@.subrange(ptr as int, ptr + len),
{
    let size: usize = memory.len();
    let mut out: Vec<u8> = Vec::new();
    let mut i: usize = 0;
    while i < len
        invariant
            i <= len,
            ptr + len <= size,
            size == memory@.len(),
            out@ == memory@.subrange(ptr as int, ptr + i),
        decreases len - i,
    {
        out.push(memory[ptr + i]);
        assert(memory@.subrange(ptr as int, ptr + i + 1) =~= memory@.subrange(
            ptr as int,
            ptr + i,
        ).push(memory@[ptr + i]));
        i = i + 1;
    }
    out
}

fn locate(ptr: i32, len: i32, size: usize) -> (r: Option<(usize, usize)>)
    ensures
        match r {
            Some(p) => in_memory(ptr as int, len as int, size as nat) && p.0 == ptr && p.1 == len,
            None => !in_memory(ptr as int, len as int, size as nat),
        },
{
    if ptr < 0 || len < 0 {
        return None;
    }
    let start: usize = ptr as usize;
    let count: usize = len as usize;
    if start <= size && count <= size - start {
        Some((start, count))
    } else {
        None
    }
}

/// A pointer that does not lie in the guest's memory.
pub open spec fn stray_pointer(ptr: int, len: int) -> ErrorView {
    abi_error(
        "Guest pointer out of bounds (ptr="@ + dec_int(ptr) + ", len="@ + dec_int(len) + ")."@,
        "Return pointers inside the exported linear memory."@,
    )
}

/// Reads what a guest points to.
pub fn read_guest(memory: &[u8], ptr: i32, len: i32) -> (r: Result<Vec<u8>, TacitusError>)
    ensures
        if in_memory(ptr as int, len as int, memory@.len()) {
            r matches Ok(b) && b@ == memory@.subrange(ptr as int, ptr + len)
        } else {
            r matches Err(e) && e@ == stray_pointer(ptr as int, len as int)
        },
{
    match locate(ptr, len, memory.len()) {
        Some((start, count)) => Ok(bytes_at(memory, start, count)),
        None => {
            let mut reason = "Guest pointer out of bounds (ptr=".to_owned();
            reason.append(render_i64(ptr as i64).as_str());
            reason.append(", len=");
            reason.append(render_i64(len as i64).as_str());
            reason.append(").");
            Err(
                TacitusError::new(
                    "PLUGIN_ABI",
                    reason.as_str(),
                    "Return pointers inside the exported linear memory.",
                ),
            )
        },
    }
}

/// A place that the guest gave out and that cannot be written to.
pub open spec fn stray_place(ptr: int, len: int) -> ErrorView {
    abi_error(
        "tacitus_alloc returned an out-of-bounds pointer (ptr="@ + dec_int(ptr) + ", len="@
            + dec_int(len) + ")."@,
        "Make tacitus_alloc grow memory to fit the requested length."@,
    )
}

/// Where `len` bytes can be written that the guest has made place for.
pub fn write_place(size: usize, ptr: i32, len: usize) -> (r: Result<usize, TacitusError>)
    ensures
        if in_memory(ptr as int, len as int, size as nat) {
            r matches Ok(start) && start == ptr
        } else {
            r matches Err(e) && e@ == stray_place(ptr as int, len as int)
        },
{
    if ptr >= 0 {
        let start: usize = ptr as usize;
        if start <= size && len <= size - start {
            return Ok(start);
        }
    }
    let mut reason = "tacitus_alloc returned an out-of-bounds pointer (ptr=".to_owned();
    reason.append(render_i64(ptr as i64).as_str());
    reason.append(", len=");
    reason.append(render_u64(len as u64).as_str());
    reason.append(").");
    Err(
        TacitusError::new(
            "PLUGIN_ABI",
            reason.as_str(),
            "Make tacitus_alloc grow memory to fit the requested length.",
        ),
    )
}

/// `String::from_utf8`: the text that bytes encode, if they are UTF-8.
#[verifier::external_body]
fn text_of_bytes(bytes: Vec<u8>) -> (r: Option<String>)
    ensures
        match r {
            Some(s) => encode_utf8(s@) == bytes@,
            None => !valid_utf8(bytes@),
        },
{
    String::from_utf8(bytes).ok()
}

/// The text that `String::from_utf8_lossy` makes of bytes.
pub uninterp spec fn lossy_text(bytes: Seq<u8>) -> Seq<char>;

/// `String::from_utf8_lossy`.
#[verifier::external_body]
fn lossy(bytes: &Vec<u8>) -> (r: String)
    ensures
        r@ == lossy_text(bytes@),
{
    String::from_utf8_lossy(bytes).into_owned()
}

// ---------------------------------------------------------------------------
// Running
// ---------------------------------------------------------------------------

/// A loaded plugin.
#[derive(Debug)]
pub struct PluginInstance {
    pub manifest: PluginManifest,
    /// What the guest is refuelled with before each run.
    pub fuel_per_run: u64,
    /// What the guest has logged since the log was last taken.
    pub logs: Vec<(u8, String)>,
}

/// What is handed to a guest.
#[derive(Debug)]
pub struct Payload {
    pub text: String,
    /// Its length in bytes.
    pub len: i32,
}

/// The input of a run: what the caller passes, and who the plugin is.
pub open spec fn run_input(input: JsonView, name: Seq<char>, version: Seq<char>) -> JsonView {
    JsonView::Object(
        seq![
            ("input"@, input),
            (
                "plugin"@,
                JsonView::Object(
                    seq![
                        ("name"@, JsonView::Text(name)),
                        ("version"@, JsonView::Text(version)),
                    ],
                ),
            ),
        ],
    )
}

/// A number of 32 bits as a signed one.
pub open spec fn signed(n: u32) -> int {
    if n <= 0x7fff_ffff {
        n as int
    } else {
        n - 0x1_0000_0000
    }
}

fn to_signed(n: u32) -> (r: i32)
    ensures
        r == signed(n),
{
    if n <= 0x7fff_ffff {
        n as i32
    } else {
        ((n as i64) - 0x1_0000_0000) as i32
    }
}

/// The bits of a signed number.
pub open spec fn unsigned(n: i64) -> int {
    if n >= 0 {
        n as int
    } else {
        n + 0x1_0000_0000_0000_0000
    }
}

fn to_unsigned(n: i64) -> (r: u64)
    ensures
        r == unsigned(n),
{
    if n >= 0 {
        n as u64
    } else {
        ((n as i128) + 0x1_0000_0000_0000_0000) as u64
    }
}

/// What a guest's answer comes to: where its output lies, or why it has none.
pub open spec fn output_place(answer: Result<i64, GuestFault>) -> Result<(int, int), ErrorView> {
    match answer {
        Err(f) => Err(fault_error(f)),
        Ok(p) => if p == 0 {
            Err(
                abi_error(
                    "tacitus_run returned 0 instead of a packed ptr/len."@,
                    "Return pack(ptr, len) of a JSON envelope from tacitus_run."@,
                ),
            )
        } else {
            Ok(
                (
                    signed((unsigned(p) / 0x1_0000_0000) as u32),
                    signed((unsigned(p) % 0x1_0000_0000) as u32),
                ),
            )
        },
    }
}

/// What the output of a guest comes to.
pub open spec fn output_read(bytes: Seq<u8>, text: Option<Seq<char>>) -> Result<
    JsonView,
    ErrorView,
> {
    match text {
        None => Err(
            abi_error(
                "Guest returned non-UTF-8 output."@,
                "Return UTF-8 JSON from tacitus_run."@,
            ),
        ),
        Some(t) => match json_read(t) {
            Ok(j) => Ok(j),
            Err(e) => Err(
                abi_error(
                    "Guest returned invalid JSON: "@ + e + "."@,
                    "Return a { ok, data | error } JSON envelope from tacitus_run."@,
                ),
            ),
        },
    }
}

/// Whether `text` is what bytes encode, or nothing where they are not UTF-8.
pub open spec fn decodes(bytes: Seq<u8>, text: Option<Seq<char>>) -> bool {
    match text {
        Some(t) => encode_utf8(t) == bytes,
        None => !valid_utf8(bytes),
    }
}

/// What the output of a guest comes to, given its bytes.
pub open spec fn output_is(bytes: Seq<u8>, r: Result<JsonView, ErrorView>) -> bool {
    exists|text: Option<Seq<char>>|
        #[trigger] decodes(bytes, text) && r == output_read(bytes, text)
}

/// How grave a log line is, from 0 to 3.
pub open spec fn clamped(level: i32) -> int {
    if level < 0 {
        0
    } else if level > 3 {
        3
    } else {
        level as int
    }
}

/// The model of log lines.
pub open spec fn log_view(v: Seq<(u8, String)>) -> Seq<(u8, Seq<char>)> {
    v.map_values(|l: (u8, String)| (l.0, l.1@))
}

impl PluginInstance {
    pub fn manifest(&self) -> (r: &PluginManifest)
        ensures
            *r == self.manifest,
    {
        &self.manifest
    }

    /// What to hand to the guest for one run.
    pub fn payload(&self, input: &Json) -> (r: Result<Payload, TacitusError>)
        ensures
            ({
                let text = json_text(
                    run_input(input@, self.manifest.name@, self.manifest.version@),
                );
                if utf8_len(text) <= i32::MAX {
                    r matches Ok(p) && p.text@ == text && p.len == utf8_len(text)
                } else {
                    r matches Err(e) && e@ == abi_error(
                        "Input too large for the ABI."@,
                        "Pass smaller inputs."@,
                    )
                }
            }),
    {
        let mut who: Vec<(String, Json)> = Vec::new();
        who.push(("name".to_owned(), Json::Text(self.manifest.name.clone())));
        who.push(("version".to_owned(), Json::Text(self.manifest.version.clone())));
        let ghost whov = seq![
            ("name"@, JsonView::Text(self.manifest.name@)),
            ("version"@, JsonView::Text(self.manifest.version@)),
        ];
        assert(json_entries(who@) =~= whov);
        let plugin = Json::Object(who);
        proof {
            lemma_json_model(plugin);
        }
        let ghost pv = plugin@;
        let mut e: Vec<(String, Json)> = Vec::new();
        e.push(("input".to_owned(), input.copy()));
        e.push(("plugin".to_owned(), plugin));
        assert(json_entries(e@) =~= seq![("input"@, input@), ("plugin"@, pv)]);
        let whole = Json::Object(e);
        proof {
            lemma_json_model(whole);
        }
        let text = render_json(&whole);
        let n: usize = byte_len(text.as_str());
        if n <= 0x7fff_ffff {
            Ok(Payload { text, len: n as i32 })
        } else {
            let nothing = "";
            proof {
                reveal_strlit("");
                assert("Input too large for the ABI."@ + ""@ + ""@
                    =~= "Input too large for the ABI."@);
            }
            Err(
                plugin_abi(
                    "Input too large for the ABI.",
                    nothing,
                    nothing,
                    "Pass smaller inputs.",
                ),
            )
        }
    }

    /// Where the guest has put its output.
    pub fn output(&self, answer: &Result<i64, GuestFault>) -> (r: Result<(i32, i32), TacitusError>)
        ensures
            match output_place(*answer) {
                Ok(p) => r matches Ok(x) && x.0 == p.0 && x.1 == p.1,
                Err(e) => r matches Err(x) && x@ == e,
            },
    {
        match answer {
            Err(f) => Err(plugin_trap(f)),
            Ok(p) => {
                let p: i64 = *p;
                if p == 0 {
                    return Err(
                        TacitusError::new(
                            "PLUGIN_ABI",
                            "tacitus_run returned 0 instead of a packed ptr/len.",
                            "Return pack(ptr, len) of a JSON envelope from tacitus_run.",
                        ),
                    );
                }
                let bits: u64 = to_unsigned(p);
                let (ptr, len) = unpack(bits);
                assert(ptr == bits / 0x1_0000_0000 && len == bits % 0x1_0000_0000) by {
                    assert(packed(ptr, len) == bits);
                }
                Ok((to_signed(ptr), to_signed(len)))
            },
        }
    }

    /// The envelope that the guest has put out.
    pub fn reply(&self, bytes: Vec<u8>) -> (r: Result<Json, TacitusError>)
        ensures
            output_is(
                bytes@,
                match r {
                    Ok(j) => Ok(j@),
                    Err(e) => Err(e@),
                },
            ),
    {
        let ghost b = bytes@;
        let text = text_of_bytes(bytes);
        assert(decodes(b, opt_text(text)));
        match text {
            None => Err(
                TacitusError::new(
                    "PLUGIN_ABI",
                    "Guest returned non-UTF-8 output.",
                    "Return UTF-8 JSON from tacitus_run.",
                ),
            ),
            Some(t) => match parse_json(t.as_str()) {
                Ok(j) => Ok(j),
                Err(e) => Err(
                    plugin_abi(
                        "Guest returned invalid JSON: ",
                        e.as_str(),
                        ".",
                        "Return a { ok, data | error } JSON envelope from tacitus_run.",
                    ),
                ),
            },
        }
    }

    /// Keeps a line that the guest logs. A broken pointer traps the guest.
    pub fn log(&mut self, memory: &[u8], level: i32, ptr: i32, len: i32) -> (r: Result<
        (),
        &'static str,
    >)
        ensures
            final(self).manifest == old(self).manifest,
            final(self).fuel_per_run == old(self).fuel_per_run,
            match slice_refused(ptr as int, len as int, memory@.len()) {
                Some(m) => r matches Err(x) && x@ == m && final(self).logs == old(self).logs,
                None => r is Ok && log_view(final(self).logs@) == log_view(old(self).logs@).push(
                    (
                        clamped(level) as u8,
                        lossy_text(memory@.subrange(ptr as int, ptr + len)),
                    ),
                ),
            },
    {
        let bytes = match guest_slice(memory, ptr, len) {
            Ok(b) => b,
            Err(m) => {
                return Err(m);
            },
        };
        let level: u8 = if level < 0 {
            0
        } else if level > 3 {
            3
        } else {
            level as u8
        };
        let ghost prev = log_view(self.logs@);
        self.logs.push((level, lossy(&bytes)));
        assert(log_view(self.logs@) =~= prev.push(
            (level, lossy_text(memory@.subrange(ptr as int, ptr + len))),
        ));
        Ok(())
    }

    /// Takes the lines that the guest has logged since the last time.
    pub fn drain_logs(&mut self) -> (r: Vec<(u8, String)>)
        ensures
            r == old(self).logs,
            final(self).logs@.len() == 0,
            final(self).manifest == old(self).manifest,
            final(self).fuel_per_run == old(self).fuel_per_run,
    {
        let mut taken: Vec<(u8, String)> = Vec::new();
        std::mem::swap(&mut taken, &mut self.logs);
        taken
    }
}

// ---------------------------------------------------------------------------
// Calls of the guest
// ---------------------------------------------------------------------------

/// Why the guest is trapped for what it points to.
pub open spec fn slice_refused(ptr: int, len: int, size: nat) -> Option<Seq<char>> {
    if ptr < 0 {
        Some("negative pointer"@)
    } else if len < 0 {
        Some("negative length"@)
    } else if ptr + len > size {
        Some("pointer out of bounds"@)
    } else {
        None
    }
}

/// What the guest points to, or why it is trapped.
pub fn guest_slice(memory: &[u8], ptr: i32, len: i32) -> (r: Result<Vec<u8>, &'static str>)
    ensures
        match slice_refused(ptr as int, len as int, memory@.len()) {
            Some(m) => r matches Err(x) && x@ == m,
            None => r matches Ok(b) && b@ == memory@.subrange(ptr as int, ptr + len),
        },
{
    if ptr < 0 {
        return Err("negative pointer");
    }
    if len < 0 {
        return Err("negative length");
    }
    match locate(ptr, len, memory.len()) {
        Some((start, count)) => Ok(bytes_at(memory, start, count)),
        None => Err("pointer out of bounds"),
    }
}

/// The text that the guest points to, or why it is trapped.
pub fn guest_text(memory: &[u8], ptr: i32, len: i32) -> (r: Result<String, &'static str>)
    ensures
        match slice_refused(ptr as int, len as int, memory@.len()) {
            Some(m) => r matches Err(x) && x@ == m,
            None => match r {
                Ok(s) => encode_utf8(s@) == memory@.subrange(ptr as int, ptr + len),
                Err(x) => x@ == "non-UTF-8 string"@ && !valid_utf8(
                    memory@.subrange(ptr as int, ptr + len),
                ),
            },
        },
{
    match guest_slice(memory, ptr, len) {
        Ok(b) => match text_of_bytes(b) {
            Some(s) => Ok(s),
            None => Err("non-UTF-8 string"),
        },
        Err(m) => Err(m),
    }
}

/// The arguments of a guest's call.
pub enum CallArgs {
    /// They are no JSON.
    NotJson(String),
    /// They are JSON: what they were read as, or why they do not fit the tool.
    Read(Result<ToolCall, String>),
}

/// Arguments that are no JSON.
pub open spec fn bad_json_args(e: Seq<char>) -> ErrorView {
    error(
        "INVALID_INPUT"@,
        "tacitus.call args are not valid JSON: "@ + e + "."@,
        "Pass UTF-8 JSON args to tacitus.call."@,
    )
}

fn not_json(e: &str) -> (r: TacitusError)
    ensures
        r@ == bad_json_args(e@),
{
    let mut reason = "tacitus.call args are not valid JSON: ".to_owned();
    reason.append(e);
    reason.append(".");
    TacitusError::new(
        "INVALID_INPUT",
        reason.as_str(),
        "Pass UTF-8 JSON args to tacitus.call.",
    )
}

/// What a guest's call of a tool came to, and what it is answered.
pub open spec fn guest_called(
    tool: Seq<char>,
    args: CallArgs,
    allow: Seq<Seq<char>>,
    g0: ToolRegistry,
    g1: ToolRegistry,
    r0: Records,
    r1: Records,
    at: Moment,
    reply: JsonView,
) -> bool {
    match args {
        CallArgs::NotJson(e) => reply == err_object(bad_json_args(e@)) && g1 == g0 && r1 == r0,
        CallArgs::Read(call) => exists|r: Result<ToolData, TacitusError>|
            #[trigger] plugin_dispatched(tool, call, Some(allow), g0, g1, r0, r1, at, r) && reply
                == envelope_of(r),
    }
}

/// Answers a guest's call of a tool: always an envelope, never a trap.
pub fn host_call(
    registry: &mut ToolRegistry,
    rec: &mut Records,
    tool: &str,
    args: CallArgs,
    allowlist: &Vec<String>,
    at: &Moment,
) -> (r: Json)
    ensures
        guest_called(
            tool@,
            args,
            texts(allowlist@),
            *old(registry),
            *final(registry),
            *old(rec),
            *final(rec),
            *at,
            r@,
        ),
{
    match args {
        CallArgs::NotJson(e) => err_envelope(&not_json(e.as_str())),
        CallArgs::Read(call) => {
            let ghost g0 = *registry;
            let ghost r0 = *rec;
            let done = registry.dispatch(rec, tool, call, Some(allowlist), at);
            assert(plugin_dispatched(
                tool@,
                call,
                Some(texts(allowlist@)),
                g0,
                *registry,
                r0,
                *rec,
                *at,
                done,
            ));
            envelope(&done)
        },
    }
}

/// What a guest's call of a tool of the server came to, and what it is
/// answered.
pub open spec fn guest_called_shared(
    tool: Seq<char>,
    args: CallArgs,
    allow: Seq<Seq<char>>,
    g0: crate::tools::registry::ToolRegistry,
    g1: crate::tools::registry::ToolRegistry,
    r0: Records,
    r1: Records,
    at: Moment,
    reply: JsonView,
) -> bool {
    match args {
        CallArgs::NotJson(e) => reply == err_object(bad_json_args(e@)) && g1 == g0 && r1 == r0,
        CallArgs::Read(call) => exists|r: Result<ToolData, TacitusError>|
            #[trigger] tool_dispatched(tool, call, Some(allow), g0, g1, r0, r1, at, r) && reply
                == envelope_of(r),
    }
}

/// Answers a guest's call of a tool where the guest shares the tools of the
/// server: always an envelope, never a trap.
pub fn shared_host_call(
    registry: &mut crate::tools::registry::ToolRegistry,
    rec: &mut Records,
    tool: &str,
    args: CallArgs,
    allowlist: &Vec<String>,
    at: &Moment,
) -> (r: Json)
    ensures
        guest_called_shared(
            tool@,
            args,
            texts(allowlist@),
            *old(registry),
            *final(registry),
            *old(rec),
            *final(rec),
            *at,
            r@,
        ),
{
    match args {
        CallArgs::NotJson(e) => err_envelope(&not_json(e.as_str())),
        CallArgs::Read(call) => {
            let ghost g0 = *registry;
            let ghost r0 = *rec;
            let done = registry.dispatch(rec, tool, call, Some(allowlist), at);
            assert(tool_dispatched(
                tool@,
                call,
                Some(texts(allowlist@)),
                g0,
                *registry,
                r0,
                *rec,
                *at,
                done,
            ));
            envelope(&done)
        },
    }
}

/// How many bytes an envelope takes, or why the guest is trapped.
pub fn envelope_len(text: &str) -> (r: Result<i32, &'static str>)
    ensures
        if utf8_len(text@) <= i32::MAX {
            r matches Ok(n) && n == utf8_len(text@)
        } else {
            r matches Err(x) && x@ == "envelope too large"@
        },
{
    let n: usize = byte_len(text);
    if n <= 0x7fff_ffff {
        Ok(n as i32)
    } else {
        Err("envelope too large")
    }
}

/// Where an envelope goes that the guest has made place for, and what the guest
/// is told, or why it is trapped.
pub fn envelope_place(size: usize, ptr: i32, len: i32) -> (r: Result<(usize, i64), &'static str>)
    requires
        len >= 0,
    ensures
        if ptr < 0 {
            r matches Err(x) && x@ == "negative alloc pointer"@
        } else if ptr + len > size {
            r matches Err(x) && x@ == "tacitus_alloc returned out-of-bounds pointer"@
        } else {
            r matches Ok(p) && p.0 == ptr && p.1 == packed(ptr as u32, len as u32)
        },
{
    if ptr < 0 {
        return Err("negative alloc pointer");
    }
    match locate(ptr, len, size) {
        Some((start, _)) => {
            let told: u64 = pack(ptr as u32, len as u32);
            Ok((start, told as i64))
        },
        None => Err("tacitus_alloc returned out-of-bounds pointer"),
    }
}

/// A guest reads back what it is told: the packed place of an envelope is its
/// pointer and its length, and never the number that stands for no output.
pub proof fn law_told_places_read_back(ptr: i32, len: i32)
    requires
        0 <= ptr,
        0 < len,
    ensures
        packed(ptr as u32, len as u32) <= i64::MAX,
        output_place(Ok(packed(ptr as u32, len as u32) as i64)) == Ok::<(int, int), ErrorView>(
            (ptr as int, len as int),
        ),
{
}

} // verus!

//! Plugins: the protocol, manifests, the host's decisions, and their tools.
use tacitus::error::TacitusError;
use tacitus::plugins::abi::{pack, unpack, ABI_VERSION};
use tacitus::plugins::host::{
    envelope_len, envelope_place, guest_slice, guest_text, host_call, plugin_trap, read_guest,
    shared_host_call, write_place, CallArgs, Export, Exports, GuestFault, HostConfig, LoadPlan,
    ModuleFound, PluginHost, PluginInstance,
};
use tacitus::plugins::manifest::{valid_name, ManifestRead, PluginManifest};
use tacitus::plugins::registry::ToolRegistry;
use tacitus::strmap::StrMap;
use tacitus::tools::answer::envelope;
use tacitus::tools::args::{
    CreateNoteArgs, GetNoteArgs, RecallQuery, RememberArgs, SearchToolArgs, SourceArg,
};
use tacitus::tools::registry::{Moment, Records, ToolCall, ToolData};
use tacitus::vault::json::{parse_json, render_json, Json};
use tacitus::vault::template::Clock;
use tacitus::vault::write::PermissionScope;
use tacitus::vault::writer::Vault;

const VALID: &str = r#"
name = "hello-tacitus"
version = "0.1.0"
description = "Read-only vault digest."
entry = "hello.wasm"

[permissions]
scope = "read-only"
tools = ["capabilities", "search", "get_note"]
"#;

fn records() -> Records {
    let mut vault = Vault::new();
    for (id, raw) in [
        ("notes/alpha", "# Alpha\n\nLaunch checklist for the alpha release.\n"),
        ("notes/beta", "# Beta\n\nNotes about the beta program. See [[notes/alpha]].\n"),
    ] {
        vault.files.insert(id.to_string(), raw.to_string());
        vault.index.upsert_raw(&format!("{id}.md"), raw);
    }
    Records { vault, memories: StrMap::new(), templates: StrMap::new() }
}

fn now() -> Moment {
    Moment {
        millis: 1,
        now: "2030-01-01T00:00:00.000Z".to_string(),
        clock: Clock { date: String::new(), time: String::new(), datetime: String::new() },
    }
}

fn ro() -> ToolRegistry {
    ToolRegistry::standard("/v", PermissionScope::ReadOnly, "1.0.0")
}

fn rw() -> ToolRegistry {
    ToolRegistry::standard("/v", PermissionScope::ReadWrite, "1.0.0")
}

fn allow(names: &[&str]) -> Vec<String> {
    names.iter().map(|s| s.to_string()).collect()
}

fn call(reg: &mut ToolRegistry, rec: &mut Records, c: ToolCall) -> Result<ToolData, TacitusError> {
    let name = c.name().to_string();
    reg.dispatch(rec, &name, Ok(c), None, &now())
}

fn pick<'a>(j: &'a Json, path: &[&str]) -> &'a Json {
    let mut here = j;
    for step in path {
        here = match here {
            Json::Object(e) => &e.iter().find(|x| x.0 == *step).unwrap().1,
            Json::List(v) => &v[step.parse::<usize>().unwrap()],
            _ => panic!("nothing under {step}"),
        };
    }
    here
}

fn shown(r: &Result<ToolData, TacitusError>, path: &[&str]) -> String {
    render_json(pick(&envelope(r), path))
}

fn search(query: &str) -> ToolCall {
    ToolCall::Search(SearchToolArgs {
        query: query.to_string(),
        mode: None,
        token_budget: None,
        top_k: None,
    })
}

fn create(note_id: &str, content: &str) -> ToolCall {
    ToolCall::CreateNote(CreateNoteArgs {
        note_id: note_id.to_string(),
        content: content.to_string(),
        frontmatter: None,
    })
}

fn fixture(tools: &str, scope: &str) -> String {
    format!(
        "name = \"fixture\"\nversion = \"0.0.1\"\nentry = \"plugin.wasm\"\n\n[permissions]\nscope = \"{scope}\"\ntools = [{tools}]\n"
    )
}

fn plan(src: &str) -> Result<LoadPlan, TacitusError> {
    PluginHost::new(HostConfig::default()).plan(
        "/p/fixture",
        &Some("fixture".to_string()),
        &ManifestRead::Text(src.to_string()),
        &ToolRegistry::descriptors(),
    )
}

fn instance() -> PluginInstance {
    let host = PluginHost::new(HostConfig::default());
    host.ready(plan(&fixture("", "read-only")).unwrap(), &Ok(ABI_VERSION)).unwrap()
}

fn all_exports() -> Exports {
    Exports {
        memory: true,
        abi_version: Export::Found,
        alloc: Export::Found,
        dealloc: Export::Found,
        run: Export::Found,
    }
}

#[test]
fn pack_unpack_roundtrip() {
    for (ptr, len) in [(0u32, 0u32), (1024, 17), (u32::MAX, u32::MAX)] {
        assert_eq!(unpack(pack(ptr, len)), (ptr, len));
    }
    assert_eq!(pack(1, 2), 0x1_0000_0002);
}

#[test]
fn manifest_parses_valid_toml() {
    let m = PluginManifest::parse(VALID).unwrap();
    assert_eq!(m.name, "hello-tacitus");
    assert_eq!(m.version, "0.1.0");
    assert_eq!(m.entry, "hello.wasm");
    assert_eq!(m.permissions.scope, PermissionScope::ReadOnly);
    assert_eq!(m.permissions.tools, ["capabilities", "search", "get_note"]);
    m.validate(&ToolRegistry::descriptors()).unwrap();
}

#[test]
fn manifest_rejects_unknown_tool() {
    let src = VALID.replace("\"search\"", "\"serach\"");
    let m = PluginManifest::parse(&src).unwrap();
    let e = m.validate(&ToolRegistry::descriptors()).unwrap_err();
    assert_eq!(e.code, "INVALID_MANIFEST");
    assert!(e.reason.contains("serach"), "reason names the bad tool");
    assert!(e.suggestion.contains("search"), "suggestion lists valid tools");
}

#[test]
fn manifest_rejects_write_tool_with_readonly_scope() {
    let src = VALID.replace("\"search\"", "\"create_note\"");
    let m = PluginManifest::parse(&src).unwrap();
    let e = m.validate(&ToolRegistry::descriptors()).unwrap_err();
    assert_eq!(e.code, "INVALID_MANIFEST");
    assert!(e.reason.contains("create_note"));
    assert!(e.reason.contains("read-only"));
}

#[test]
fn manifest_rejects_entry_escape() {
    for entry in ["../../evil.wasm", "/tmp/evil.wasm"] {
        let src = VALID.replace("hello.wasm", entry);
        let m = PluginManifest::parse(&src).unwrap();
        let e = m.wasm_path("/vault/.tacitus/plugins/x").unwrap_err();
        assert_eq!(e.code, "INVALID_MANIFEST", "entry {entry:?} must be rejected");
    }
    // The happy path stays inside the plugin dir.
    let m = PluginManifest::parse(VALID).unwrap();
    let p = m.wasm_path("/vault/.tacitus/plugins/x").unwrap();
    assert_eq!(p, "/vault/.tacitus/plugins/x/hello.wasm");
}

#[test]
fn manifest_rejects_bad_name_and_unknown_keys() {
    let bad_name = VALID.replace("hello-tacitus", "Hello Tacitus!");
    let e = PluginManifest::parse(&bad_name).unwrap_err();
    assert_eq!(e.code, "INVALID_MANIFEST");

    let unknown_key = format!("{VALID}\nnetwork = true\n");
    let e = PluginManifest::parse(&unknown_key).unwrap_err();
    assert_eq!(e.code, "INVALID_MANIFEST", "deny_unknown_fields fires");
    assert!(e.reason.contains("network"));
}

#[test]
fn manifest_names_what_is_missing_or_of_the_wrong_type() {
    for (from, to, word) in [
        ("version = \"0.1.0\"\n", "", "version"),
        ("entry = \"hello.wasm\"", "entry = 3", "entry"),
        ("scope = \"read-only\"\n", "", "scope"),
        ("scope = \"read-only\"", "scope = \"root\"", "scope"),
        ("\"search\"", "7", "tools"),
        ("description = \"Read-only vault digest.\"", "hooks = 1", "hooks"),
        ("name = \"hello-tacitus\"", "name = ", "name"),
    ] {
        let e = PluginManifest::parse(&VALID.replace(from, to)).unwrap_err();
        assert_eq!(e.code, "INVALID_MANIFEST");
        assert!(e.reason.contains(word), "{}", e.reason);
    }
}

#[test]
fn manifest_takes_hooks_and_every_way_to_write_the_permissions() {
    let head = "name = \"x\"\nversion = \"1\"\nentry = \"x.wasm\"\nhooks = [\"note_saved\"]\n";
    for permissions in [
        "permissions = { scope = \"read-write\", tools = [\"search\"] }",
        "permissions = [\"read-write\", [\"search\"]]",
        "permissions = { scope = { read-write = {} }, tools = [\"search\"] }",
    ] {
        let m = PluginManifest::parse(&format!("{head}{permissions}\n")).unwrap();
        assert_eq!(m.hooks, ["note_saved"]);
        assert_eq!(m.description, None);
        assert_eq!(m.permissions.scope, PermissionScope::ReadWrite);
        assert_eq!(m.permissions.tools, ["search"]);
    }
}

#[test]
fn manifest_load_missing_file_is_structured() {
    let e = PluginManifest::load(
        "/tmp/tacitus-plugins-no-manifest",
        &Some("tacitus-plugins-no-manifest".to_string()),
        &ManifestRead::Unreadable("No such file or directory (os error 2)".to_string()),
    )
    .unwrap_err();
    assert_eq!(e.code, "INVALID_MANIFEST");
    assert!(e.suggestion.contains("tacitus-plugin.toml"));
    assert!(e.reason.contains("/tmp/tacitus-plugins-no-manifest/tacitus-plugin.toml"));
}

#[test]
fn manifest_name_is_pinned_to_its_directory() {
    let read = ManifestRead::Text(VALID.to_string());
    let e = PluginManifest::load("/p/other", &Some("other".to_string()), &read).unwrap_err();
    assert_eq!(e.code, "INVALID_MANIFEST");
    assert!(PluginManifest::load("/p/x", &Some("hello-tacitus".to_string()), &read).is_ok());
    assert!(PluginManifest::load("/", &None, &read).is_ok());
}

#[test]
fn a_manifest_is_refused_in_the_words_of_the_decoder() {
    let complaint = "TOML parse error at line 1, column 1\nmissing field `name`\n";
    let read = ManifestRead::Refused(complaint.to_string());
    let e = PluginManifest::load("/p/x", &None, &read).unwrap_err();
    assert_eq!(e.code, "INVALID_MANIFEST");
    assert_eq!(e.reason, format!("Manifest does not parse: {complaint}"));
    let text = "not = valid = toml";
    let e = PluginManifest::parse(text).unwrap_err();
    let said = toml::from_str::<toml::Table>(text).unwrap_err().to_string();
    assert_eq!(e.reason, format!("Manifest does not parse: {said}"));
}

#[test]
fn names_are_lowercase_letters_digits_and_dashes() {
    assert!(valid_name("vault-digest"));
    assert!(valid_name("0"));
    for bad in ["", "-x", "Vault", "a_b", "a b", "é"] {
        assert!(!valid_name(bad), "{bad:?}");
    }
}

#[test]
fn registry_dispatch_search_returns_hits_envelope() {
    let mut rec = records();
    let out = call(&mut ro(), &mut rec, search("alpha launch"));
    assert_eq!(shown(&out, &["ok"]), "true");
    for key in ["note_id", "title", "score", "snippet", "token_count"] {
        assert!(!shown(&out, &["data", "hits", "0", key]).is_empty(), "hit has {key}");
    }
}

#[test]
fn registry_dispatch_unknown_tool_is_invalid_input() {
    let mut rec = records();
    let out = ro().dispatch(&mut rec, "no_such_tool", Err(String::new()), None, &now());
    assert_eq!(shown(&out, &["ok"]), "false");
    assert_eq!(shown(&out, &["error", "code"]), "\"INVALID_INPUT\"");
    assert!(shown(&out, &["error", "suggestion"]).contains("search"));
}

#[test]
fn registry_dispatch_denies_tool_missing_from_allowlist() {
    let mut rec = records();
    let allowed = allow(&["get_note"]);
    let out = ro().dispatch(&mut rec, "search", Ok(search("alpha")), Some(&allowed), &now());
    assert_eq!(shown(&out, &["ok"]), "false");
    assert_eq!(shown(&out, &["error", "code"]), "\"PERMISSION_DENIED\"");
    assert!(shown(&out, &["error", "suggestion"]).contains("tacitus-plugin.toml"));
}

#[test]
fn registry_dispatch_create_note_readonly_scope_denied() {
    let mut rec = records();
    let out = call(&mut ro(), &mut rec, create("notes/x", "hi"));
    assert_eq!(shown(&out, &["ok"]), "false");
    assert_eq!(shown(&out, &["error", "code"]), "\"PERMISSION_DENIED\"");
}

#[test]
fn registry_dispatch_create_then_get_note_roundtrip() {
    let mut rec = records();
    let mut reg = rw();
    let out = call(&mut reg, &mut rec, create("notes/fresh", "hello from a plugin"));
    assert_eq!(shown(&out, &["ok"]), "true");
    assert!(shown(&out, &["data", "version_id"]).starts_with("\"v_"));
    let out = call(
        &mut reg,
        &mut rec,
        ToolCall::GetNote(GetNoteArgs {
            note_id: "notes/fresh".to_string(),
            format: Some("full".to_string()),
            max_tokens: None,
        }),
    );
    assert!(shown(&out, &["data", "content"]).contains("hello from a plugin"));
}

#[test]
fn registry_dispatch_remember_then_recall_roundtrip() {
    let mut rec = records();
    let mut reg = rw();
    let out = call(
        &mut reg,
        &mut rec,
        ToolCall::Remember(RememberArgs {
            content: "The plugin marketplace launches in autumn.".to_string(),
            memory_type: "project".to_string(),
            tags: vec![],
            key: None,
            source: Some(SourceArg {
                origin: "test".to_string(),
                author: "agent".to_string(),
                timestamp: None,
            }),
            ttl: None,
        }),
    );
    assert_eq!(shown(&out, &["ok"]), "true");
    let out = call(
        &mut reg,
        &mut rec,
        ToolCall::Recall(RecallQuery {
            query: "marketplace launch".to_string(),
            memory_type: None,
            token_budget: None,
        }),
    );
    assert!(shown(&out, &["data", "items", "0", "memory", "content"]).contains("autumn"));
}

#[test]
fn registry_dispatch_capabilities_reflects_allowlist_only() {
    let mut rec = records();
    let allowed = allow(&["capabilities", "search"]);
    let out = ro().dispatch(
        &mut rec,
        "capabilities",
        Ok(ToolCall::Capabilities),
        Some(&allowed),
        &now(),
    );
    assert_eq!(shown(&out, &["ok"]), "true");
    let names: Vec<String> = match &out {
        Ok(ToolData::Capabilities(c)) => c.tools.iter().map(|t| t.name.to_string()).collect(),
        _ => panic!("no capabilities"),
    };
    assert_eq!(names, ["capabilities", "search"], "allowlist only, not all tools");
    assert_eq!(shown(&out, &["data", "permissions", "scope"]), "\"read-only\"");
    assert_eq!(shown(&out, &["data", "server"]), "\"tacitus-plugins\"");
}

#[test]
fn registry_dispatch_never_panics_on_malformed_args() {
    let mut rec = records();
    for tool in ["search", "get_note"] {
        let out = ro().dispatch(&mut rec, tool, Err("invalid type".to_string()), None, &now());
        assert_eq!(shown(&out, &["ok"]), "false");
        assert_eq!(shown(&out, &["error", "code"]), "\"INVALID_INPUT\"");
    }
}

#[test]
fn a_tool_of_the_server_alone_is_out_of_a_plugins_reach() {
    let mut rec = records();
    let out = rw().dispatch(&mut rec, "forget", Err(String::new()), None, &now());
    assert_eq!(out.err().unwrap().code, "INVALID_INPUT");
    let out = rw().run_tool(&mut rec, ToolCall::ListTemplates, None, &now());
    let e = out.err().unwrap();
    assert_eq!(e.code, "INTERNAL");
    assert_eq!(e.suggestion, "Report this as a tacitus-plugins bug.");
}

#[test]
fn host_rejects_missing_exports() {
    let host = PluginHost::new(HostConfig::default());
    let p = plan(&fixture("", "read-only")).unwrap();
    assert_eq!(p.wasm_path, "/p/fixture/plugin.wasm");
    let mut x = all_exports();
    x.memory = false;
    let e = host.examine(&p, &ModuleFound::Linked(x)).unwrap_err();
    assert_eq!(e.code, "PLUGIN_ABI");
    assert!(e.reason.contains("memory"), "names the missing export");
    let mut x = all_exports();
    x.dealloc = Export::Missing;
    let e = host.examine(&p, &ModuleFound::Linked(x)).unwrap_err();
    assert!(e.reason.contains("\"tacitus_dealloc\""));
    let mut x = all_exports();
    x.run = Export::Mistyped("expected 2 params".to_string());
    let e = host.examine(&p, &ModuleFound::Linked(x)).unwrap_err();
    assert!(e.reason.contains("wrong signature: expected 2 params"));
    assert!(host.examine(&p, &ModuleFound::Linked(all_exports())).is_ok());
}

#[test]
fn host_rejects_modules_that_cannot_be_read_compiled_or_linked() {
    let host = PluginHost::new(HostConfig::default());
    let p = plan(&fixture("", "read-only")).unwrap();
    let e = host.examine(&p, &ModuleFound::Unreadable("gone".to_string())).unwrap_err();
    assert_eq!(e.code, "IO_ERROR");
    assert_eq!(e.reason, "Cannot read wasm module /p/fixture/plugin.wasm: gone.");
    let e = host.examine(&p, &ModuleFound::Invalid("bad magic".to_string())).unwrap_err();
    assert_eq!(e.code, "PLUGIN_ABI");
    let e = host.examine(&p, &ModuleFound::Unlinkable("env.x".to_string())).unwrap_err();
    assert!(e.suggestion.contains("tacitus.call and tacitus.log"));
}

#[test]
fn host_rejects_wrong_abi_version() {
    let host = PluginHost::new(HostConfig::default());
    let e = host.ready(plan(&fixture("", "read-only")).unwrap(), &Ok(2)).unwrap_err();
    assert_eq!(e.code, "PLUGIN_ABI");
    assert!(e.reason.contains("ABI v2"), "names the version");
    let trap = Err(GuestFault::Trapped("unreachable".to_string()));
    let e = host.ready(plan(&fixture("", "read-only")).unwrap(), &trap).unwrap_err();
    assert_eq!(e.code, "PLUGIN_TRAP");
}

#[test]
fn a_plan_checks_the_tools_before_any_module_is_read() {
    assert_eq!(plan(&fixture("\"nope\"", "read-only")).unwrap_err().code, "INVALID_MANIFEST");
    let e = plan(&fixture("\"create_note\"", "read-only")).unwrap_err();
    assert!(e.reason.contains("read-only"));
    assert!(plan(&fixture("\"create_note\"", "read-write")).is_ok());
    let escaping = fixture("", "read-only").replace("plugin.wasm", "../plugin.wasm");
    assert!(plan(&escaping).unwrap_err().reason.contains("escapes"));
}

#[test]
fn host_runs_echo_guest() {
    let plugin = instance();
    let input = parse_json(r#"{ "query": "roundtrip" }"#).unwrap();
    let payload = plugin.payload(&input).unwrap();
    assert_eq!(payload.len as usize, payload.text.len());
    // The guest hands the input back where it found it.
    let mut memory = vec![0u8; 4096];
    let start = write_place(memory.len(), 1024, payload.text.len()).unwrap();
    memory[start..start + payload.text.len()].copy_from_slice(payload.text.as_bytes());
    let packed = pack(1024, payload.len as u32) as i64;
    let (ptr, len) = plugin.output(&Ok(packed)).unwrap();
    let out = plugin.reply(read_guest(&memory, ptr, len).unwrap()).unwrap();
    assert_eq!(render_json(pick(&out, &["input", "query"])), "\"roundtrip\"");
    assert_eq!(render_json(pick(&out, &["plugin", "name"])), "\"fixture\"");
    assert_eq!(render_json(pick(&out, &["plugin", "version"])), "\"0.0.1\"");
}

#[test]
fn guest_call_search_flows_through() {
    let mut rec = records();
    let args = CallArgs::Read(Ok(search("launch")));
    let out = host_call(&mut ro(), &mut rec, "search", args, &allow(&["search"]), &now());
    assert_eq!(render_json(pick(&out, &["ok"])), "true");
    assert_eq!(render_json(pick(&out, &["data", "hits", "0", "note_id"])), "\"notes/alpha\"");
}

#[test]
fn guest_write_tool_flows_through_readwrite_manifest() {
    let mut rec = records();
    let args = CallArgs::Read(Ok(create("notes/from-guest", "hello")));
    let allowed = allow(&["create_note"]);
    let out = host_call(&mut rw(), &mut rec, "create_note", args, &allowed, &now());
    assert_eq!(render_json(pick(&out, &["ok"])), "true");
    assert!(render_json(pick(&out, &["data", "version_id"])).starts_with("\"v_"));
    assert!(rec.vault.files.contains_key("notes/from-guest"), "the note landed");
}

#[test]
fn guest_call_undeclared_tool_gets_envelope_not_trap() {
    let mut rec = records();
    let args = CallArgs::Read(Ok(search("launch")));
    let out = host_call(&mut ro(), &mut rec, "search", args, &allow(&[]), &now());
    assert_eq!(render_json(pick(&out, &["ok"])), "false");
    assert_eq!(render_json(pick(&out, &["error", "code"])), "\"PERMISSION_DENIED\"");
}

#[test]
fn guest_call_with_broken_json_gets_an_envelope() {
    let mut rec = records();
    let args = CallArgs::NotJson("EOF while parsing".to_string());
    let out = host_call(&mut ro(), &mut rec, "search", args, &allow(&["search"]), &now());
    assert_eq!(render_json(pick(&out, &["error", "code"])), "\"INVALID_INPUT\"");
    let mut shared = tacitus::tools::registry::ToolRegistry::standard(
        "/v",
        PermissionScope::ReadOnly,
        "1",
    );
    let args = CallArgs::NotJson("EOF while parsing".to_string());
    let out = shared_host_call(&mut shared, &mut rec, "search", args, &allow(&["search"]), &now());
    assert!(render_json(&out).contains("tacitus.call args are not valid JSON: EOF while parsing."));
    let args = CallArgs::Read(Ok(ToolCall::ListTemplates));
    let allowed = allow(&["list_templates"]);
    let out = shared_host_call(&mut shared, &mut rec, "list_templates", args, &allowed, &now());
    assert_eq!(render_json(&out), r#"{"data":{"templates":[]},"ok":true}"#);
}

#[test]
fn runaway_guest_exhausts_fuel() {
    let e = plugin_trap(&GuestFault::Trapped("all fuel consumed by WebAssembly".to_string()));
    assert_eq!(e.code, "PLUGIN_TRAP");
    assert!(e.reason.contains("fuel"), "mentions fuel");
    let e = instance().output(&Err(GuestFault::Failed("oops".to_string()))).unwrap_err();
    assert_eq!(e.reason, "Guest failed: oops.");
}

#[test]
fn run_refuels_between_calls() {
    let host = PluginHost::new(HostConfig {
        fuel_per_run: 5_000_000,
        max_memory_bytes: 1 << 20,
        epoch_deadline_ms: None,
    });
    let plugin = host.ready(plan(&fixture("", "read-only")).unwrap(), &Ok(1)).unwrap();
    assert_eq!(plugin.fuel_per_run, 5_000_000);
    assert_eq!(HostConfig::default().fuel_per_run, 1_000_000_000);
    assert_eq!(HostConfig::default().max_memory_bytes, 64 * 1024 * 1024);
}

#[test]
fn guest_invalid_json_is_plugin_abi() {
    let plugin = instance();
    let e = plugin.reply(b"not json".to_vec()).unwrap_err();
    assert_eq!(e.code, "PLUGIN_ABI");
    assert!(e.reason.contains("JSON"), "mentions JSON");
    let e = plugin.reply(vec![0xff, 0xfe]).unwrap_err();
    assert_eq!(e.reason, "Guest returned non-UTF-8 output.");
    let e = plugin.output(&Ok(0)).unwrap_err();
    assert_eq!(e.code, "PLUGIN_ABI");
}

#[test]
fn guest_trap_maps_to_structured_error() {
    let e = plugin_trap(&GuestFault::Trapped(
        "wasm `unreachable` instruction executed".to_string(),
    ));
    assert_eq!(e.code, "PLUGIN_TRAP");
    assert!(e.reason.contains("unreachable"), "names the trap");
}

#[test]
fn tacitus_log_captured() {
    let mut plugin = instance();
    let memory = b"..hello from guest\xff".to_vec();
    plugin.log(&memory, 1, 2, 16).unwrap();
    assert_eq!(plugin.drain_logs(), vec![(1u8, "hello from guest".to_string())]);
    assert!(plugin.drain_logs().is_empty(), "drain drains");
    plugin.log(&memory, 99, 18, 1).unwrap();
    plugin.log(&memory, -5, 0, 2).unwrap();
    assert_eq!(
        plugin.drain_logs(),
        vec![(3u8, "\u{fffd}".to_string()), (0u8, "..".to_string())]
    );
    assert_eq!(plugin.log(&memory, 1, 0, 20).unwrap_err(), "pointer out of bounds");
}

#[test]
fn pointers_outside_the_guests_memory_are_refused() {
    let memory = vec![1u8, 2, 3];
    assert_eq!(read_guest(&memory, 1, 2).unwrap(), vec![2, 3]);
    assert_eq!(read_guest(&memory, 3, 0).unwrap(), Vec::<u8>::new());
    let e = read_guest(&memory, 2, 2).unwrap_err();
    assert_eq!(e.reason, "Guest pointer out of bounds (ptr=2, len=2).");
    assert!(read_guest(&memory, -1, 1).is_err());
    assert!(read_guest(&memory, i32::MAX, i32::MAX).is_err());
    assert!(write_place(3, 2, 2).unwrap_err().reason.contains("(ptr=2, len=2)"));
    assert_eq!(guest_slice(&memory, -1, 0).unwrap_err(), "negative pointer");
    assert_eq!(guest_slice(&memory, 0, -1).unwrap_err(), "negative length");
    assert_eq!(guest_text(b"ok", 0, 2).unwrap(), "ok");
    assert_eq!(guest_text(&[0xff], 0, 1).unwrap_err(), "non-UTF-8 string");
    // A packed pointer beyond two gigabytes reads as a negative one.
    assert_eq!(instance().output(&Ok(-1)).unwrap(), (-1, -1));
}

#[test]
fn an_envelope_is_told_by_its_packed_place() {
    assert_eq!(envelope_len("{}").unwrap(), 2);
    let (start, told) = envelope_place(4096, 100, 2).unwrap();
    assert_eq!(start, 100);
    assert_eq!(unpack(told as u64), (100, 2));
    assert_eq!(instance().output(&Ok(told)).unwrap(), (100, 2));
    assert_eq!(envelope_place(4096, -1, 2).unwrap_err(), "negative alloc pointer");
    assert_eq!(
        envelope_place(4096, 4095, 2).unwrap_err(),
        "tacitus_alloc returned out-of-bounds pointer"
    );
}

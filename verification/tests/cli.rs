//! The command line.
use tacitus::cli::plugin::{
    bad_input, cli_host, cli_registry, list_lines, log_line, parse_plugin_args, plugin_dir,
    succeeded, PluginCmd, PluginDir,
};
use tacitus::cli::server::{banner, session_scope, vault_dir};
use tacitus::cli::sync::{
    config_path, config_text, event_line, init_lines, load_config, once_line, parse_sync_args,
    pass_line, run_line, status_lines, sync_step, sync_writer, ConfigRead, EngineInfo, LiveEvent,
    PassReport, Peer, SyncAction, SyncCmd, SyncConfig, SyncEvent, SyncState,
};
use tacitus::plugins::manifest::{ManifestRead, PluginManifest};
use tacitus::vault::json::{parse_json, render_json};
use tacitus::vault::write::PermissionScope;

fn s(parts: &[&str]) -> Vec<String> {
    parts.iter().map(|p| p.to_string()).collect()
}

#[test]
fn plugin_args_parse_list_and_run() {
    assert_eq!(
        parse_plugin_args(&s(&["list", "--vault", "/tmp/v"])).unwrap(),
        PluginCmd::List { vault: "/tmp/v".to_string() }
    );
    assert_eq!(
        parse_plugin_args(&s(&["run", "digest", "--input", "{\"q\":1}", "--timeout-ms", "500"]))
            .unwrap(),
        PluginCmd::Run {
            vault: ".".to_string(),
            name: "digest".to_string(),
            input: "{\"q\":1}".to_string(),
            timeout_ms: 500,
        }
    );
    assert!(parse_plugin_args(&s(&["run"])).is_err(), "run needs a name");
    assert!(parse_plugin_args(&s(&["frobnicate"])).is_err());
    assert!(parse_plugin_args(&s(&["run", "x", "--timeout-ms", "soon"])).is_err());
}

#[test]
fn plugin_args_say_what_is_wrong() {
    for (args, message) in [
        (vec!["list", "--vault"], "--vault needs a path"),
        (vec!["run", "x", "--input"], "--input needs a JSON string"),
        (vec!["run", "x", "--timeout-ms"], "--timeout-ms needs a number"),
        (vec!["run", "x", "y"], "unknown plugin flag: y"),
        (vec!["run", "--fast"], "unknown plugin flag: --fast"),
        (vec!["run"], "plugin run needs a plugin name"),
        (vec![], "unknown plugin subcommand \"\" — use list | run"),
        (
            vec!["run", "x", "--timeout-ms", "18446744073709551616"],
            "--timeout-ms must be a number of milliseconds",
        ),
    ] {
        assert_eq!(parse_plugin_args(&s(&args)).unwrap_err(), message);
    }
    let all = parse_plugin_args(&s(&["run", "x", "--timeout-ms", "18446744073709551615"]));
    match all.unwrap() {
        PluginCmd::Run { input, timeout_ms, .. } => {
            assert_eq!(input, "{}");
            assert_eq!(timeout_ms, u64::MAX);
        }
        _ => panic!("not a run"),
    }
}

#[test]
fn list_lines_show_valid_and_invalid() {
    let found = Some(vec![
        PluginDir {
            name: "good-one".to_string(),
            read: ManifestRead::Text("name = \"good-one\"\nversion = \"0.1.0\"\nentry = \"plugin.wasm\"\nhooks = [\"note_saved\"]\n\n[permissions]\nscope = \"read-only\"\ntools = [\"search\"]\n".to_string()),
        },
        PluginDir { name: "broken".to_string(), read: ManifestRead::Text("not = valid = toml".to_string()) },
    ]);
    let lines = list_lines("/v", &found);
    assert_eq!(lines.len(), 2);
    assert!(lines[0].starts_with("broken INVALID (INVALID_MANIFEST"));
    assert_eq!(lines[1], "good-one 0.1.0 read-only tools=[search] hooks=[note_saved]");
    assert_eq!(list_lines("/v", &None), vec!["no plugins directory at /v/.tacitus/plugins"]);
    assert_eq!(
        list_lines("/v", &Some(vec![])),
        vec!["no plugins installed in /v/.tacitus/plugins"]
    );
}

#[test]
fn run_plugin_writes_and_attributes() {
    let manifest = PluginManifest::parse(
        "name = \"writer\"\nversion = \"0.1.0\"\nentry = \"plugin.wasm\"\n\n[permissions]\nscope = \"read-write\"\ntools = [\"create_note\"]\n",
    )
    .unwrap();
    let reg = cli_registry("/v", &manifest, "2.0.0");
    assert_eq!(reg.scope(), PermissionScope::ReadWrite);
    assert_eq!(reg.writer.origin.as_deref(), Some("plugin:writer"));
    assert_eq!(reg.server_name, "tacitus-cli");
    assert_eq!(plugin_dir("/v", "writer"), "/v/.tacitus/plugins/writer");
    assert_eq!(cli_host(5_000).config.epoch_deadline_ms, Some(5_000));
}

#[test]
fn the_exit_code_follows_the_envelope() {
    assert!(succeeded(&parse_json(r#"{"ok":true,"data":1}"#).unwrap()));
    for bad in [r#"{"ok":false}"#, r#"{"ok":"true"}"#, "{}", "[true]", "null"] {
        assert!(!succeeded(&parse_json(bad).unwrap()), "{bad}");
    }
    assert_eq!(log_line(1, "hi"), "[info] hi");
    assert_eq!(log_line(9, "bad"), "[error] bad");
    assert_eq!(bad_input("eof"), "--input is not valid JSON: eof");
}

#[test]
fn the_server_takes_its_vault_and_scope() {
    assert_eq!(vault_dir(&s(&["/v", "x"])), "/v");
    assert_eq!(vault_dir(&s(&[])), ".");
    assert_eq!(session_scope(&Some("read-only".to_string())), PermissionScope::ReadOnly);
    assert_eq!(session_scope(&Some("READ-ONLY".to_string())), PermissionScope::ReadWrite);
    assert_eq!(session_scope(&None), PermissionScope::ReadWrite);
    assert_eq!(
        banner("/v", PermissionScope::ReadOnly),
        "tacitus-memory MCP server (Rust) on stdio (vault: /v, scope: ReadOnly)"
    );
}

#[test]
fn sync_args_parse_init_run_status() {
    assert_eq!(
        parse_sync_args(&s(&["init", "--vault", "/tmp/v", "--relay", "ws://x"])).unwrap(),
        SyncCmd::Init { vault: "/tmp/v".to_string(), relay: "ws://x".to_string(), code: None }
    );
    assert_eq!(
        parse_sync_args(&s(&["run", "--interval", "5"])).unwrap(),
        SyncCmd::Run { vault: ".".to_string(), interval_secs: 5, live: false }
    );
    assert_eq!(
        parse_sync_args(&s(&["run", "--live", "--interval", "2"])).unwrap(),
        SyncCmd::Run { vault: ".".to_string(), interval_secs: 2, live: true },
        "--live keeps a persistent session; --interval becomes the scan tick"
    );
    assert_eq!(
        parse_sync_args(&s(&["status"])).unwrap(),
        SyncCmd::Status { vault: ".".to_string() }
    );
    assert_eq!(
        parse_sync_args(&s(&["once"])).unwrap(),
        SyncCmd::Once { vault: ".".to_string() }
    );
    assert!(parse_sync_args(&s(&["frobnicate"])).is_err());
    assert!(parse_sync_args(&s(&["run", "--interval", "soon"])).is_err());
    assert!(parse_sync_args(&s(&["init", "--vault"])).is_err());
}

#[test]
fn sync_args_say_what_is_wrong() {
    for (args, message) in [
        (vec!["init", "--relay"], "--relay needs a URL"),
        (vec!["init", "--code"], "--code needs a vault code"),
        (vec!["run", "--interval"], "--interval needs seconds"),
        (vec!["run", "--interval", "-1"], "--interval must be a number of seconds"),
        (vec!["run", "now"], "unknown sync flag: now"),
        (vec![], "unknown sync subcommand \"\" — use init | once | run | status"),
    ] {
        assert_eq!(parse_sync_args(&s(&args)).unwrap_err(), message);
    }
    let code = parse_sync_args(&s(&["init", "--code", "abc"])).unwrap();
    assert_eq!(
        code,
        SyncCmd::Init {
            vault: ".".to_string(),
            relay: "wss://sync.tacitus.md".to_string(),
            code: Some("abc".to_string()),
        }
    );
}

#[test]
fn a_configuration_is_stored_and_read_back() {
    let config =
        SyncConfig { relay_url: "ws://x".to_string(), vault_code: "tac-1".to_string() };
    let text = config_text(&config);
    assert_eq!(text, "{\n  \"relay_url\": \"ws://x\",\n  \"vault_code\": \"tac-1\"\n}");
    let back = parse_json(&text).unwrap();
    assert_eq!(render_json(&back), "{\"relay_url\":\"ws://x\",\"vault_code\":\"tac-1\"}");
    assert_eq!(config_path("/v"), "/v/.tacitus/sync/config.json");
    let loaded = load_config(ConfigRead::Config(config)).unwrap();
    assert_eq!((loaded.relay_url.as_str(), loaded.vault_code.as_str()), ("ws://x", "tac-1"));
}

#[test]
fn a_missing_or_corrupt_configuration_is_told() {
    assert_eq!(
        load_config(ConfigRead::Missing).unwrap_err(),
        "sync is not set up for this vault — run `tacitus-mcp sync init` first"
    );
    assert_eq!(
        load_config(ConfigRead::Malformed("missing field `relay_url`".to_string())).unwrap_err(),
        "corrupt sync config: missing field `relay_url`"
    );
}

#[test]
fn sync_writes_are_marked_in_the_audit_log() {
    let writer = sync_writer("/v");
    assert_eq!(writer.origin.as_deref(), Some("sync"));
    assert_eq!(writer.scope, PermissionScope::ReadWrite);
}

fn report() -> PassReport {
    PassReport { pushed: 2, notes: 1, memories: 0, version_id: Some("v_7".to_string()) }
}

#[test]
fn passes_runs_and_events_are_shown() {
    assert_eq!(
        once_line(&report(), 9),
        "synced: pushed 2, wrote 1 note(s) + 0 memory(ies) (revertible: v_7), cursor at 9"
    );
    assert_eq!(pass_line(&report()).unwrap(), "synced: pushed 2, wrote 1 note(s)");
    let idle = PassReport { pushed: 0, notes: 0, memories: 3, version_id: None };
    assert_eq!(pass_line(&idle), None);
    assert_eq!(run_line("/v", 30, false), "syncing /v every 30s (Ctrl-C to stop)");
    assert_eq!(run_line("/v", 5, true), "live sync on /v — scan every 5s (Ctrl-C to stop)");
    assert_eq!(
        event_line(&LiveEvent::Connected { latest_seq: 4 }).unwrap(),
        "connected (relay at seq 4)"
    );
    assert_eq!(event_line(&LiveEvent::CaughtUp).unwrap(), "caught up — streaming");
    assert_eq!(event_line(&LiveEvent::Pushed { count: 3 }).unwrap(), "pushed 3 update(s)");
    assert_eq!(event_line(&LiveEvent::Applied { notes: 0, memories: 0 }), None);
    assert_eq!(
        event_line(&LiveEvent::Applied { notes: 0, memories: 1 }).unwrap(),
        "applied 0 note(s) + 1 memory(ies)"
    );
    assert_eq!(
        event_line(&LiveEvent::Disconnected {
            reason: "eof".to_string(),
            retry_in: "1s".to_string()
        })
        .unwrap(),
        "disconnected: eof — retrying in 1s"
    );
}

#[test]
fn peers_are_shown_by_the_head_of_their_device() {
    let peer = |device: &str, note: Option<&str>, editing: bool| Peer {
        device: device.to_string(),
        note_id: note.map(|n| n.to_string()),
        editing,
    };
    assert_eq!(event_line(&LiveEvent::Peers(vec![])).unwrap(), "no other devices online");
    let peers = vec![
        peer("0123456789abcdef", Some("n"), true),
        peer("short", Some("m"), false),
        peer("ééééééé", None, true),
    ];
    assert_eq!(
        event_line(&LiveEvent::Peers(peers)).unwrap(),
        "3 device(s) online: 0123456789ab ✎ n, short → m, éééééé"
    );
}

fn shown(action: &SyncAction) -> Vec<String> {
    match action {
        SyncAction::Show(lines) => lines.clone(),
        other => panic!("{other:?}"),
    }
}

fn info() -> EngineInfo {
    EngineInfo {
        vault_id: "vid".to_string(),
        device_id: "dev".to_string(),
        last_seq: 12,
        pending: 2,
    }
}

#[test]
fn init_makes_a_code_stores_it_and_shows_it() {
    let cmd = parse_sync_args(&s(&["init", "--vault", "/v", "--relay", "ws://x"])).unwrap();
    let (state, action) = sync_step(SyncState::Start(cmd), SyncEvent::Begin);
    assert!(matches!(action, SyncAction::MakeCode));
    let (state, action) = sync_step(state, SyncEvent::Code(Ok("tac-1".to_string())));
    match action {
        SyncAction::Save { path, text } => {
            assert_eq!(path, "/v/.tacitus/sync/config.json");
            assert!(text.contains("tac-1"));
        }
        other => panic!("{other:?}"),
    }
    let (state, action) = sync_step(state, SyncEvent::Saved(Ok(())));
    assert!(matches!(action, SyncAction::Open { .. }));
    let (state, action) = sync_step(state, SyncEvent::Opened(Ok(info())));
    assert_eq!(shown(&action), init_lines("ws://x", "vid", "tac-1"));
    assert!(shown(&action).contains(&"  tac-1".to_string()));
    assert!(matches!(state, SyncState::Finished));
}

#[test]
fn status_and_once_resume_from_the_stored_configuration() {
    let stored = || {
        ConfigRead::Config(SyncConfig {
            relay_url: "ws://x".to_string(),
            vault_code: "tac-1".to_string(),
        })
    };
    for sub in ["status", "once", "run"] {
        let cmd = parse_sync_args(&s(&[sub, "--vault", "/v"])).unwrap();
        let (state, action) = sync_step(SyncState::Start(cmd), SyncEvent::Begin);
        assert!(matches!(action, SyncAction::ReadConfig(_)));
        let (state, action) = sync_step(state, SyncEvent::ConfigRead(stored()));
        assert!(matches!(action, SyncAction::CheckCode(_)));
        let (state, action) = sync_step(state, SyncEvent::Code(Ok("tac-1".to_string())));
        assert!(matches!(action, SyncAction::Open { .. }));
        let (state, action) = sync_step(state, SyncEvent::Opened(Ok(info())));
        match sub {
            "status" => assert_eq!(shown(&action), status_lines("ws://x", "vid", "dev", 12, 2)),
            "once" => {
                assert!(matches!(action, SyncAction::Pass { .. }));
                let (_, action) = sync_step(state, SyncEvent::Passed(Ok((report(), 9))));
                assert_eq!(shown(&action), vec![once_line(&report(), 9)]);
            }
            _ => {
                assert!(matches!(action, SyncAction::Run { live: false, .. }));
                let (_, action) = sync_step(state, SyncEvent::Ended(Ok(())));
                assert!(shown(&action).is_empty());
            }
        }
    }
}

#[test]
fn every_failure_ends_a_sync_command_with_its_message() {
    let cmd = parse_sync_args(&s(&["init", "--code", "bad"])).unwrap();
    let (state, action) = sync_step(SyncState::Start(cmd), SyncEvent::Begin);
    assert!(matches!(action, SyncAction::CheckCode(_)));
    let (_, action) = sync_step(state, SyncEvent::Code(Err("invalid code".to_string())));
    assert!(matches!(action, SyncAction::Fail(ref m) if m == "invalid code"));
    let cmd = parse_sync_args(&s(&["once"])).unwrap();
    let (state, _) = sync_step(SyncState::Start(cmd), SyncEvent::Begin);
    let (_, action) = sync_step(state, SyncEvent::ConfigRead(ConfigRead::Missing));
    assert!(matches!(action, SyncAction::Fail(ref m) if m.starts_with("sync is not set up")));
    let (_, action) = sync_step(SyncState::Passing, SyncEvent::Passed(Err("offline".to_string())));
    assert!(matches!(action, SyncAction::Fail(ref m) if m == "offline"));
    let (_, action) = sync_step(SyncState::Finished, SyncEvent::Begin);
    assert!(matches!(action, SyncAction::Fail(_)));
}

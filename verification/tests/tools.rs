//! The tools, called by name.
use std::collections::HashSet;
use tacitus::error::TacitusError;
use tacitus::strmap::StrMap;
use tacitus::tools::answer::envelope;
use tacitus::tools::args::{
    AuditArgs, ChangeOpArg, CommitArgs, CreateFromTemplateArgs, CreateNoteArgs, DeleteNoteArgs,
    ForgetArgs, GetNoteArgs, GetVersionArgs, GraphArgs, LinkArgs, ListTasksArgs, PropFilterArg,
    PropertiesArgs, ProposeArgs, RecallQuery, RememberArgs, RenameNoteArgs, RevertArgs,
    SearchToolArgs, SourceArg, SuggestLinksArgs, TagArgs, ToggleTaskArgs, UpdateNoteArgs,
};
use tacitus::tools::registry::{
    err_envelope, ok_envelope, Moment, Records, ToolCall, ToolData, ToolRegistry,
};
use tacitus::vault::json::{parse_json, render_json, Json, JsonNumber};
use tacitus::vault::suggest::Rating;
use tacitus::vault::template::Clock;
use tacitus::vault::write::PermissionScope;
use tacitus::vault::writer::{NoteWriter, Vault};

fn records() -> Records {
    let mut vault = Vault::new();
    for (id, raw) in [
        ("notes/alpha", "# Alpha\n\nLaunch checklist for the alpha release.\n"),
        ("notes/beta", "# Beta\n\nNotes about the beta program. See [[notes/alpha]].\n"),
    ] {
        vault.files.insert(id.to_string(), raw.to_string());
        vault.index.upsert_raw(&format!("{id}.md"), raw);
    }
    Records { vault, memories: StrMap::new(), templates: StrMap::new() }
}

fn at(millis: u64) -> Moment {
    Moment {
        millis,
        now: "2030-01-01T00:00:00.000Z".to_string(),
        clock: Clock {
            date: "2030-01-01".to_string(),
            time: "00:00".to_string(),
            datetime: "2030-01-01T00:00:00".to_string(),
        },
    }
}

fn registry(scope: PermissionScope) -> ToolRegistry {
    ToolRegistry::standard("/v", scope, "1.0.0")
}

fn rw() -> ToolRegistry {
    registry(PermissionScope::ReadWrite)
}

fn ro() -> ToolRegistry {
    registry(PermissionScope::ReadOnly)
}

fn allow(names: &[&str]) -> Vec<String> {
    names.iter().map(|s| s.to_string()).collect()
}

fn call(reg: &mut ToolRegistry, rec: &mut Records, c: ToolCall) -> Result<ToolData, TacitusError> {
    let name = c.name().to_string();
    reg.dispatch(rec, &name, Ok(c), None, &at(1))
}

/// The value under a path of keys and positions of an envelope.
fn pick<'a>(j: &'a Json, path: &[&str]) -> &'a Json {
    let mut here = j;
    for step in path {
        here = match here {
            Json::Object(e) => &e.iter().find(|x| x.0 == *step).unwrap().1,
            Json::List(v) => &v[step.parse::<usize>().unwrap()],
            _ => panic!("nothing under {step}"),
        };
    }
    here
}

fn shown(r: &Result<ToolData, TacitusError>, path: &[&str]) -> String {
    render_json(pick(&envelope(r), path))
}

fn length(r: &Result<ToolData, TacitusError>, path: &[&str]) -> usize {
    match pick(&envelope(r), path) {
        Json::List(v) => v.len(),
        _ => panic!("no list"),
    }
}

fn search(query: &str) -> ToolCall {
    ToolCall::Search(SearchToolArgs {
        query: query.to_string(),
        mode: None,
        token_budget: None,
        top_k: None,
    })
}

fn create(note_id: &str, content: &str) -> ToolCall {
    ToolCall::CreateNote(CreateNoteArgs {
        note_id: note_id.to_string(),
        content: content.to_string(),
        frontmatter: None,
    })
}

fn get(note_id: &str, format: &str) -> ToolCall {
    ToolCall::GetNote(GetNoteArgs {
        note_id: note_id.to_string(),
        format: Some(format.to_string()),
        max_tokens: None,
    })
}

fn propose(note_id: &str, content: &str) -> ToolCall {
    ToolCall::ProposeChanges(ProposeArgs {
        ops: vec![ChangeOpArg {
            op: "update".to_string(),
            note_id: note_id.to_string(),
            content: Some(content.to_string()),
            frontmatter: None,
        }],
    })
}

fn remember(content: &str) -> ToolCall {
    ToolCall::Remember(RememberArgs {
        content: content.to_string(),
        memory_type: "project".to_string(),
        tags: vec![],
        key: None,
        source: Some(SourceArg {
            origin: "test".to_string(),
            author: "agent".to_string(),
            timestamp: None,
        }),
        ttl: None,
    })
}

fn recall(query: &str) -> ToolCall {
    ToolCall::Recall(RecallQuery {
        query: query.to_string(),
        memory_type: None,
        token_budget: None,
    })
}

fn version_of(r: &Result<ToolData, TacitusError>) -> String {
    match r {
        Ok(ToolData::Committed(c)) => c.version_id.clone(),
        _ => panic!("not committed"),
    }
}

fn code(r: Result<ToolData, TacitusError>) -> String {
    r.err().unwrap().code
}

fn tasks() -> ToolCall {
    ToolCall::ListTasks(ListTasksArgs {
        done: None,
        due_before: None,
        due_after: None,
        tag: None,
        note_id: None,
        limit: None,
        token_budget: None,
    })
}

#[test]
fn tests_dispatch_search_returns_hits_envelope() {
    let mut rec = records();
    let out = call(&mut ro(), &mut rec, search("alpha launch"));
    assert_eq!(shown(&out, &["ok"]), "true");
    assert!(length(&out, &["data", "hits"]) > 0);
    for key in ["note_id", "title", "score", "snippet", "token_count"] {
        assert!(!shown(&out, &["data", "hits", "0", key]).is_empty(), "hit has {key}");
    }
    assert_eq!(shown(&out, &["data", "hits", "0", "note_id"]), "\"notes/alpha\"");
}

#[test]
fn tests_dispatch_unknown_tool_is_invalid_input() {
    let mut rec = records();
    let out = ro().dispatch(&mut rec, "no_such_tool", Err(String::new()), None, &at(1));
    assert_eq!(shown(&out, &["ok"]), "false");
    assert_eq!(shown(&out, &["error", "code"]), "\"INVALID_INPUT\"");
    assert!(shown(&out, &["error", "suggestion"]).contains("search"));
    assert_eq!(shown(&out, &["error", "reason"]), r#""Unknown tool \"no_such_tool\".""#);
}

#[test]
fn tests_dispatch_denies_tool_missing_from_allowlist() {
    let mut rec = records();
    let allowed = allow(&["get_note"]);
    let out = ro().dispatch(&mut rec, "search", Ok(search("alpha")), Some(&allowed), &at(1));
    assert_eq!(shown(&out, &["ok"]), "false");
    assert_eq!(shown(&out, &["error", "code"]), "\"PERMISSION_DENIED\"");
    assert!(shown(&out, &["error", "suggestion"]).contains("tacitus-plugin.toml"));
}

#[test]
fn tests_dispatch_create_note_readonly_scope_denied() {
    let mut rec = records();
    let out = call(&mut ro(), &mut rec, create("notes/x", "hi"));
    assert_eq!(shown(&out, &["ok"]), "false");
    assert_eq!(shown(&out, &["error", "code"]), "\"PERMISSION_DENIED\"");
    assert_eq!(rec.vault.files.len(), 2);
}

#[test]
fn tests_dispatch_create_then_get_note_roundtrip() {
    let mut rec = records();
    let mut reg = rw();
    let out = call(&mut reg, &mut rec, create("notes/fresh", "hello from a plugin"));
    assert_eq!(shown(&out, &["ok"]), "true");
    assert!(shown(&out, &["data", "version_id"]).starts_with("\"v_"));

    let out = call(&mut reg, &mut rec, get("notes/fresh", "full"));
    assert_eq!(shown(&out, &["ok"]), "true");
    assert!(shown(&out, &["data", "content"]).contains("hello from a plugin"));
    assert_eq!(shown(&out, &["data", "format"]), "\"full\"");
    assert_eq!(shown(&out, &["data", "truncated"]), "false");
}

#[test]
fn tests_dispatch_remember_then_recall_roundtrip() {
    let mut rec = records();
    let mut reg = rw();
    let out = call(&mut reg, &mut rec, remember("The plugin marketplace launches in autumn."));
    assert_eq!(shown(&out, &["ok"]), "true");
    assert!(shown(&out, &["data", "memory_id"]).starts_with("\"mem_"));

    let out = call(&mut reg, &mut rec, recall("marketplace launch"));
    assert_eq!(shown(&out, &["ok"]), "true");
    assert!(length(&out, &["data", "items"]) > 0);
    assert_eq!(shown(&out, &["data", "items", "0", "memory", "type"]), "\"project\"");
    assert_eq!(
        shown(&out, &["data", "items", "0", "memory", "source", "timestamp"]),
        "\"2030-01-01T00:00:00.000Z\""
    );
    assert_eq!(length(&out, &["data", "conflicts"]), 0);
}

#[test]
fn tests_dispatch_capabilities_reflects_allowlist_only() {
    let mut rec = records();
    let allowed = allow(&["capabilities", "search"]);
    let out = ro().dispatch(
        &mut rec,
        "capabilities",
        Ok(ToolCall::Capabilities),
        Some(&allowed),
        &at(1),
    );
    assert_eq!(shown(&out, &["ok"]), "true");
    assert_eq!(length(&out, &["data", "tools"]), 2, "allowlist only, not all tools");
    assert_eq!(shown(&out, &["data", "tools", "0", "name"]), "\"capabilities\"");
    assert_eq!(shown(&out, &["data", "tools", "1", "name"]), "\"search\"");
    assert_eq!(shown(&out, &["data", "permissions", "scope"]), "\"read-only\"");
}

#[test]
fn tests_dispatch_never_panics_on_malformed_args() {
    let mut rec = records();
    for (tool, why) in [
        ("search", "invalid type: integer `42`, expected a string"),
        ("get_note", "invalid type: string \"not an object\", expected struct GetNoteArgs"),
    ] {
        let out = ro().dispatch(&mut rec, tool, Err(why.to_string()), None, &at(1));
        assert_eq!(shown(&out, &["ok"]), "false");
        assert_eq!(shown(&out, &["error", "code"]), "\"INVALID_INPUT\"");
    }
}

#[test]
fn dispatch_propose_commit_revert_roundtrip() {
    let mut rec = records();
    let mut reg = rw();
    let out = call(&mut reg, &mut rec, propose("notes/alpha", "changed body"));
    let change_id = match &out {
        Ok(ToolData::Proposed(p)) => p.change_id.clone(),
        _ => panic!("not proposed"),
    };
    assert_eq!(shown(&out, &["data", "diff", "0", "op"]), "\"update\"");
    assert!(rec.vault.files.get("notes/alpha").unwrap().contains("Launch checklist"));

    let out = call(&mut reg, &mut rec, ToolCall::CommitChanges(CommitArgs { change_id }));
    let version_id = version_of(&out);
    assert!(rec.vault.files.get("notes/alpha").unwrap().contains("changed body"));

    let out = call(&mut reg, &mut rec, ToolCall::Revert(RevertArgs { version_id }));
    assert_eq!(shown(&out, &["data", "reverted"]), "true");
    assert!(rec.vault.files.get("notes/alpha").unwrap().contains("Launch checklist"));
}

#[test]
fn dispatch_propose_is_dry_run_under_readonly() {
    let mut rec = records();
    let mut reg = ro();
    let out = call(&mut reg, &mut rec, propose("notes/alpha", "nope"));
    let change_id = match &out {
        Ok(ToolData::Proposed(p)) => p.change_id.clone(),
        _ => panic!("propose allowed under read-only"),
    };
    let out = call(&mut reg, &mut rec, ToolCall::CommitChanges(CommitArgs { change_id }));
    assert_eq!(code(out), "PERMISSION_DENIED");
}

#[test]
fn a_proposed_operation_must_be_known_and_its_frontmatter_plain() {
    let mut rec = records();
    let op = |op: &str, frontmatter: Option<Json>| {
        ToolCall::ProposeChanges(ProposeArgs {
            ops: vec![ChangeOpArg {
                op: op.to_string(),
                note_id: "n".to_string(),
                content: None,
                frontmatter,
            }],
        })
    };
    let e = call(&mut rw(), &mut rec, op("move", None)).err().unwrap();
    assert_eq!(e.reason, "op must be create|update|delete (got \"move\").");
    let bad = Json::Number(JsonNumber { whole: false, text: "x".to_string(), bits: 0 });
    assert_eq!(code(call(&mut rw(), &mut rec, op("create", Some(bad)))), "INVALID_INPUT");
    let fm = parse_json(r#"{"title": "T", "rank": 3}"#).unwrap();
    let out = call(&mut rw(), &mut rec, op("create", Some(fm)));
    assert_eq!(shown(&out, &["data", "diff", "0", "after"]), r#""---\nrank: 3\ntitle: T\n---\n\n""#);
}

#[test]
fn dispatch_link_is_idempotent() {
    let mut rec = records();
    let mut reg = rw();
    for _ in 0..2 {
        let out = call(
            &mut reg,
            &mut rec,
            ToolCall::Link(LinkArgs {
                from: "notes/alpha".to_string(),
                to: "notes/beta".to_string(),
            }),
        );
        assert!(out.is_ok());
    }
    assert_eq!(rec.vault.files.get("notes/alpha").unwrap().matches("[[notes/beta]]").count(), 1);
}

#[test]
fn dispatch_tag_dedupes() {
    let mut rec = records();
    let mut reg = rw();
    for _ in 0..2 {
        let out = call(
            &mut reg,
            &mut rec,
            ToolCall::Tag(TagArgs {
                note_id: "notes/alpha".to_string(),
                tag: "milestone".to_string(),
            }),
        );
        assert!(out.is_ok());
    }
    assert_eq!(rec.vault.files.get("notes/alpha").unwrap().matches("milestone").count(), 1);
}

#[test]
fn dispatch_toggle_task_conflict_guard() {
    let mut rec = records();
    let raw = "# Todo\n\n- [ ] write the report due:2030-01-01\n";
    rec.vault.files.insert("notes/todo".to_string(), raw.to_string());
    rec.vault.index.upsert_raw("notes/todo.md", raw);
    let mut reg = rw();
    let out = call(&mut reg, &mut rec, tasks());
    assert_eq!(shown(&out, &["data", "tasks", "0", "due"]), "\"2030-01-01\"");
    let (line, text) = match out {
        Ok(ToolData::Tasks(v)) => (v[0].line, v[0].text.clone()),
        _ => panic!("no tasks"),
    };
    let toggle = |note_id: &str, text: &str| {
        ToolCall::ToggleTask(ToggleTaskArgs {
            note_id: note_id.to_string(),
            line,
            expect_text: text.to_string(),
        })
    };
    assert_eq!(code(call(&mut reg, &mut rec, toggle("notes/todo", "something stale"))), "CONFLICT");
    assert!(call(&mut reg, &mut rec, toggle("notes/todo", &text)).is_ok());
    assert!(rec.vault.files.get("notes/todo").unwrap().contains("- [x]"), "checkbox flipped");
    assert_eq!(code(call(&mut reg, &mut rec, toggle("nope", &text))), "NOTE_NOT_FOUND");
}

#[test]
fn dispatch_rename_note_retargets_links() {
    let mut rec = records();
    let out = call(
        &mut rw(),
        &mut rec,
        ToolCall::RenameNote(RenameNoteArgs {
            from: "notes/alpha".to_string(),
            to: "notes/gamma".to_string(),
        }),
    );
    assert_eq!(shown(&out, &["data", "links_updated_in"]), "1");
    assert!(rec.vault.files.get("notes/beta").unwrap().contains("[[notes/gamma]]"));
    assert!(!rec.vault.files.contains_key("notes/alpha"));
    assert!(rec.vault.files.contains_key("notes/gamma"));
}

#[test]
fn dispatch_delete_note_then_revert_restores() {
    let mut rec = records();
    let mut reg = rw();
    let out = call(
        &mut reg,
        &mut rec,
        ToolCall::DeleteNote(DeleteNoteArgs { note_id: "notes/alpha".to_string() }),
    );
    assert_eq!(shown(&out, &["ok"]), "true");
    assert!(!rec.vault.files.contains_key("notes/alpha"));

    let version_id = version_of(&out);
    let out = call(&mut reg, &mut rec, ToolCall::Revert(RevertArgs { version_id }));
    assert_eq!(shown(&out, &["ok"]), "true");
    assert!(rec.vault.files.contains_key("notes/alpha"));
}

#[test]
fn dispatch_get_version_include_content_clips() {
    let mut rec = records();
    let mut reg = rw();
    let out = call(
        &mut reg,
        &mut rec,
        ToolCall::UpdateNote(UpdateNoteArgs {
            note_id: "notes/alpha".to_string(),
            content: Some("a much longer body than four characters".to_string()),
            frontmatter: None,
        }),
    );
    let version_id = version_of(&out);
    let version = |include_content: Option<bool>, max_tokens: Option<usize>| {
        ToolCall::GetVersion(GetVersionArgs {
            version_id: version_id.clone(),
            include_content,
            max_tokens,
        })
    };
    let out = call(&mut reg, &mut rec, version(None, None));
    assert_eq!(shown(&out, &["ok"]), "true");
    assert_eq!(shown(&out, &["data", "notes", "0", "after"]), "null", "default: ops only");

    let out = call(&mut reg, &mut rec, version(Some(true), Some(1)));
    assert_eq!(shown(&out, &["data", "notes", "0", "after", "truncated"]), "true");
    assert_eq!(shown(&out, &["data", "notes", "0", "after", "content"]), "\"a mu\"");

    let out = call(&mut reg, &mut rec, version(Some(true), Some(usize::MAX)));
    assert_eq!(shown(&out, &["data", "notes", "0", "after", "truncated"]), "false");
}

#[test]
fn dispatch_audit_log_lists_recent_first() {
    let mut rec = records();
    let mut reg = rw();
    assert!(call(&mut reg, &mut rec, create("notes/first", "1")).is_ok());
    assert!(call(&mut reg, &mut rec, create("notes/second", "2")).is_ok());
    let out = call(&mut reg, &mut rec, ToolCall::AuditLog(AuditArgs { limit: Some(1) }));
    assert_eq!(shown(&out, &["ok"]), "true");
    assert_eq!(length(&out, &["data", "entries"]), 1);
    assert_eq!(
        shown(&out, &["data", "entries", "0", "notes", "0"]),
        "\"notes/second\"",
        "most recent first"
    );
    assert_eq!(shown(&out, &["data", "entries", "0", "scope"]), "\"read-write\"");
}

#[test]
fn removes_by_id() {
    let mut rec = records();
    let mut reg = rw();
    let forget = |id: &str| ToolCall::Forget(ForgetArgs { memory_id: id.to_string() });
    let id = match call(&mut reg, &mut rec, remember("gone soon")) {
        Ok(ToolData::Remembered(id)) => id,
        _ => panic!("not remembered"),
    };
    assert!(matches!(call(&mut reg, &mut rec, forget(&id)), Ok(ToolData::Removed(true))));
    assert!(matches!(call(&mut reg, &mut rec, forget("mem_missing")), Ok(ToolData::Removed(false))));
    assert_eq!(rec.memories.len(), 0);
}

#[test]
fn dispatch_forget_removes_memory() {
    let mut rec = records();
    let mut reg = rw();
    let out = call(&mut reg, &mut rec, remember("Ephemeral fact."));
    let memory_id = match out {
        Ok(ToolData::Remembered(id)) => id,
        _ => panic!("not remembered"),
    };
    let out = call(&mut reg, &mut rec, ToolCall::Forget(ForgetArgs { memory_id }));
    assert_eq!(shown(&out, &["data", "removed"]), "true");
    let out = call(&mut reg, &mut rec, recall("ephemeral fact"));
    assert_eq!(length(&out, &["data", "items"]), 0);
    let gone = ForgetArgs { memory_id: "mem-nope".to_string() };
    let out = call(&mut reg, &mut rec, ToolCall::Forget(gone));
    assert_eq!(shown(&out, &["data", "removed"]), "false");
}

#[test]
fn dispatch_suggest_links_returns_ranked_candidates() {
    let mut rec = records();
    let raw = "# Draft\n\nWe should fold the Alpha checklist into this plan.\n";
    rec.vault.index.upsert_raw("notes/draft.md", raw);
    let rating = |rank: u32, score: &str| {
        Some(Rating {
            rank,
            score: JsonNumber { whole: false, text: score.to_string(), bits: 0 },
            semantic: true,
        })
    };
    let out = call(
        &mut ro(),
        &mut rec,
        ToolCall::SuggestLinks(SuggestLinksArgs {
            note_id: "notes/draft".to_string(),
            top_k: None,
            token_budget: None,
            ratings: vec![rating(9, "0.5"), rating(2, "0.2")],
        }),
    );
    assert_eq!(shown(&out, &["data", "suggestions", "0", "note_id"]), "\"notes/alpha\"");
    assert_eq!(shown(&out, &["data", "suggestions", "0", "score"]), "0.5");
    assert_eq!(
        shown(&out, &["data", "suggestions", "0", "reasons"]),
        "[\"title_mentioned\",\"semantic\"]"
    );
}

#[test]
fn dispatch_template_missing_vars_is_structured() {
    let mut rec = records();
    rec.templates.insert(
        "meeting.md".to_string(),
        "---\ntitle: \"{{title}}\"\n---\n\n# {{title}}\n".to_string(),
    );
    let mut reg = rw();
    let out = call(&mut reg, &mut rec, ToolCall::ListTemplates);
    assert_eq!(shown(&out, &["data", "templates", "0", "name"]), "\"meeting\"");
    match pick(&envelope(&out), &["data", "templates", "0", "vars"]) {
        Json::List(v) => assert!(v.iter().any(|x| render_json(x) == "\"title\"")),
        _ => panic!("no vars"),
    }
    let make = |template: &str, vars: Option<Json>| {
        ToolCall::CreateFromTemplate(CreateFromTemplateArgs {
            template: template.to_string(),
            note_id: "notes/standup".to_string(),
            vars,
        })
    };
    assert_eq!(code(call(&mut reg, &mut rec, make("meeting", None))), "MISSING_VARS");
    assert_eq!(code(call(&mut reg, &mut rec, make("nope", None))), "TEMPLATE_NOT_FOUND");
    assert_eq!(code(call(&mut reg, &mut rec, make("../x", None))), "TEMPLATE_NOT_FOUND");
    let e = call(&mut reg, &mut rec, make("meeting", Some(parse_json(r#"{"title":[]}"#).unwrap())));
    assert_eq!(
        e.err().unwrap().reason,
        "var \"title\" must be a scalar (string/number/bool)."
    );
    let vars = parse_json(r#"{"title":"Kickoff"}"#).unwrap();
    let out = call(&mut reg, &mut rec, make("meeting", Some(vars)));
    assert_eq!(shown(&out, &["data", "note_id"]), "\"notes/standup\"");
    assert!(rec.vault.files.get("notes/standup").unwrap().contains("title: Kickoff"));
}

#[test]
fn dispatch_capabilities_reports_configured_identity() {
    let mut rec = records();
    let mut reg = rw().with_identity("tacitus-plugins", "9.9.9");
    let out = call(&mut reg, &mut rec, ToolCall::Capabilities);
    assert_eq!(shown(&out, &["data", "server"]), "\"tacitus-plugins\"");
    assert_eq!(shown(&out, &["data", "version"]), "\"9.9.9\"");
    let names: Vec<String> = match out {
        Ok(ToolData::Capabilities(c)) => c.tools.iter().map(|t| t.name.to_string()).collect(),
        _ => panic!("no capabilities"),
    };
    assert_eq!(names.len(), 25, "all tools when unrestricted");
    let mut sorted = names.clone();
    sorted.sort_unstable();
    assert_eq!(names, sorted, "sorted by name (matches rmcp list_all)");
}

#[test]
fn descriptor_table_is_complete_and_classified() {
    let descriptors = ToolRegistry::descriptors();
    assert_eq!(descriptors.len(), 25);
    let writes: HashSet<&str> =
        descriptors.iter().filter(|d| d.writes).map(|d| d.name).collect();
    let expected: HashSet<&str> = [
        "remember",
        "forget",
        "commit_changes",
        "revert",
        "create_note",
        "update_note",
        "link",
        "tag",
        "create_from_template",
        "toggle_task",
        "rename_note",
        "delete_note",
    ]
    .into();
    assert_eq!(writes, expected, "write-tool classification");

    fn assert_send_sync<T: Send + Sync>() {}
    assert_send_sync::<ToolRegistry>();
}

#[test]
fn dispatch_no_arg_tools_accept_empty_args() {
    let mut rec = records();
    let out = call(&mut ro(), &mut rec, ToolCall::ListNotes);
    assert_eq!(shown(&out, &["ok"]), "true");
    assert_eq!(length(&out, &["data", "notes"]), 2);
    assert_eq!(shown(&out, &["data", "notes", "0", "path"]), "\"notes/alpha.md\"");
    let out = call(&mut ro(), &mut rec, ToolCall::ListTemplates);
    assert_eq!(shown(&out, &["ok"]), "true");
}

#[test]
fn with_writer_reflects_into_live_index_and_attributes_origin() {
    let mut rec = records();
    let mut writer = NoteWriter::new("/v", PermissionScope::ReadWrite);
    writer.set_origin("plugin:fixture");
    let mut reg = rw().with_writer(writer);
    assert_eq!(reg.scope(), PermissionScope::ReadWrite);
    let out = call(&mut reg, &mut rec, create("notes/live", "written by a plugin"));
    assert_eq!(shown(&out, &["ok"]), "true");
    assert!(rec.vault.index.get("notes/live").is_some());
    assert_eq!(rec.vault.audit[0].origin.as_deref(), Some("plugin:fixture"));
}

#[test]
fn graph_and_properties_refuse_unknown_words() {
    let mut rec = records();
    let graph = |relation: &str| {
        ToolCall::GraphQuery(GraphArgs {
            from: "notes/beta".to_string(),
            relation: relation.to_string(),
            depth: None,
        })
    };
    let out = call(&mut ro(), &mut rec, graph("links"));
    assert_eq!(shown(&out, &["data", "nodes", "0", "note_id"]), "\"notes/alpha\"");
    let e = call(&mut ro(), &mut rec, graph("cousins")).err().unwrap();
    assert_eq!(e.reason, "relation must be links|backlinks|neighbors (got \"cousins\").");
    let rows = |op: &str| {
        ToolCall::PropertiesQuery(PropertiesArgs {
            filters: vec![PropFilterArg { key: "k".to_string(), op: op.to_string(), value: None }],
            select: None,
            sort_by: None,
            descending: None,
            limit: None,
            token_budget: None,
        })
    };
    assert_eq!(length(&call(&mut ro(), &mut rec, rows("not_exists")), &["data", "rows"]), 2);
    assert_eq!(code(call(&mut ro(), &mut rec, rows("like"))), "INVALID_INPUT");
}

#[test]
fn a_call_of_another_tool_than_named_has_no_arm() {
    let mut rec = records();
    let out = rw().dispatch(&mut rec, "search", Ok(ToolCall::ListNotes), None, &at(1));
    assert_eq!(code(out), "INTERNAL");
}

#[test]
fn no_tool_changes_the_vault_of_a_read_only_registry() {
    let mut rec = records();
    let mut reg = ro();
    rec.vault.files.insert("notes/todo".to_string(), "- [ ] water\n".to_string());
    rec.vault.index.upsert_raw("notes/todo.md", "- [ ] water\n");
    rec.templates.insert("plain.md".to_string(), "# Plain\n".to_string());
    let change_id = match call(&mut reg, &mut rec, propose("notes/alpha", "changed")) {
        Ok(ToolData::Proposed(p)) => p.change_id,
        _ => panic!("not proposed"),
    };
    let calls = vec![
        create("notes/x", "hi"),
        ToolCall::DeleteNote(DeleteNoteArgs { note_id: "notes/alpha".to_string() }),
        ToolCall::RenameNote(RenameNoteArgs {
            from: "notes/alpha".to_string(),
            to: "notes/z".to_string(),
        }),
        ToolCall::Tag(TagArgs { note_id: "notes/alpha".to_string(), tag: "t".to_string() }),
        ToolCall::UpdateNote(UpdateNoteArgs {
            note_id: "notes/alpha".to_string(),
            content: Some("new".to_string()),
            frontmatter: None,
        }),
        ToolCall::Link(LinkArgs {
            from: "notes/alpha".to_string(),
            to: "notes/beta".to_string(),
        }),
        ToolCall::ToggleTask(ToggleTaskArgs {
            note_id: "notes/todo".to_string(),
            line: 0,
            expect_text: "water".to_string(),
        }),
        ToolCall::CreateFromTemplate(CreateFromTemplateArgs {
            template: "plain".to_string(),
            note_id: "notes/new".to_string(),
            vars: None,
        }),
        ToolCall::CommitChanges(CommitArgs { change_id }),
        ToolCall::Revert(RevertArgs { version_id: "v_1".to_string() }),
        remember("A fact."),
        remember(""),
        ToolCall::Forget(ForgetArgs { memory_id: "mem_1".to_string() }),
        ToolCall::Forget(ForgetArgs { memory_id: "mem_none".to_string() }),
    ];
    rec.memories.insert("mem_1.md".to_string(), None);
    for c in calls {
        let err = call(&mut reg, &mut rec, c).err().unwrap();
        assert_eq!(err.code, "PERMISSION_DENIED");
        assert_eq!(err.reason, "This session is read-only; writes are not permitted.");
    }
    assert_eq!(rec.vault.files.len(), 3);
    assert_eq!(rec.vault.files.get("notes/todo").unwrap(), "- [ ] water\n");
    assert_eq!(rec.vault.history.len(), 0);
    assert!(rec.vault.audit.is_empty());
    assert_eq!(rec.memories.len(), 1);
    assert!(rec.memories.contains_key("mem_1.md"));
}

#[test]
fn memories_are_told_apart_by_their_files() {
    let mut rec = records();
    let mut reg = rw();
    let id = match call(&mut reg, &mut rec, remember("The launch is in autumn.")) {
        Ok(ToolData::Remembered(id)) => id,
        _ => panic!("not remembered"),
    };
    let file = format!("{id}.md");
    assert!(rec.memories.contains_key(&file));
    call(&mut reg, &mut rec, remember("The launch is in autumn.")).unwrap();
    assert_eq!(rec.memories.len(), 1, "one file for one id");

    let saved = rec.memories.get(&file).unwrap().clone().unwrap();
    for (name, id) in [("a.md", "a"), ("a-b.md", "a-b"), ("copy.md", "a")] {
        let mut memory = saved.clone();
        memory.id = id.to_string();
        rec.memories.insert(name.to_string(), Some(memory));
    }
    rec.memories.insert("broken.md".to_string(), None);
    let out = reg.recall(
        &rec,
        RecallQuery { query: "launch autumn".to_string(), memory_type: None, token_budget: None },
    );
    let ids: Vec<&str> = out.items.iter().map(|i| i.memory.id.as_str()).collect();
    assert_eq!(ids, ["a-b", "a", "a", id.as_str()], "in the order of the file names");

    let gone = |id: &str| ToolCall::Forget(ForgetArgs { memory_id: id.to_string() });
    let out = call(&mut reg, &mut rec, gone("broken"));
    assert_eq!(shown(&out, &["data", "removed"]), "true");
    let out = call(&mut reg, &mut rec, gone("a"));
    assert_eq!(shown(&out, &["data", "removed"]), "true");
    assert!(!rec.memories.contains_key("broken.md") && !rec.memories.contains_key("a.md"));
    assert!(rec.memories.contains_key("copy.md") && rec.memories.contains_key("a-b.md"));
}

#[test]
fn envelopes_have_one_shape() {
    let ok = ok_envelope(parse_json(r#"{"n":1}"#).unwrap());
    assert_eq!(render_json(&ok), r#"{"data":{"n":1},"ok":true}"#);
    let err = err_envelope(&TacitusError::new("C", "r", "s"));
    assert_eq!(
        render_json(&err),
        r#"{"error":{"code":"C","reason":"r","suggestion":"s"},"ok":false}"#
    );
}

//! Transactional write-back: propose, commit, revert, audit.
use tacitus::paths::key_of_note;
use tacitus::strmap::StrMap;
use tacitus::vault::parse::parse_note;
use tacitus::vault::value::{parse_yaml, Yaml};
use tacitus::vault::write::{
    apply_all, change_id, commit_steps, rollback_steps, serialize_note, ChangeOp, Changeset,
    PermissionScope,
};
use tacitus::vault::writer::{audit_lines, NoteWriter, Vault};

fn vault(notes: &[(&str, &str)]) -> Vault {
    let mut v = Vault::new();
    for (id, raw) in notes {
        v.files.insert(id.to_string(), raw.to_string());
        v.index.upsert_raw(&format!("{id}.md"), raw);
    }
    v
}

fn rw() -> NoteWriter {
    NoteWriter::new("/v", PermissionScope::ReadWrite)
}

fn create(note_id: &str, content: &str) -> ChangeOp {
    ChangeOp::Create {
        note_id: note_id.to_string(),
        content: content.to_string(),
        frontmatter: None,
    }
}

fn update(note_id: &str, content: &str) -> ChangeOp {
    ChangeOp::Update {
        note_id: note_id.to_string(),
        content: Some(content.to_string()),
        frontmatter: None,
    }
}

fn create_op(note_id: &str, content: &str) -> Changeset {
    Changeset { ops: vec![create(note_id, content)] }
}

fn titled() -> Option<Yaml> {
    parse_yaml("title: A")
}

#[test]
fn propose_is_a_dry_run_touching_no_files() {
    let v = vault(&[]);
    let mut writer = rw();
    let proposal = writer.propose(&v, create_op("notes/new", "hello")).unwrap();
    assert!(proposal.change_id.starts_with("chg_"));
    assert_eq!(proposal.diff.len(), 1);
    assert_eq!(proposal.diff[0].note_id, "notes/new");
    assert_eq!(proposal.diff[0].op, "create");
    assert!(proposal.diff[0].before.is_none());
    assert!(proposal.diff[0].after.as_deref().unwrap().contains("hello"));
    assert_eq!(v.files.len(), 0);
}

#[test]
fn commit_applies_the_changeset_to_disk() {
    let mut v = vault(&[]);
    let mut writer = rw();
    let changeset = Changeset {
        ops: vec![ChangeOp::Create {
            note_id: "a".to_string(),
            content: "body".to_string(),
            frontmatter: titled(),
        }],
    };
    let proposal = writer.propose(&v, changeset).unwrap();
    let result = writer.commit(&mut v, &proposal.change_id, 1, "now").unwrap();
    assert!(result.version_id.starts_with("v_"));
    let raw = v.files.get("a").unwrap();
    assert!(raw.contains("title: A"));
    assert!(raw.contains("body"));
}

#[test]
fn rejects_creating_over_an_existing_note_at_propose() {
    let v = vault(&[("a", "existing")]);
    let err = rw().propose(&v, create_op("a", "x")).unwrap_err();
    assert_eq!(err.code, "CONFLICT");
}

#[test]
fn rejects_a_missing_note_update_and_stays_all_or_nothing() {
    let v = vault(&[]);
    let err = rw()
        .propose(&v, Changeset { ops: vec![create("ok", "x"), update("missing", "y")] })
        .unwrap_err();
    assert_eq!(err.code, "NOTE_NOT_FOUND");
    assert!(!v.files.contains_key("ok"));
}

#[test]
fn revert_removes_a_note_that_a_create_introduced() {
    let mut v = vault(&[]);
    let mut writer = rw();
    let proposal = writer.propose(&v, create_op("temp", "x")).unwrap();
    let commit = writer.commit(&mut v, &proposal.change_id, 1, "now").unwrap();
    assert!(v.files.contains_key("temp"));
    writer.revert(&mut v, &commit.version_id, "later").unwrap();
    assert!(!v.files.contains_key("temp"));
    assert!(v.index.get("temp").is_none());
}

#[test]
fn revert_restores_prior_content_after_an_update() {
    let mut v = vault(&[("doc", "OLD")]);
    let mut writer = rw();
    let proposal = writer.propose(&v, Changeset { ops: vec![update("doc", "NEW")] }).unwrap();
    let commit = writer.commit(&mut v, &proposal.change_id, 1, "now").unwrap();
    assert!(v.files.get("doc").unwrap().contains("NEW"));
    writer.revert(&mut v, &commit.version_id, "later").unwrap();
    assert_eq!(v.files.get("doc").unwrap(), "OLD");
}

#[test]
fn propose_is_idempotent_same_changeset_same_change_id() {
    let v = vault(&[]);
    let mut writer = rw();
    let a = writer.propose(&v, create_op("z", "zz")).unwrap().change_id;
    let b = writer.propose(&v, create_op("z", "zz")).unwrap().change_id;
    assert_eq!(a, b);
    assert_ne!(a, writer.propose(&v, create_op("z", "other")).unwrap().change_id);
}

#[test]
fn the_id_of_a_changeset_is_that_of_its_json() {
    let id = change_id(&create_op("z", "zz")).unwrap();
    let seed = r#"{"ops":[{"op":"create","note_id":"z","content":"zz"}]}"#;
    assert_eq!(id, tacitus::ids::stable_id(seed, "chg"));
}

#[test]
fn a_frontmatter_that_is_no_json_has_no_change_id() {
    let changeset = Changeset {
        ops: vec![ChangeOp::Create {
            note_id: "z".to_string(),
            content: String::new(),
            frontmatter: parse_yaml("? [a, b]\n: c\n"),
        }],
    };
    assert_eq!(change_id(&changeset).unwrap_err().code, "INTERNAL");
}

#[test]
fn read_only_scope_denies_commit_but_allows_propose() {
    let mut v = vault(&[]);
    let mut writer = NoteWriter::new("/v", PermissionScope::ReadOnly);
    let proposal = writer.propose(&v, create_op("x", "x")).unwrap();
    let err = writer.commit(&mut v, &proposal.change_id, 1, "now").unwrap_err();
    assert_eq!(err.code, "PERMISSION_DENIED");
    assert_eq!(writer.revert(&mut v, "v_1", "now").unwrap_err().code, "PERMISSION_DENIED");
}

#[test]
fn reflects_committed_changes_into_a_provided_live_index() {
    let mut v = vault(&[]);
    let mut writer = rw();
    let proposal = writer.propose(&v, create_op("live", "live note")).unwrap();
    writer.commit(&mut v, &proposal.change_id, 1, "now").unwrap();
    assert_eq!(v.index.get("live").map(|n| n.title.clone()), Some("live".to_string()));
}

#[test]
fn get_version_classifies_created_updated_deleted() {
    let mut v = vault(&[("edit", "OLD\n"), ("gone", "BYE\n")]);
    let mut writer = rw();
    let changeset = Changeset {
        ops: vec![
            create("fresh", "NEW"),
            update("edit", "CHANGED"),
            ChangeOp::Delete { note_id: "gone".to_string() },
        ],
    };
    let proposal = writer.propose(&v, changeset).unwrap();
    let version = writer.commit(&mut v, &proposal.change_id, 1, "now").unwrap().version_id;

    let detail = writer.get_version(&v, &version).unwrap();
    assert_eq!(detail.version_id, version);
    let op_of =
        |id: &str| detail.notes.iter().find(|n| n.note_id == id).unwrap().op.clone();
    assert_eq!(op_of("fresh"), "created");
    assert_eq!(op_of("edit"), "updated");
    assert_eq!(op_of("gone"), "deleted");
    let edit = detail.notes.iter().find(|n| n.note_id == "edit").unwrap();
    assert!(edit.before.as_deref().unwrap().contains("OLD"));
    assert!(edit.after.as_deref().unwrap().contains("CHANGED"));

    assert_eq!(writer.get_version(&v, "v_nope").unwrap_err().code, "UNKNOWN_VERSION");
}

#[test]
fn create_note_writes_and_returns_version_id() {
    let mut v = vault(&[]);
    let result = rw().create_note(&mut v, "notes/a", "hello", titled(), 1, "now").unwrap();
    assert!(result.version_id.starts_with("v_"));
    assert!(v.files.get("notes/a").unwrap().contains("hello"));
}

#[test]
fn update_note_replaces_content() {
    let mut v = vault(&[]);
    let mut writer = rw();
    writer.create_note(&mut v, "a", "old", None, 1, "now").unwrap();
    writer.update_note(&mut v, "a", Some("new".to_string()), None, 2, "now").unwrap();
    assert!(v.files.get("a").unwrap().contains("new"));
}

#[test]
fn link_appends_a_wikilink_to_the_source_note() {
    let mut v = vault(&[]);
    let mut writer = rw();
    writer.create_note(&mut v, "a", "body", None, 1, "now").unwrap();
    writer.create_note(&mut v, "b", "other", None, 2, "now").unwrap();
    writer.link(&mut v, "a", "b", 3, "now").unwrap();
    let note = parse_note(v.files.get("a").unwrap(), "a.md");
    assert!(note.links.iter().any(|l| l.target == "b"));
    assert_eq!(writer.link(&mut v, "nope", "b", 4, "now").unwrap_err().code, "NOTE_NOT_FOUND");
}

#[test]
fn linking_twice_leaves_the_file_as_it_is() {
    let mut v = vault(&[("a", "---\ntitle: A\n---\nbody\n"), ("b", "other")]);
    let mut writer = rw();
    writer.link(&mut v, "a", "b", 1, "now").unwrap();
    let once = v.files.get("a").unwrap().clone();
    assert_eq!(once.matches("[[b]]").count(), 1);
    writer.link(&mut v, "a", "b", 2, "now").unwrap();
    assert_eq!(v.files.get("a").unwrap(), &once);
    writer.link(&mut v, "a", "c", 3, "now").unwrap();
    assert_eq!(v.files.get("a").unwrap().matches("[[").count(), 2);
}

#[test]
fn ids_of_one_file_name_one_note() {
    assert_eq!(key_of_note("a"), "a");
    assert_eq!(key_of_note("./a"), "a");
    assert_eq!(key_of_note("x//../a"), "a");
    assert_eq!(key_of_note("x/./y"), "x/y");
    for id in ["a", "./a", "x//../a", "../../b", "/../c", "a/..", "//d//e"] {
        let key = key_of_note(id);
        assert_eq!(key_of_note(&key), key, "{id}");
    }
    let mut v = vault(&[("a", "body")]);
    let mut writer = rw();
    let err = writer.create_note(&mut v, "./a", "new", None, 1, "now").unwrap_err();
    assert_eq!(err.code, "CONFLICT");
    writer.update_note(&mut v, "x/../a", Some("new".to_string()), None, 2, "now").unwrap();
    assert!(v.files.get("a").unwrap().contains("new"));
    assert_eq!(v.files.len(), 1);
}

#[test]
fn a_diff_names_notes_as_the_changeset_does() {
    let mut v = vault(&[("a", "body")]);
    let mut writer = rw();
    let ops = vec![ChangeOp::SetRaw {
        note_id: "./a".to_string(),
        raw: Some("raw".to_string()),
    }];
    let p = writer.propose(&v, Changeset { ops }).unwrap();
    assert_eq!(p.diff[0].note_id, "./a");
    assert_eq!(p.diff[0].before.as_deref(), Some("body"));
    let version = writer.commit(&mut v, &p.change_id, 1, "now").unwrap().version_id;
    assert_eq!(v.files.get("a").unwrap(), "raw");
    assert_eq!(v.files.len(), 1);
    assert_eq!(writer.get_version(&v, &version).unwrap().notes[0].note_id, "./a");
    assert_eq!(v.audit[0].notes, vec!["./a"]);
    assert!(v.index.get("./a").is_some());
    writer.revert(&mut v, &version, "later").unwrap();
    assert_eq!(v.files.get("a").unwrap(), "body");
    assert_eq!(v.audit[1].notes, vec!["./a"]);
}

#[test]
fn a_version_can_be_reverted_after_later_writes() {
    let mut v = vault(&[("a", "one"), ("b", "other")]);
    let mut writer = rw();
    let set = |id: &str, raw: &str| Changeset {
        ops: vec![ChangeOp::SetRaw { note_id: id.to_string(), raw: Some(raw.to_string()) }],
    };
    let p = writer.propose(&v, set("a", "two")).unwrap();
    let version = writer.commit(&mut v, &p.change_id, 1, "t1").unwrap().version_id;
    for (id, raw, at) in [("b", "new", 2), ("a", "three", 3)] {
        let p = writer.propose(&v, set(id, raw)).unwrap();
        writer.commit(&mut v, &p.change_id, at, "later").unwrap();
    }
    let r = writer.revert(&mut v, &version, "t4").unwrap();
    assert!(r.reverted);
    assert_eq!(r.version_id, version);
    assert_eq!(v.files.get("a").unwrap(), "one");
    assert_eq!(v.files.get("b").unwrap(), "new");
    assert_eq!(v.audit.len(), 4);
    assert_eq!(v.audit[3].action, "revert");
}

#[test]
fn a_corrupt_version_is_told_from_a_missing_one() {
    let mut v = vault(&[("a", "body")]);
    let mut writer = rw();
    v.corrupt.insert("v_bad".to_string(), "expected value".to_string());
    let err = writer.get_version(&v, "v_bad").unwrap_err();
    assert_eq!(err.code, "INTERNAL");
    assert_eq!(err.reason, "expected value");
    assert_eq!(err.suggestion, "The history snapshot is corrupt.");
    assert_eq!(writer.revert(&mut v, "v_bad", "now").unwrap_err().code, "INTERNAL");
    assert_eq!(writer.revert(&mut v, "v_none", "now").unwrap_err().code, "UNKNOWN_VERSION");
    assert_eq!(v.files.get("a").unwrap(), "body");
    assert!(v.audit.is_empty());
}

#[test]
fn tag_adds_a_frontmatter_tag_and_dedupes() {
    let mut v = vault(&[]);
    let mut writer = rw();
    writer.create_note(&mut v, "a", "body", None, 1, "now").unwrap();
    writer.tag(&mut v, "a", "urgent", 2, "now").unwrap();
    writer.tag(&mut v, "a", "urgent", 3, "now").unwrap();
    let note = parse_note(v.files.get("a").unwrap(), "a.md");
    assert!(note.tags.contains(&"urgent".to_string()));
    assert!(v.files.get("a").unwrap().starts_with("---\ntags:\n- urgent\n---\nbody\n"));
}

#[test]
fn records_an_audit_entry_per_mutation_most_recent_first() {
    let mut v = vault(&[]);
    let mut writer = rw();
    writer.create_note(&mut v, "a", "x", None, 1, "now").unwrap();
    writer.create_note(&mut v, "b", "y", None, 2, "now").unwrap();
    let audit = writer.read_audit(&v, 50);
    assert!(audit.len() >= 2);
    assert_eq!(audit[0].action, "commit");
    assert!(audit[0].notes.contains(&"b".to_string()));
    assert_eq!(writer.read_audit(&v, 1).len(), 1);
}

#[test]
fn read_only_scope_denies_create_note() {
    let mut v = vault(&[]);
    let mut writer = NoteWriter::new("/v", PermissionScope::ReadOnly);
    let err = writer.create_note(&mut v, "a", "x", None, 1, "now").unwrap_err();
    assert_eq!(err.code, "PERMISSION_DENIED");
    assert_eq!(v.files.len(), 0);
    assert!(v.audit.is_empty());
}

#[test]
fn setraw_writes_bytes_verbatim_and_is_versioned() {
    let mut v = vault(&[]);
    let mut writer = rw();
    // Raw content with frontmatter, odd spacing, and a single trailing newline
    // — must land byte-for-byte, no reserialization.
    let raw = "---\ntitle: Exact   # comment kept\n---\nbody line\n";
    let set = |raw: Option<&str>| Changeset {
        ops: vec![ChangeOp::SetRaw {
            note_id: "exact".to_string(),
            raw: raw.map(|r| r.to_string()),
        }],
    };
    let proposal = writer.propose(&v, set(Some(raw))).unwrap();
    writer.commit(&mut v, &proposal.change_id, 1, "now").unwrap();
    assert_eq!(v.files.get("exact").unwrap(), raw);

    // SetRaw(None) deletes; revert of the delete restores the bytes.
    let proposal = writer.propose(&v, set(None)).unwrap();
    let delete = writer.commit(&mut v, &proposal.change_id, 2, "now").unwrap();
    assert!(!v.files.contains_key("exact"));
    writer.revert(&mut v, &delete.version_id, "later").unwrap();
    assert_eq!(v.files.get("exact").unwrap(), raw);
}

#[test]
fn audit_entry_origin_roundtrips_and_defaults_none() {
    let mut v = vault(&[]);
    let mut writer = rw();
    writer.create_note(&mut v, "plain", "no origin", None, 1, "now").unwrap();
    writer.set_origin("sync");
    writer.create_note(&mut v, "synced", "with origin", None, 2, "now").unwrap();
    let audit = writer.read_audit(&v, 10);
    assert_eq!(audit[0].origin.as_deref(), Some("sync"));
    assert_eq!(audit[1].origin, None);
}

#[test]
fn an_interrupted_commit_is_rolled_back() {
    let v = vault(&[("edit", "OLD\n"), ("gone", "BYE\n")]);
    let changeset = Changeset {
        ops: vec![
            create("fresh", "NEW"),
            update("edit", "CHANGED"),
            ChangeOp::Delete { note_id: "gone".to_string() },
        ],
    };
    let diff = rw().propose(&v, changeset).unwrap().diff;
    let steps = commit_steps(&diff);
    for done in 0..=steps.len() {
        let mut files = StrMap::new();
        files.insert("edit".to_string(), "OLD\n".to_string());
        files.insert("gone".to_string(), "BYE\n".to_string());
        let first: Vec<_> = commit_steps(&diff).into_iter().take(done).collect();
        apply_all(&mut files, &first);
        apply_all(&mut files, &rollback_steps(&diff, done));
        assert_eq!(files.len(), 2);
        assert_eq!(files.get("edit").unwrap(), "OLD\n");
        assert_eq!(files.get("gone").unwrap(), "BYE\n");
    }
}

#[test]
fn a_note_file_has_a_frontmatter_only_where_there_is_one() {
    assert_eq!(serialize_note(None, "body"), "body\n");
    assert_eq!(serialize_note(parse_yaml("{}").as_ref(), "body"), "body\n");
    assert_eq!(serialize_note(titled().as_ref(), "body"), "---\ntitle: A\n---\nbody\n");
}

#[test]
fn blank_lines_of_the_audit_file_are_skipped() {
    assert_eq!(audit_lines("{\"a\":1}\n\n{\"b\":2}\n"), vec!["{\"a\":1}", "{\"b\":2}"]);
    let writer = rw();
    assert_eq!(writer.audit_path(), "/v/.tacitus/audit.log");
    assert_eq!(writer.history_dir(), "/v/.tacitus/history");
    assert_eq!(writer.note_path("notes/a"), "/v/notes/a.md");
}

#[test]
fn an_unknown_change_is_refused() {
    let mut v = vault(&[]);
    let err = rw().commit(&mut v, "chg_nope", 1, "now").unwrap_err();
    assert_eq!(err.code, "UNKNOWN_CHANGE");
    assert_eq!(err.reason, "No pending change with id \"chg_nope\".");
    assert_eq!(rw().revert(&mut v, "v_nope", "now").unwrap_err().code, "UNKNOWN_VERSION");
}

#[test]
fn every_write_leaves_one_audit_entry_and_the_index_follows() {
    let mut v = vault(&[("a", "old\n")]);
    let mut writer = rw();
    let changeset = Changeset { ops: vec![update("a", "new"), create("b", "second")] };
    let proposal = writer.propose(&v, changeset).unwrap();
    assert_eq!(v.audit.len(), 0);
    let commit = writer.commit(&mut v, &proposal.change_id, 7, "t1").unwrap();
    assert_eq!(v.audit.len(), 1);
    assert_eq!(v.audit[0].notes, vec!["a".to_string(), "b".to_string()]);
    assert_eq!(v.index.get("b").unwrap().content, "second\n");
    writer.revert(&mut v, &commit.version_id, "t2").unwrap();
    assert_eq!(v.audit.len(), 2);
    assert_eq!(v.audit[1].action, "revert");
    assert_eq!(v.files.get("a").unwrap(), "old\n");
    assert_eq!(v.index.get("a").unwrap().content, "old\n");
    assert!(v.index.get("b").is_none());
    assert!(writer.commit(&mut v, "chg_none", 8, "t3").is_err());
    assert_eq!(v.audit.len(), 2);
}

#[test]
fn a_written_note_file_reads_back() {
    let fm = titled();
    let raw = serialize_note(fm.as_ref(), "body");
    assert_eq!(raw, "---\ntitle: A\n---\nbody\n");
    let note = parse_note(&raw, "x.md");
    assert_eq!(note.title, "A");
    assert_eq!(note.content, "body\n");
    assert_eq!(parse_note(&serialize_note(None, "--- no block"), "y.md").content, "--- no block\n");
}

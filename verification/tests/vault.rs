//! The vault: parsing, retrieval, properties, tasks, templates, renaming.
use std::collections::HashMap;
use tacitus::strmap::StrMap;
use tacitus::vault::get::{get_note, NoteFormat};
use tacitus::vault::graph::{graph_query, Relation};
use tacitus::vault::index::{is_note_file, unix_path, walks_into, VaultIndex};
use tacitus::vault::json::{parse_json, render_json, yaml_of_json, Json};
use tacitus::vault::parse::{parse_note, split_sections};
use tacitus::vault::properties::{
    properties_query, PropFilter, PropOp, PropertiesQueryArgs, PropertiesRow,
};
use tacitus::vault::rename::{rebuild_link, rename_note_ops};
use tacitus::vault::search::{make_snippet, search_notes, SearchArgs};
use tacitus::vault::tasks::{list_tasks, note_tasks, toggled_content, TaskFilter};
use tacitus::vault::template::{
    clock_now, clock_of, list_templates, render_at, render_template, template_vars, Clock, Instant,
    TemplateStore,
};
use tacitus::vault::types::WikiLink;
use tacitus::vault::value::{parse_yaml, render_yaml};
use tacitus::vault::write::{ChangeOp, PermissionScope};
use tacitus::vault::writer::{NoteWriter, Vault};

const RAW: &str = "---\ntitle: Launch Plan\ntags: [project, q1]\n---\n# Launch Plan\n\nSee [[projects/timeline|the timeline]] and [[Risks#Mitigations]].\nAlso [[Notes#^block1]]. Inline #urgent tag.\n\n## Timeline\n## Risks\n";

fn vault(notes: &[(&str, &str)]) -> Vault {
    let mut v = Vault::new();
    for (id, raw) in notes {
        v.files.insert(id.to_string(), raw.to_string());
        v.index.upsert_raw(&format!("{id}.md"), raw);
    }
    v
}

fn make_vault() -> Vault {
    vault(&[
        (
            "index",
            "---\ntitle: Home\n---\n# Home\n\nWelcome. The launch is coming. See [[projects/launch]] and [[ideas]].\n",
        ),
        (
            "projects/launch",
            "---\ntitle: Launch\ntags: [project]\n---\n\nLaunch overview. Related: [[ideas]].\n\n## Timeline\nDates.\n\n## Risks\nMitigations.\n",
        ),
        (
            "ideas",
            "---\ntitle: Ideas\ntags: [idea]\n---\n# Ideas\n\nThe launch deadline is in March. See [[projects/launch]].\n",
        ),
    ])
}

fn properties_vault() -> Vault {
    vault(&[
        (
            "alpha",
            "---\nstatus: active\npriority: 3\ndue: 2026-08-01\ntags: [project, q3]\n---\nAlpha.\n",
        ),
        (
            "beta",
            "---\nstatus: done\npriority: 1\ndue: 2026-07-01\ntags: [project]\n---\nBeta.\n",
        ),
        ("gamma", "---\nstatus: active\npriority: 2\n---\nGamma (no due, no tags).\n"),
        ("plain", "No frontmatter at all.\n"),
    ])
}

fn everything() -> PropertiesQueryArgs {
    PropertiesQueryArgs {
        filters: vec![],
        select: None,
        sort_by: None,
        descending: false,
        limit: None,
        token_budget: None,
    }
}

fn ids(rows: &[PropertiesRow]) -> Vec<&str> {
    rows.iter().map(|r| r.note_id.as_str()).collect()
}

fn text(s: &str) -> Json {
    Json::Text(s.to_string())
}

fn filter(key: &str, op: PropOp, value: Option<Json>) -> PropFilter {
    PropFilter { key: key.to_string(), op, value }
}

fn tasks_vault() -> Vault {
    vault(&[
        (
            "today",
            "# Today\n\n- [ ] ship the release due:2026-07-25 #launch\n- [x] write tests\n- [ ] water plants\n",
        ),
        (
            "plans",
            "---\ntitle: Plans\n---\n- [ ] book venue \u{1F4C5} 2026-08-10 #launch\n* [X] draft agenda\nNot a task line.\n",
        ),
    ])
}

fn any_task() -> TaskFilter {
    TaskFilter {
        done: None,
        due_before: None,
        due_after: None,
        tag: None,
        note_id: None,
        limit: None,
        token_budget: None,
    }
}

fn rename_vault() -> Vault {
    vault(&[
        (
            "projects/launch",
            "---\ntitle: Launch\npriority: 3\n---\nSee [[projects/launch]] self-link and [[ideas]].\n",
        ),
        ("a", "Full id [[projects/launch]] and alias [[projects/launch|the launch]].\n"),
        ("b", "Basename case-insensitive [[Launch#Timeline]] link.\n"),
        ("ideas", "# Ideas\nUnrelated [[a]].\n"),
    ])
}

fn vars(pairs: &[(&str, &str)]) -> StrMap<String> {
    let mut m = StrMap::new();
    for (k, v) in pairs {
        m.insert(k.to_string(), v.to_string());
    }
    m
}

#[test]
fn extracts_id_title_and_body() {
    let note = parse_note(RAW, "projects/launch.md");
    assert_eq!(note.id, "projects/launch");
    assert_eq!(note.title, "Launch Plan");
    assert!(note.content.contains("See [[projects/timeline"));
    assert!(!note.content.contains("title: Launch Plan"));
}

#[test]
fn extracts_headings_with_slugs() {
    let note = parse_note(RAW, "a.md");
    let texts: Vec<&str> = note.headings.iter().map(|h| h.text.as_str()).collect();
    assert_eq!(texts, vec!["Launch Plan", "Timeline", "Risks"]);
    assert_eq!(note.headings[0].slug, "launch-plan");
}

#[test]
fn extracts_wikilinks_with_alias_heading_block() {
    let note = parse_note(RAW, "a.md");
    let by_target: HashMap<&str, &WikiLink> =
        note.links.iter().map(|l| (l.target.as_str(), l)).collect();
    assert_eq!(by_target["projects/timeline"].alias.as_deref(), Some("the timeline"));
    assert_eq!(by_target["Risks"].heading.as_deref(), Some("Mitigations"));
    assert_eq!(by_target["Notes"].block.as_deref(), Some("block1"));
}

#[test]
fn collects_frontmatter_and_inline_tags() {
    let mut tags = parse_note(RAW, "a.md").tags;
    tags.sort();
    assert_eq!(tags, vec!["project", "q1", "urgent"]);
}

#[test]
fn falls_back_to_h1_then_filename_for_title() {
    assert_eq!(parse_note("# Only Heading\n\ntext", "foo/bar.md").title, "Only Heading");
    assert_eq!(parse_note("no heading here", "foo/baz.md").title, "baz");
}

#[test]
fn a_frontmatter_that_is_never_closed_is_body() {
    let (fm, body) = split_sections("---\ntitle: x\nno end");
    assert!(fm.is_none());
    assert_eq!(body, "---\ntitle: x\nno end");
}

#[test]
fn yaml_reads_and_writes_values() {
    let y = parse_yaml("title: A\ncount: 3\nlist: [x, y]\n").unwrap();
    assert_eq!(y.get("title").and_then(|v| v.as_str()), Some("A"));
    assert_eq!(y.get("count").and_then(|v| v.as_u64()), Some(3));
    assert_eq!(render_yaml(&y), "title: A\ncount: 3\nlist:\n- x\n- y\n");
    assert!(parse_yaml("a: [unclosed").is_none());
    let tagged = parse_yaml("!color red").unwrap();
    assert_eq!(tagged.as_str(), Some("red"));
    assert_eq!(render_yaml(&tagged), "!color red\n");
}

#[test]
fn json_reads_writes_and_becomes_yaml() {
    let j = parse_json(r#"{"b": [1, 2.5, null], "a": true}"#).unwrap();
    assert_eq!(render_json(&j), r#"{"a":true,"b":[1,2.5,null]}"#);
    assert_eq!(render_yaml(&yaml_of_json(&j).unwrap()), "a: true\nb:\n- 1\n- 2.5\n- null\n");
    assert!(parse_json("{").is_err());
}

#[test]
fn search_finds_relevant_notes_within_budget() {
    let v = make_vault();
    let hits = search_notes(&v.index, "launch deadline", &SearchArgs::default());
    assert!(hits.iter().any(|h| h.note_id == "ideas"));
    let scores: Vec<u32> = hits.iter().map(|h| h.score).collect();
    let mut sorted = scores.clone();
    sorted.sort_by(|a, b| b.cmp(a));
    assert_eq!(scores, sorted);
    for h in &hits {
        assert!(h.snippet.chars().count() <= 240);
    }
    let few = search_notes(
        &v.index,
        "launch deadline",
        &SearchArgs { token_budget: Some(hits[0].token_count), top_k: None },
    );
    assert_eq!(few.len(), 1);
    let none =
        search_notes(&v.index, "launch", &SearchArgs { token_budget: None, top_k: Some(0) });
    assert!(none.is_empty());
}

#[test]
fn a_snippet_shows_the_match_behind_other_letters() {
    let content = format!("{} needle here", "é".repeat(500));
    let snippet = make_snippet("needle", &content);
    assert!(snippet.starts_with(&"é".repeat(39)));
    assert!(snippet.ends_with(" needle here"));
}

#[test]
fn a_snippet_starts_a_little_before_the_first_match() {
    let content = format!("{}needle {}", "x".repeat(100), "y".repeat(400));
    let snippet = make_snippet("needle", &content);
    assert_eq!(snippet.chars().count(), 240);
    assert!(snippet.starts_with(&"x".repeat(40)));
    assert_eq!(&snippet[40..46], "needle");
}

#[test]
fn get_note_outline_and_not_found() {
    let v = make_vault();
    let outline = get_note(&v.index, "projects/launch", NoteFormat::Outline, None).unwrap();
    assert!(outline.content.contains("Timeline"));
    assert!(outline.content.contains("Risks"));
    assert!(!outline.content.contains("[[ideas]]"));

    let full = get_note(&v.index, "projects/launch", NoteFormat::Full, Some(3)).unwrap();
    assert!(full.truncated);
    assert!(full.token_count <= 3);

    let err = get_note(&v.index, "nope", NoteFormat::Full, None).unwrap_err();
    assert_eq!(err.code, "NOTE_NOT_FOUND");
}

#[test]
fn a_huge_ceiling_cuts_nothing() {
    let v = make_vault();
    let full = get_note(&v.index, "ideas", NoteFormat::Full, Some(usize::MAX)).unwrap();
    assert!(!full.truncated);
    assert!(full.content.contains("deadline"));
    let fm = get_note(&v.index, "ideas", NoteFormat::FrontmatterOnly, None).unwrap();
    assert!(fm.content.contains("title"));
    assert!(!fm.content.contains("deadline"));
}

#[test]
fn graph_backlinks_and_neighbors() {
    let v = make_vault();
    let mut backlinks: Vec<String> =
        graph_query(&v.index, "projects/launch", Relation::Backlinks, 1)
            .unwrap()
            .into_iter()
            .map(|n| n.note_id)
            .collect();
    backlinks.sort();
    assert_eq!(backlinks, vec!["ideas", "index"]);

    let links: Vec<String> = graph_query(&v.index, "ideas", Relation::Links, 1)
        .unwrap()
        .into_iter()
        .map(|n| n.note_id)
        .collect();
    assert!(links.contains(&"projects/launch".to_string()));

    assert_eq!(
        graph_query(&v.index, "nope", Relation::Links, 1).unwrap_err().code,
        "NOTE_NOT_FOUND"
    );
    let near: Vec<String> = graph_query(&v.index, "index", Relation::Neighbors, 2)
        .unwrap()
        .into_iter()
        .map(|n| n.note_id)
        .collect();
    assert_eq!(near.len(), 2);
    assert!(!near.contains(&"index".to_string()));
}

#[test]
fn links_and_backlinks_are_two_views_of_one_relation() {
    let v = make_vault();
    for a in v.index.all() {
        for b in v.index.all() {
            let forward = v.index.outgoing(&a.id).iter().any(|n| n.id == b.id);
            let back = v.index.backlinks(&b.id).iter().any(|n| n.id == a.id);
            assert_eq!(forward, back, "{} -> {}", a.id, b.id);
        }
    }
}

#[test]
fn the_index_takes_in_replaces_and_drops_notes() {
    let mut index = VaultIndex::new();
    index.upsert_raw("b.md", "# Second");
    index.upsert_raw("a.md", "# First");
    index.upsert_raw("b.md", "# Renewed");
    assert_eq!(index.len(), 2);
    let titles: Vec<&str> = index.all().iter().map(|n| n.title.as_str()).collect();
    assert_eq!(titles, vec!["First", "Renewed"]);
    assert_eq!(index.resolve("A").map(|n| n.id.as_str()), Some("a"));
    index.remove_note("a");
    assert!(index.get("a").is_none());
    assert!(index.resolve("nowhere").is_none());
}

#[test]
fn only_visible_markdown_is_indexed() {
    assert!(walks_into("projects"));
    assert!(!walks_into(".tacitus"));
    assert!(is_note_file("a.md"));
    assert!(!is_note_file("a.txt"));
    assert_eq!(unix_path("a\\b.md"), "a/b.md");
}

#[test]
fn eq_and_array_contains_are_anded() {
    let v = properties_vault();
    let mut q = everything();
    q.filters = vec![
        filter("status", PropOp::Eq, Some(text("active"))),
        filter("tags", PropOp::Contains, Some(text("project"))),
    ];
    assert_eq!(ids(&properties_query(&v.index, &q)), vec!["alpha"]);
}

#[test]
fn numeric_comparison_sort_and_limit() {
    let v = properties_vault();
    let mut q = everything();
    q.filters = vec![filter("priority", PropOp::Gte, Some(parse_json("1").unwrap()))];
    q.sort_by = Some("priority".to_string());
    q.descending = true;
    q.limit = Some(2);
    assert_eq!(ids(&properties_query(&v.index, &q)), vec!["alpha", "gamma"]);
}

#[test]
fn rows_without_the_sort_key_come_last_in_either_direction() {
    let v = properties_vault();
    let mut q = everything();
    q.sort_by = Some("due".to_string());
    assert_eq!(ids(&properties_query(&v.index, &q)), vec!["beta", "alpha", "gamma", "plain"]);
    q.descending = true;
    assert_eq!(ids(&properties_query(&v.index, &q)), vec!["alpha", "beta", "gamma", "plain"]);
}

#[test]
fn iso_date_strings_compare_lexicographically() {
    let v = properties_vault();
    let mut q = everything();
    q.filters = vec![filter("due", PropOp::Lt, Some(text("2026-07-15")))];
    assert_eq!(ids(&properties_query(&v.index, &q)), vec!["beta"]);
}

#[test]
fn exists_not_exists_and_select_projection() {
    let v = properties_vault();
    let mut q = everything();
    q.filters =
        vec![filter("status", PropOp::Exists, None), filter("due", PropOp::NotExists, None)];
    q.select = Some(vec!["status".to_string()]);
    let rows = properties_query(&v.index, &q);
    assert_eq!(ids(&rows), vec!["gamma"]);
    assert_eq!(rows[0].properties.len(), 1);
    assert_eq!(rows[0].properties[0].0, "status");
    assert_eq!(render_json(&rows[0].properties[0].1), "\"active\"");
}

#[test]
fn token_budget_is_a_hard_ceiling() {
    let v = properties_vault();
    let all = properties_query(&v.index, &everything());
    assert_eq!(all.len(), 4); // includes the empty-frontmatter note
    let total: usize = all.iter().map(|r| r.token_count).sum();

    let mut q = everything();
    q.token_budget = Some(total / 2);
    let capped = properties_query(&v.index, &q);
    assert!(!capped.is_empty());
    assert!(capped.len() < all.len());
    assert!(capped.iter().map(|r| r.token_count).sum::<usize>() <= total / 2);
}

#[test]
fn every_operator_has_a_name() {
    for (name, op) in [
        ("eq", PropOp::Eq),
        ("ne", PropOp::Ne),
        ("contains", PropOp::Contains),
        ("exists", PropOp::Exists),
        ("not_exists", PropOp::NotExists),
        ("gt", PropOp::Gt),
        ("lt", PropOp::Lt),
        ("gte", PropOp::Gte),
        ("lte", PropOp::Lte),
    ] {
        assert_eq!(PropOp::parse(name), Some(op));
    }
    assert_eq!(PropOp::parse("like"), None);
}

#[test]
fn parses_status_due_and_tags_across_notes() {
    let v = tasks_vault();
    let all = list_tasks(&v.index, &any_task());
    assert_eq!(all.len(), 5);

    let ship = all.iter().find(|t| t.text.contains("ship")).unwrap();
    assert!(!ship.done);
    assert_eq!(ship.due.as_deref(), Some("2026-07-25"));
    assert_eq!(ship.tags, vec!["launch"]);

    // Emoji due syntax + `* [X]` checkbox variant both parse.
    let venue = all.iter().find(|t| t.text.contains("venue")).unwrap();
    assert_eq!(venue.due.as_deref(), Some("2026-08-10"));
    assert!(all.iter().any(|t| t.text.contains("agenda") && t.done));
}

#[test]
fn a_due_date_takes_any_unicode_digit_and_no_letter() {
    let v = vault(&[("t", "- [ ] a due:٢٠٢٦-٠٧-٢٥\n- [ ] b due:20x6-07-25\n")]);
    let all = list_tasks(&v.index, &any_task());
    assert_eq!(all[0].due.as_deref(), Some("٢٠٢٦-٠٧-٢٥"));
    assert_eq!(all[1].due, None);
}

#[test]
fn filters_and_due_ordering() {
    let v = tasks_vault();
    let mut f = any_task();
    f.done = Some(false);
    let open = list_tasks(&v.index, &f);
    assert_eq!(open.len(), 3);
    // Due-dated tasks first (ascending), undated last.
    assert!(open[0].text.contains("ship"));
    assert!(open[1].text.contains("venue"));
    assert!(open[2].due.is_none());

    let mut f = any_task();
    f.due_before = Some("2026-08-01".to_string());
    let before = list_tasks(&v.index, &f);
    assert_eq!(before.len(), 1);
    assert!(before[0].text.contains("ship"));

    let mut f = any_task();
    f.tag = Some("launch".to_string());
    assert_eq!(list_tasks(&v.index, &f).len(), 2);
}

#[test]
fn token_budget_caps_the_list() {
    let v = tasks_vault();
    let all = list_tasks(&v.index, &any_task());
    let total: usize = all.iter().map(|t| t.token_count).sum();
    let mut f = any_task();
    f.token_budget = Some(total / 2);
    let capped = list_tasks(&v.index, &f);
    assert!(!capped.is_empty());
    assert!(capped.len() < all.len());
}

#[test]
fn toggle_roundtrip_is_versioned_and_reflected() {
    let mut v = tasks_vault();
    let mut writer = NoteWriter::new("/v", PermissionScope::ReadWrite);
    let task = list_tasks(&v.index, &any_task())
        .into_iter()
        .find(|t| t.text.contains("water"))
        .unwrap();
    let content = v.index.get(&task.note_id).unwrap().content.clone();
    let new_content = toggled_content(&task.note_id, &content, task.line, &task.text).unwrap();
    let result =
        writer.update_note(&mut v, &task.note_id, Some(new_content), None, 1, "now").unwrap();
    assert!(result.version_id.starts_with("v_"));
    assert!(v.files.get("today").unwrap().contains("- [x] water plants"));
    // Live index reflects the flip; the write is audited.
    let again = list_tasks(&v.index, &any_task());
    assert!(again.iter().any(|t| t.text.contains("water") && t.done));
    assert_eq!(v.audit.len(), 1);
}

#[test]
fn toggle_with_stale_text_is_a_conflict() {
    let content = "- [ ] real task\nplain line\n";
    let err = toggled_content("today", content, 0, "something else entirely").unwrap_err();
    assert_eq!(err.code, "CONFLICT");
    let err = toggled_content("today", content, 1, "plain line").unwrap_err();
    assert_eq!(err.code, "CONFLICT"); // not a task line
    let err = toggled_content("today", content, 99, "x").unwrap_err();
    assert_eq!(err.code, "CONFLICT"); // line out of range
    // And a done task flips back to open.
    let back = toggled_content("t", "- [x] done thing", 0, "done thing").unwrap();
    assert_eq!(back, "- [ ] done thing");
}

#[test]
fn toggling_keeps_every_other_line_as_it_was() {
    let content = "intro\r\n- [ ] one\r\n- [x] two\r\n\r\n";
    let flipped = toggled_content("t", content, 1, "one").unwrap();
    let (was, now) = (note_tasks("t", content), note_tasks("t", &flipped));
    assert_eq!(was.len(), 2);
    assert_eq!(now.len(), 2);
    assert!(!was[0].done && now[0].done);
    assert_eq!((&now[0].text, now[0].line), (&was[0].text, was[0].line));
    assert_eq!((&now[1].text, now[1].line, now[1].done), (&was[1].text, was[1].line, was[1].done));
}

#[test]
fn toggling_leaves_a_checkbox_in_the_text_alone() {
    let flipped = toggled_content("t", "- [ ] see [ ] below", 0, "see [ ] below").unwrap();
    assert_eq!(flipped, "- [x] see [ ] below");
}

#[test]
fn renders_vars_and_autofills_builtin_date() {
    let raw = "# {{title}}\n\nCreated: {{date}}\n";
    let out = render_template(raw, &vars(&[("title", "Standup")])).unwrap();
    assert!(out.contains("# Standup"));
    // {{date}} auto-filled as YYYY-MM-DD without being passed.
    assert!(regex::Regex::new(r"Created: \d{4}-\d{2}-\d{2}\n").unwrap().is_match(&out));
}

#[test]
fn builtins_take_the_clock_and_a_variable_of_the_same_name_wins() {
    let now = Clock {
        date: "2026-01-02".to_string(),
        time: "03:04".to_string(),
        datetime: "2026-01-02T03:04:05".to_string(),
    };
    let raw = "{{date}} {{time}} {{datetime}}";
    assert_eq!(render_at(raw, &vars(&[]), &now).unwrap(), "2026-01-02 03:04 2026-01-02T03:04:05");
    assert_eq!(render_at("{{ date }}", &vars(&[("date", "mine")]), &now).unwrap(), "mine");
}

#[test]
fn missing_vars_is_a_structured_error_naming_them() {
    let raw = "{{title}} by {{author}} on {{date}}";
    let err = render_template(raw, &vars(&[("title", "x")])).unwrap_err();
    assert_eq!(err.code, "MISSING_VARS");
    assert!(err.reason.contains("author"));
    assert!(!err.reason.contains("date")); // builtin never reported missing
}

#[test]
fn substitution_before_parsing_preserves_yaml_types() {
    let raw = "---\ntitle: \"{{title}}\"\npriority: {{p}}\ndone: false\n---\nBody {{title}}.\n";
    let out = render_template(raw, &vars(&[("title", "Plan"), ("p", "3")])).unwrap();
    let note = parse_note(&out, "x.md");
    assert_eq!(note.frontmatter.get("priority").and_then(|v| v.as_u64()), Some(3));
    assert_eq!(note.title, "Plan");
    assert!(note.content.contains("Body Plan."));
}

#[test]
fn store_lists_templates_with_inferred_vars() {
    let names = vec!["meeting.md".to_string(), "blank.md".to_string()];
    let raws = vec![
        "---\ntags: [meeting]\n---\n# {{title}}\n{{date}} with {{attendees}} re {{title}}\n".to_string(),
        "Nothing dynamic.\n".to_string(),
    ];
    let templates = list_templates(&names, &raws);
    assert_eq!(
        templates.iter().map(|t| t.name.as_str()).collect::<Vec<_>>(),
        vec!["blank", "meeting"]
    );
    // vars: unique, first-appearance order, builtins excluded.
    assert_eq!(templates[1].vars, vec!["title", "attendees"]);
    assert!(templates[0].vars.is_empty());
    assert_eq!(template_vars("{{a}} {{b}} {{a}}"), vec!["a", "b"]);
}

#[test]
fn load_raw_rejects_unknown_and_escaping_names() {
    let store = TemplateStore::new("/v");
    assert_eq!(store.file_of("meeting").unwrap(), "/v/.tacitus/templates/meeting.md");
    assert_eq!(TemplateStore::missing("nope").code, "TEMPLATE_NOT_FOUND");
    assert_eq!(store.file_of("../../etc/passwd").unwrap_err().code, "TEMPLATE_NOT_FOUND");
}

fn commit_rename(v: &mut Vault, from: &str, to: &str) -> (NoteWriter, String) {
    let mut writer = NoteWriter::new("/v", PermissionScope::ReadWrite);
    let changeset = rename_note_ops(&v.index, from, to).unwrap();
    let proposal = writer.propose(v, changeset).unwrap();
    let version = writer.commit(v, &proposal.change_id, 7, "now").unwrap().version_id;
    (writer, version)
}

#[test]
fn rename_moves_the_note_and_rewrites_every_link_shape() {
    let mut v = rename_vault();
    commit_rename(&mut v, "projects/launch", "projects/rocket");

    assert!(!v.files.contains_key("projects/launch"));
    let moved = v.files.get("projects/rocket").unwrap();
    assert!(moved.contains("priority: 3")); // typed frontmatter preserved
    assert!(moved.contains("[[projects/rocket]] self-link")); // self-link retargeted

    let a = v.files.get("a").unwrap();
    assert!(a.contains("[[projects/rocket]]"));
    assert!(a.contains("[[projects/rocket|the launch]]")); // alias kept

    let b = v.files.get("b").unwrap();
    assert!(b.contains("[[projects/rocket#Timeline]]")); // heading kept, basename resolved

    // Live index reflects everything: backlinks now point at the new id.
    assert!(v.index.get("projects/launch").is_none());
    let backlinks: Vec<&str> =
        v.index.backlinks("projects/rocket").iter().map(|n| n.id.as_str()).collect();
    assert!(backlinks.contains(&"a") && backlinks.contains(&"b"));
}

#[test]
fn one_revert_undoes_the_entire_rename() {
    let mut v = rename_vault();
    let (writer, version) = commit_rename(&mut v, "projects/launch", "projects/rocket");
    writer.revert(&mut v, &version, "later").unwrap();
    assert!(v.files.contains_key("projects/launch"));
    assert!(!v.files.contains_key("projects/rocket"));
    assert!(v.files.get("a").unwrap().contains("[[projects/launch|the launch]]"));
    assert!(v.files.get("b").unwrap().contains("[[Launch#Timeline]]"));
}

#[test]
fn rename_guards_conflict_missing_and_noop() {
    let v = rename_vault();
    assert_eq!(
        rename_note_ops(&v.index, "projects/launch", "ideas").unwrap_err().code,
        "CONFLICT"
    );
    assert_eq!(rename_note_ops(&v.index, "nope", "x").unwrap_err().code, "NOTE_NOT_FOUND");
    assert_eq!(rename_note_ops(&v.index, "ideas", "ideas").unwrap_err().code, "INVALID_INPUT");
}

#[test]
fn a_rebuilt_link_keeps_heading_block_and_alias() {
    let links = parse_note("[[a#H|x]] [[a#^b]] [[a]]", "n.md").links;
    let rebuilt: Vec<String> = links.iter().map(|l| rebuild_link(l, "new")).collect();
    assert_eq!(rebuilt, vec!["[[new#H|x]]", "[[new#^b]]", "[[new]]"]);
}

#[test]
fn an_index_is_built_from_the_files_that_were_found() {
    let files = vec![
        ("b\\two.md".to_string(), "# Two\n\n[[one]]\n".to_string()),
        ("one.md".to_string(), "# Old\n".to_string()),
        ("one.md".to_string(), "# One\n".to_string()),
    ];
    let index = VaultIndex::build(&files);
    let ids: Vec<&str> = index.all().iter().map(|n| n.id.as_str()).collect();
    assert_eq!(ids, ["b/two", "one"]);
    assert_eq!(index.get("one").unwrap().title, "One");
    assert_eq!(index.outgoing("b/two")[0].id, "one");
}

#[test]
fn a_rename_keeps_the_parts_of_every_link() {
    let text = "[[old]] x [[old#Top|See]] [[other]] [[ old #^b1 ]] [[Old]] end\n";
    let files = vec![
        ("old.md".to_string(), "body\n".to_string()),
        ("other.md".to_string(), "more\n".to_string()),
        ("a.md".to_string(), text.to_string()),
    ];
    let index = VaultIndex::build(&files);
    let ops = rename_note_ops(&index, "old", " new/name ").unwrap().ops;
    assert_eq!(ops.len(), 3);
    match &ops[1] {
        ChangeOp::Update { note_id, content: Some(c), .. } => {
            assert_eq!(note_id, "a");
            assert_eq!(
                c,
                "[[new/name]] x [[new/name#Top|See]] [[other]] [[new/name#^b1]] [[new/name]] end\n"
            );
            let links = parse_note(c, "a.md").links;
            let targets: Vec<&str> = links.iter().map(|l| l.target.as_str()).collect();
            assert_eq!(targets, ["new/name", "new/name", "other", "new/name", "new/name"]);
            assert_eq!(links[1].heading.as_deref(), Some("Top"));
            assert_eq!(links[1].alias.as_deref(), Some("See"));
            assert_eq!(links[3].block.as_deref(), Some("b1"));
        }
        _ => panic!("an update was expected"),
    }
}

#[test]
fn search_leaves_out_nothing_that_scores() {
    let files = vec![
        ("a.md".to_string(), "alpha\n".to_string()),
        ("b.md".to_string(), "beta\n".to_string()),
        ("c.md".to_string(), "alpha beta alpha\n".to_string()),
    ];
    let index = VaultIndex::build(&files);
    let args = SearchArgs { token_budget: None, top_k: None };
    let hits = search_notes(&index, "alpha", &args);
    let ids: Vec<&str> = hits.iter().map(|h| h.note_id.as_str()).collect();
    assert_eq!(ids, ["c", "a"]);
}

#[test]
fn a_shown_note_keeps_its_ceiling() {
    let files = vec![("a.md".to_string(), "one two three four\n".to_string())];
    let index = VaultIndex::build(&files);
    let cut = get_note(&index, "a", NoteFormat::Full, Some(3)).unwrap();
    assert!(cut.truncated);
    assert_eq!(cut.content, "one two");
    assert_eq!(cut.token_count, 2);
    let whole = get_note(&index, "a", NoteFormat::Full, Some(5)).unwrap();
    assert!(!whole.truncated);
    assert_eq!(whole.token_count, 5);
}

#[test]
fn a_clock_shows_a_moment_in_local_time() {
    let at = Instant { secs: 86_400 * 59 + 82_800, nanos: 0, offset: 7_200 };
    let c = clock_of(at);
    assert_eq!(c.date, "1970-03-02");
    assert_eq!(c.time, "01:00");
    assert_eq!(c.datetime, "1970-03-02T01:00:00+02:00");
    let now = clock_now();
    assert_eq!(now.time.chars().nth(2), Some(':'));
    assert!(now.date.len() >= 10 && now.datetime.starts_with(&now.date));
}

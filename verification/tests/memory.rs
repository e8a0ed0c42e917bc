//! Memories: ids, scores, conflicts, recall, and how they are stored.
use std::collections::{BTreeMap, HashMap};
use tacitus::ids::stable_id;
use tacitus::lexical::{lexical_score, tokenize};
use tacitus::memory::conflict::detect_conflicts;
use tacitus::memory::rank::rank;
use tacitus::memory::recall::{recall, RecallArgs};
use tacitus::memory::remember::{remember, remember_at, ProvenanceInput, RememberInput};
use tacitus::memory::store::{
    frame_memory, load_order, memory_text, split_memory, Frontmatter, MemoryStore,
};
use tacitus::memory::types::{Author, Memory, MemoryType, Provenance};
use tacitus::tokens::estimate;

fn mem(id: &str, content: &str) -> Memory {
    Memory {
        id: id.into(),
        memory_type: MemoryType::User,
        content: content.into(),
        tags: vec![],
        key: None,
        source: Provenance {
            origin: "test".into(),
            author: Author::Agent,
            timestamp: "2026-07-23T10:00:00Z".into(),
        },
        ttl: None,
    }
}

fn keyed(id: &str, key: &str, content: &str) -> Memory {
    let mut memory = mem(id, content);
    memory.key = Some(key.into());
    memory
}

fn typed(id: &str, memory_type: MemoryType, content: &str) -> Memory {
    let mut memory = mem(id, content);
    memory.memory_type = memory_type;
    memory
}

fn args(query: &str, budget: Option<usize>) -> RecallArgs {
    RecallArgs { query: query.into(), memory_type: None, token_budget: budget }
}

fn valid_source() -> ProvenanceInput {
    ProvenanceInput {
        origin: "chat".into(),
        author: "agent".into(),
        timestamp: Some("2026-07-23T10:00:00.000Z".into()),
    }
}

fn base_input() -> RememberInput {
    RememberInput {
        content: "hello".into(),
        memory_type: "user".into(),
        tags: vec![],
        key: None,
        source: Some(valid_source()),
        ttl: None,
    }
}

#[test]
fn is_deterministic_and_prefixed() {
    let a = stable_id("hello world", "mem");
    let b = stable_id("hello world", "mem");
    assert_eq!(a, b);
    assert!(a.starts_with("mem_"));
    assert_eq!(a.len(), 20); // "mem_" + 16 hex chars
}

#[test]
fn different_seed_different_id() {
    assert_ne!(stable_id("a", "mem"), stable_id("b", "mem"));
}

#[test]
fn ids_are_the_head_of_a_sha256() {
    // The digest of "abc" starts with ba7816bf 8f01cfea.
    assert_eq!(stable_id("abc", "mem"), "mem_ba7816bf8f01cfea");
}

#[test]
fn scores_by_term_frequency_case_insensitive() {
    assert_eq!(lexical_score("quick fox", "Quick fox quick fox"), 4);
    assert_eq!(lexical_score("quantum", "unrelated text"), 0);
}

#[test]
fn words_are_runs_of_letters_and_digits_in_lower_case() {
    assert_eq!(tokenize("Hello, WORLD-2 ÄÖ!"), vec!["hello", "world", "2"]);
    assert!(tokenize(" ,;- ").is_empty());
}

#[test]
fn estimates_ceil_of_len_over_four() {
    assert_eq!(estimate(""), 0);
    assert_eq!(estimate("abcd"), 1);
    assert_eq!(estimate("abcde"), 2);
}

#[test]
fn flags_same_key_different_content() {
    let mems = vec![
        keyed("tz1", "user.timezone", "Europe/Bucharest"),
        keyed("tz2", "user.timezone", "America/New_York"),
    ];
    let conflicts = detect_conflicts(&mems);
    assert_eq!(conflicts.len(), 1);
    let mut ids = conflicts[0].memory_ids.clone();
    ids.sort();
    assert_eq!(ids, vec!["tz1", "tz2"]);
}

#[test]
fn does_not_flag_agreeing_memories() {
    let mems = vec![keyed("a", "k", "same"), keyed("b", "k", "same")];
    assert!(detect_conflicts(&mems).is_empty());
}

#[test]
fn ignores_memories_without_a_key() {
    let mems = vec![mem("a", "foo"), mem("b", "bar")];
    assert!(detect_conflicts(&mems).is_empty());
}

#[test]
fn higher_term_frequency_scores_higher() {
    let mems = vec![mem("m1", "the quick brown fox"), mem("m2", "quick fox quick fox")];
    let scores: HashMap<usize, u32> = rank("quick fox", &mems).into_iter().collect();
    assert!(scores[&1] > scores[&0]);
}

#[test]
fn results_are_sorted_descending() {
    let mems = vec![mem("a", "apple"), mem("b", "apple apple"), mem("c", "banana")];
    let scores: Vec<u32> = rank("apple", &mems).into_iter().map(|(_, s)| s).collect();
    let mut sorted = scores.clone();
    sorted.sort_by_key(|&s| std::cmp::Reverse(s));
    assert_eq!(scores, sorted);
}

#[test]
fn returns_only_relevant_ordered_descending() {
    let mems =
        vec![mem("a", "alpha beta gamma"), mem("b", "beta beta beta"), mem("c", "nothing here")];
    let res = recall(&mems, &args("beta", None));
    let ids: Vec<&str> = res.items.iter().map(|i| i.memory.id.as_str()).collect();
    assert_eq!(ids, vec!["b", "a"]);
    assert!(res.items.iter().all(|i| i.score > 0));
}

#[test]
fn never_exceeds_token_budget() {
    let mems = vec![mem("b", "beta beta beta"), mem("a", "alpha beta gamma delta")];
    let res = recall(&mems, &args("beta alpha", Some(5)));
    let total: usize = res.items.iter().map(|i| i.token_count).sum();
    assert!(total <= 5);
}

#[test]
fn fewer_items_under_a_tighter_budget() {
    let mems = vec![mem("b", "beta beta beta"), mem("a", "alpha beta gamma delta")];
    let big = recall(&mems, &args("beta alpha", Some(1000))).items.len();
    let small = recall(&mems, &args("beta alpha", Some(3))).items.len();
    assert!(small < big);
}

#[test]
fn filters_by_memory_type() {
    let mems = vec![
        typed("u", MemoryType::User, "preference alpha"),
        typed("p", MemoryType::Project, "preference alpha"),
    ];
    let res = recall(
        &mems,
        &RecallArgs {
            query: "preference".into(),
            memory_type: Some(MemoryType::Project),
            token_budget: None,
        },
    );
    let ids: Vec<&str> = res.items.iter().map(|i| i.memory.id.as_str()).collect();
    assert_eq!(ids, vec!["p"]);
}

#[test]
fn surfaces_conflicts_instead_of_choosing() {
    let mems = vec![
        keyed("tz1", "user.timezone", "timezone Europe Bucharest"),
        keyed("tz2", "user.timezone", "timezone America New_York"),
    ];
    let res = recall(&mems, &args("timezone", None));
    assert_eq!(res.conflicts.len(), 1);
}

#[test]
fn rejects_missing_provenance() {
    let mut input = base_input();
    input.source = None;
    assert_eq!(remember(input).unwrap_err().code, "MISSING_PROVENANCE");
}

#[test]
fn rejects_invalid_type() {
    let mut input = base_input();
    input.memory_type = "nonsense".into();
    assert_eq!(remember(input).unwrap_err().code, "INVALID_TYPE");
}

#[test]
fn assigns_stable_id_and_stamps_timestamp() {
    let mut input = base_input();
    input.source = Some(ProvenanceInput {
        origin: "chat".into(),
        author: "agent".into(),
        timestamp: None,
    });
    let memory = remember(input).unwrap();
    assert!(memory.id.starts_with("mem_"));
    assert_eq!(memory.id.len(), 20);
    assert!(!memory.source.timestamp.is_empty());
    assert!(chrono::DateTime::parse_from_rfc3339(&memory.source.timestamp).is_ok());
}

#[test]
fn is_idempotent_for_identical_content_and_source() {
    assert_eq!(remember(base_input()).unwrap().id, remember(base_input()).unwrap().id);
}

#[test]
fn different_content_yields_different_id() {
    let mut other = base_input();
    other.content = "different".into();
    assert_ne!(remember(base_input()).unwrap().id, remember(other).unwrap().id);
}

#[test]
fn id_seed_matches_the_typescript_engine() {
    // An absent key leaves two spaces in a row.
    let memory = remember(base_input()).unwrap();
    assert_eq!(memory.id, stable_id("user  hello chat agent", "mem"));
}

#[test]
fn a_memory_keeps_its_timestamp_and_takes_the_clock_only_without_one() {
    let memory = remember_at(base_input(), "2030-01-01T00:00:00.000Z").unwrap();
    assert_eq!(memory.source.timestamp, "2026-07-23T10:00:00.000Z");
    let mut input = base_input();
    input.source = Some(ProvenanceInput {
        origin: "chat".into(),
        author: "human".into(),
        timestamp: None,
    });
    let memory = remember_at(input, "2030-01-01T00:00:00.000Z").unwrap();
    assert_eq!(memory.source.timestamp, "2030-01-01T00:00:00.000Z");
    assert_eq!(memory.source.author, Author::Human);
}

/// The files of a memory directory by name.
type Dir = BTreeMap<String, String>;

fn save(dir: &mut Dir, memory: &Memory) {
    dir.insert(format!("{}.md", memory.id), memory_text(memory));
}

fn read_head(head: &str) -> Option<Frontmatter> {
    let v: serde_yaml::Value = serde_yaml::from_str(head).ok()?;
    let text = |v: &serde_yaml::Value, key: &str| v.get(key)?.as_str().map(str::to_owned);
    let source = v.get("source")?;
    let tags = v.get("tags")?.as_sequence()?;
    Some(Frontmatter {
        id: text(&v, "id")?,
        memory_type: MemoryType::parse(&text(&v, "type")?)?,
        tags: tags.iter().map(|t| t.as_str().unwrap().to_owned()).collect(),
        key: text(&v, "key"),
        source: Provenance {
            origin: text(source, "origin")?,
            author: Author::parse(&text(source, "author")?)?,
            timestamp: text(source, "timestamp")?,
        },
        ttl: v.get("ttl").and_then(|n| n.as_u64()),
    })
}

fn load(dir: &Dir) -> Vec<Memory> {
    load_order(&dir.keys().cloned().collect())
        .iter()
        .filter_map(|name| {
            let (head, content) = split_memory(&dir[name])?;
            Some(read_head(&head)?.into_memory(content))
        })
        .collect()
}

#[test]
fn empty_vault_loads_nothing() {
    assert!(load(&Dir::new()).is_empty());
}

#[test]
fn round_trips_a_memory() {
    let mut dir = Dir::new();
    let mut memory = keyed("mem_round", "k1", "persisted content\nwith two lines");
    memory.tags = vec!["x".into(), "y".into()];
    save(&mut dir, &memory);
    assert_eq!(load(&dir), vec![memory]);
}

#[test]
fn is_idempotent() {
    let mut dir = Dir::new();
    let memory = mem("mem_dup", "once");
    save(&mut dir, &memory);
    save(&mut dir, &memory);
    assert_eq!(load(&dir).len(), 1);
}

#[test]
fn odd_texts_in_a_memory_round_trip() {
    for odd in ["", " x ", "- a", "null", "1e3", "a: b", "'q'", "two\nlines\n", "#tag", "é\t"] {
        let mut dir = Dir::new();
        let mut memory = keyed("mem_odd", odd, odd);
        memory.tags = vec![odd.to_string()];
        memory.source.origin = odd.to_string();
        memory.ttl = Some(u64::MAX);
        save(&mut dir, &memory);
        assert_eq!(load(&dir), vec![memory], "{odd:?}");
    }
}

#[test]
fn memory_files_load_in_name_order_and_only_markdown() {
    let names = vec!["b.md".to_string(), "x.txt".to_string(), "a.md".to_string(), ".md".to_string()];
    assert_eq!(load_order(&names), vec!["a.md", "b.md"]);
    let store = MemoryStore::new("/v");
    assert_eq!(store.file_of("mem_1"), "/v/.tacitus/memory/mem_1.md");
    assert_eq!(store.temp_of("mem_1"), "/v/.tacitus/memory/.mem_1.tmp");
}

#[test]
fn a_memory_file_reads_back_as_it_was_framed() {
    let content = "persisted content\nwith two lines";
    let raw = frame_memory("id: mem_round\ntype: user\n", content);
    assert_eq!(raw, "---\nid: mem_round\ntype: user\n---\npersisted content\nwith two lines\n");
    let (fm, body) = split_memory(&raw).unwrap();
    assert_eq!(fm, "id: mem_round\ntype: user");
    assert_eq!(body, content);
}

#[test]
fn a_memory_file_holds_the_frontmatter_as_yaml() {
    let mut memory = keyed("mem_1", "k1", "body");
    memory.tags = vec!["a".to_string(), "true".to_string()];
    memory.ttl = Some(60);
    assert_eq!(
        memory_text(&memory),
        "---\nid: mem_1\ntype: user\ntags:\n- a\n- 'true'\nkey: k1\nsource:\n  origin: test\n  \
         author: agent\n  timestamp: 2026-07-23T10:00:00Z\nttl: 60\n---\nbody\n"
    );
    let bare = mem("mem_2", "");
    assert_eq!(
        memory_text(&bare),
        "---\nid: mem_2\ntype: user\ntags: []\nsource:\n  origin: test\n  author: agent\n  \
         timestamp: 2026-07-23T10:00:00Z\n---\n\n"
    );
}

#[test]
fn dashes_in_a_memory_do_not_end_its_frontmatter() {
    for odd in ["---", "\n---\n", "a\n---\nb", "--- a", "\r---", "\n\n--- \n", "\u{85}---", " \n---"] {
        let mut memory = keyed(odd, odd, "---\nid: other\n---\n");
        memory.tags = vec![odd.to_string()];
        memory.source.origin = odd.to_string();
        memory.source.timestamp = odd.to_string();
        let raw = memory_text(&memory);
        let (head, content) = split_memory(&raw).unwrap();
        assert_eq!(content, memory.content, "{odd:?}");
        assert_eq!(raw, frame_memory(&head, &content), "{odd:?}");
    }
}

#[test]
fn words_read_again_are_the_same_words() {
    let words = tokenize("Quick, brown FOX-2");
    assert_eq!(words, vec!["quick", "brown", "fox", "2"]);
    assert_eq!(tokenize(&words.join(" ")), words);
    let mut both = tokenize("one two");
    both.extend(tokenize("Three"));
    assert_eq!(tokenize("one two Three"), both);
    assert_eq!(tokenize("QUICK brown"), tokenize("quick BROWN"));
}

#[test]
fn skips_corrupt_files() {
    let mut dir = Dir::new();
    save(&mut dir, &mem("mem_good", "valid"));
    dir.insert("corrupt.md".to_string(), "not frontmatter".to_string());
    let loaded = load(&dir);
    assert_eq!(loaded.iter().map(|m| m.id.as_str()).collect::<Vec<_>>(), vec!["mem_good"]);
    assert!(split_memory("not frontmatter").is_none());
    assert!(split_memory("---\nnever closed\n").is_none());
}

#[test]
fn frontmatter_and_content_make_up_a_memory() {
    let memory = keyed("mem_round", "k1", "persisted content\nwith two lines");
    let fm = Frontmatter::of(&memory);
    assert_eq!(fm.into_memory(memory.content.clone()), memory);
}

#[test]
fn type_and_author_names_read_back() {
    for t in [MemoryType::User, MemoryType::Feedback, MemoryType::Project, MemoryType::Reference] {
        assert_eq!(MemoryType::parse(t.as_str()), Some(t));
    }
    assert_eq!(Author::parse(Author::Human.as_str()), Some(Author::Human));
    assert_eq!(Author::parse("robot"), None);
    assert_eq!(MemoryType::parse("User"), None);
}

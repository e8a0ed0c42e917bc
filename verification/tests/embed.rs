//! Embeddings and the links that they suggest.
use tacitus::strmap::StrMap;
use tacitus::vault::embed::{
    cache_misses, cached, features, fill_cache, fnv1a, key_of, parse_embed_response, read_reply, reply_fits,
    EmbedReply, HashingEmbedder, OllamaEmbedder,
};
use tacitus::vault::index::VaultIndex;
use tacitus::vault::json::{parse_json, Json, JsonNumber};
use tacitus::vault::suggest::{
    suggest_candidates, suggest_links, LinkSuggestion, Rating, SuggestArgs,
};

fn embed(e: &HashingEmbedder, text: &str) -> Vec<f32> {
    let mut v: Vec<f32> = e.counts(text).iter().map(|n| *n as f32).collect();
    let n = norm(&v);
    if n > 0.0 {
        for x in &mut v {
            *x /= n;
        }
    }
    v
}

fn norm(v: &[f32]) -> f32 {
    v.iter().map(|x| x * x).sum::<f32>().sqrt()
}

fn cosine(a: &[f32], b: &[f32]) -> f32 {
    a.iter().zip(b).map(|(x, y)| x * y).sum()
}

fn vault(notes: &[(&str, &str)]) -> VaultIndex {
    let mut index = VaultIndex::new();
    for (id, raw) in notes {
        index.upsert_raw(&format!("{id}.md"), raw);
    }
    index
}

fn rate(index: &VaultIndex, note_id: &str) -> Vec<Option<Rating>> {
    let e = HashingEmbedder::new();
    let found = match suggest_candidates(index, note_id) {
        Ok(found) => found,
        Err(_) => return vec![],
    };
    let source = embed(&e, &found.source_text);
    found
        .list
        .iter()
        .map(|c| {
            let sem = cosine(&source, &embed(&e, &c.text)).max(0.0);
            let score = if c.mentioned { 0.45f32 } else { 0.0 }
                + 0.30 * sem
                + 0.15 * (c.shared_tags.min(3) as f32 / 3.0)
                + if c.backlink { 0.10 } else { 0.0 };
            if score < 0.15 {
                return None;
            }
            Some(Rating {
                rank: score.to_bits(),
                score: JsonNumber {
                    whole: false,
                    text: score.to_string(),
                    bits: f64::from(score).to_bits(),
                },
                semantic: sem >= 0.15,
            })
        })
        .collect()
}

fn suggest(index: &VaultIndex, id: &str, args: &SuggestArgs) -> Vec<LinkSuggestion> {
    suggest_links(index, id, &rate(index, id), args).unwrap()
}

fn ids(v: &[LinkSuggestion]) -> Vec<String> {
    v.iter().map(|s| s.note_id.clone()).collect()
}

#[test]
fn produces_unit_normalized_vectors_of_fixed_dimension() {
    let e = HashingEmbedder::with_dim(256);
    let v = embed(&e, "hello world");
    assert_eq!(v.len(), 256);
    assert!((norm(&v) - 1.0).abs() < 1e-4);
}

#[test]
fn is_deterministic() {
    let e = HashingEmbedder::with_dim(256);
    assert_eq!(embed(&e, "same text here"), embed(&e, "same text here"));
}

#[test]
fn cosine_is_one_for_identical_and_low_for_unrelated() {
    let e = HashingEmbedder::with_dim(256);
    let a = embed(&e, "database migration");
    assert!((cosine(&a, &embed(&e, "database migration")) - 1.0).abs() < 1e-4);
    assert!(cosine(&a, &embed(&e, "coffee brewing")) < 0.2);
}

#[test]
fn places_morphological_variants_closer_than_unrelated() {
    let e = HashingEmbedder::with_dim(256);
    let q = embed(&e, "migration");
    let variant = cosine(&q, &embed(&e, "migrate the schema"));
    let unrelated = cosine(&q, &embed(&e, "coffee brewing methods"));
    assert!(variant > unrelated);
}

#[test]
fn handles_empty_text_without_nan() {
    let e = HashingEmbedder::with_dim(256);
    let v = embed(&e, "");
    assert!(v.iter().all(|x| x.is_finite()));
    assert_eq!(cosine(&v, &embed(&e, "anything")), 0.0);
}

#[test]
fn features_are_words_and_padded_trigrams() {
    assert_eq!(features("Hi, a!"), vec!["w:hi", "t:#hi", "t:hi#", "w:a", "t:#a#"]);
    assert_eq!(fnv1a(""), 0x811c_9dc5);
    assert_eq!(fnv1a("a"), 0xe40c_292c);
    assert_eq!(HashingEmbedder::new().counts("hi").iter().sum::<u64>(), 3);
    assert_eq!(HashingEmbedder::new().dim, 2048);
}

#[test]
fn only_calls_the_inner_embedder_for_cache_misses() {
    let mut store: StrMap<String> = StrMap::new();
    let mut embedded = 0;
    let mut embed_batch = |store: &mut StrMap<String>, wanted: &[&str]| {
        let wanted: Vec<String> = wanted.iter().map(|t| t.to_string()).collect();
        let missing = cache_misses(&wanted, store);
        embedded += missing.len();
        let vectors = missing.iter().map(|t| format!("vector of {t}")).collect();
        fill_cache(store, &missing, vectors);
        let out: Vec<String> = cached(store, &wanted).iter().map(|v| (*v.unwrap()).clone()).collect();
        (out, embedded)
    };
    assert_eq!(
        embed_batch(&mut store, &["a", "b"]),
        (vec!["vector of a".to_string(), "vector of b".to_string()], 2)
    );
    let (out, calls) = embed_batch(&mut store, &["a", "b", "c"]);
    assert_eq!(out, vec!["vector of a", "vector of b", "vector of c"]);
    assert_eq!(calls, 3, "only the new text was embedded");
    let (out, calls) = embed_batch(&mut store, &["d", "c", "d"]);
    assert_eq!(out, vec!["vector of d", "vector of c", "vector of d"]);
    assert_eq!(calls, 4, "a text that comes twice is embedded once");
    assert!(store.contains_key(&key_of("a")));
}

#[test]
fn a_text_without_a_vector_stays_out_of_the_cache() {
    let mut store: StrMap<u32> = StrMap::new();
    let ab = vec!["a".to_string(), "b".to_string()];
    fill_cache(&mut store, &ab, vec![7]);
    assert_eq!(cached(&store, &ab), vec![Some(&7), None]);
    assert_eq!(cache_misses(&ab, &store), vec!["b"]);
}

#[test]
fn parse_embed_response_extracts_rows() {
    let v = parse_json(r#"{ "embeddings": [[0.1, 0.2], [0.3, 0.4]] }"#).unwrap();
    let rows = parse_embed_response(&v).unwrap();
    assert_eq!(rows.len(), 2);
    assert_eq!(rows[0].len(), 2);
    assert!((f64::from_bits(rows[1][1]) - 0.4).abs() < 1e-6);
}

#[test]
fn parse_embed_response_rejects_malformed_payloads() {
    for bad in ["{}", r#"{ "embeddings": "nope" }"#, r#"{ "embeddings": [["x"]] }"#] {
        assert!(parse_embed_response(&parse_json(bad).unwrap()).is_none());
    }
}

#[test]
fn probe_fails_cleanly_when_no_daemon() {
    // A port nothing listens on: the error is a message, not a panic.
    let reply = EmbedReply::Unreachable("connection refused".to_string());
    let err = OllamaEmbedder::probe("http://127.0.0.1:9", "any", &reply).unwrap_err();
    assert!(err.contains("unreachable"));
}

#[test]
fn probe_takes_the_dimension_from_the_reply() {
    let body = parse_json(r#"{ "embeddings": [[0.5, 0.5, 0.5]] }"#).unwrap();
    let e = OllamaEmbedder::probe("http://x/", "m", &EmbedReply::Body(body)).unwrap();
    assert_eq!(e.dim, 3);
    assert_eq!(e.model, "m");
    let odd = EmbedReply::Body(Json::Null);
    assert!(OllamaEmbedder::probe("http://x", "m", &odd).is_err());
    assert!(read_reply("http://x", &EmbedReply::Malformed("eof".to_string())).is_err());
    let one = EmbedReply::Body(parse_json(r#"{ "embeddings": [[1.0]] }"#).unwrap());
    assert!(reply_fits("http://x", &one, 1));
    assert!(!reply_fits("http://x", &one, 2));
}

#[test]
fn title_mention_outranks_pure_semantic() {
    let index = vault(&[
        (
            "daily",
            "Debugged the Kubernetes cluster today; the autoscaler kept evicting pods during deploys.",
        ),
        (
            "kubernetes",
            "# Kubernetes\n\nCluster operations: autoscaling, pod eviction, deploy runbooks.",
        ),
        (
            "containers",
            "# Containers\n\nCluster autoscaling and pod eviction during deploys, runbooks.",
        ),
    ]);
    let res = suggest(&index, "daily", &SuggestArgs::default());
    assert_eq!(res.first().map(|s| s.note_id.as_str()), Some("kubernetes"));
    assert!(res[0].reasons.contains(&"title_mentioned".to_string()));
}

#[test]
fn excludes_self_and_already_linked_notes() {
    let index = vault(&[
        (
            "daily",
            "Worked on [[kubernetes]] today. Also drafted the Docker migration checklist for the cluster.",
        ),
        ("kubernetes", "# Kubernetes\n\nCluster ops."),
        ("docker", "# Docker\n\nContainer images and the migration checklist."),
    ]);
    let got = ids(&suggest(&index, "daily", &SuggestArgs::default()));
    assert!(!got.contains(&"daily".to_string()));
    assert!(!got.contains(&"kubernetes".to_string()));
    assert!(got.contains(&"docker".to_string()));
}

#[test]
fn backlinking_note_remains_a_candidate_with_backlink_reason() {
    let index = vault(&[
        ("project", "Launch plan for the search feature: indexing, ranking, and rollout."),
        (
            "retro",
            "Retro notes on the launch plan: indexing and ranking learnings. See [[project]].",
        ),
    ]);
    let res = suggest(&index, "project", &SuggestArgs::default());
    let retro = res.iter().find(|s| s.note_id == "retro").unwrap();
    assert!(retro.reasons.contains(&"backlink".to_string()));
}

#[test]
fn returns_note_not_found_for_missing_source() {
    let index = vault(&[("a", "Something.")]);
    let err = suggest_links(&index, "nope", &vec![], &SuggestArgs::default()).unwrap_err();
    assert_eq!(err.code, "NOTE_NOT_FOUND");
}

#[test]
fn respects_token_budget_hard_cap() {
    let index = vault(&[
        ("hub", "Alpha ideas, Beta drafts, Gamma plans."),
        ("alpha", "# Alpha\n\nIdeas for the alpha track."),
        ("beta", "# Beta\n\nDrafts for the beta track."),
        ("gamma", "# Gamma\n\nPlans for the gamma track."),
    ]);
    let res = suggest(&index, "hub", &SuggestArgs { top_k: None, token_budget: Some(15) });
    assert!(!res.is_empty());
    assert!(res.len() < 3, "budget should cut some suggestions");
    assert!(res.iter().map(|s| s.token_count).sum::<usize>() <= 15);
}

#[test]
fn min_score_and_top_k_bound_the_output() {
    let index = vault(&[
        ("daily", "Reviewed the Alpha spec and the Beta rollout."),
        ("alpha", "# Alpha\n\nSpec details."),
        ("beta", "# Beta\n\nRollout details."),
        ("gardening", "# Gardening\n\nPrune roses in spring; water tomatoes at dawn."),
    ]);
    let defaults = suggest(&index, "daily", &SuggestArgs::default());
    assert!(!ids(&defaults).contains(&"gardening".to_string()));
    let one = suggest(&index, "daily", &SuggestArgs { top_k: Some(1), token_budget: None });
    assert_eq!(one.len(), 1);
}

#[test]
fn shared_tags_surface_as_a_reason() {
    let index = vault(&[
        (
            "a",
            "---\ntitle: Sprint planning\ntags: [project, q3]\n---\n\nPlanning the sprint backlog and estimates.",
        ),
        (
            "b",
            "---\ntitle: Sprint retro\ntags: [project, q3]\n---\n\nRetro on the sprint backlog and estimates.",
        ),
    ]);
    let res = suggest(&index, "a", &SuggestArgs::default());
    let b = res.iter().find(|s| s.note_id == "b").unwrap();
    assert!(b.reasons.contains(&"shared_tags".to_string()));
}

#[test]
fn mention_snippet_shows_source_context() {
    let index = vault(&[
        (
            "journal",
            "Morning standup, then code review for the sync branch. The Roadmap review went well after lunch, we cut two items.",
        ),
        ("roadmap", "# Roadmap\n\nQuarters and milestones."),
    ]);
    let res = suggest(&index, "journal", &SuggestArgs::default());
    let road = res.iter().find(|s| s.note_id == "roadmap").unwrap();
    assert!(road.reasons.contains(&"title_mentioned".to_string()));
    assert!(road.snippet.contains("went well"));
    assert!(!road.snippet.contains("milestones"));
}

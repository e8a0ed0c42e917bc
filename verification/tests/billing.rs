//! Payments: signatures, events, entitlements, checkout and webhooks.
use hmac::{Hmac, Mac};
use sha2::Sha256;
use tacitus::billing::checkout::{
    admits_webhook, applied_status, checkout_answer, concerns_subscription, names_vault,
    plan_checkout, session_request, session_url, webhook, Config, SessionReply, WebhookStep,
};
use tacitus::billing::entitlements::{apply_event, EntFile, EntRead, EntStore, Entitlement};
use tacitus::billing::stripe::{
    action_for, hex_decode, parse_sig_header, valid_vault_id, verify_signature, Action, EventData,
    StripeEvent, Subscription,
};
use tacitus::strmap::StrMap;
use tacitus::vault::json::{parse_json, render_json, Json};

const GIB: u64 = 1024 * 1024 * 1024;

const WEBHOOK_SECRET: &str = "whsec_testsecret";

fn sign_header(secret: &str, t: i64, payload: &[u8]) -> String {
    let mut mac = Hmac::<Sha256>::new_from_slice(secret.as_bytes()).unwrap();
    mac.update(t.to_string().as_bytes());
    mac.update(b".");
    mac.update(payload);
    let sig = mac.finalize().into_bytes();
    let hex: String = sig.iter().map(|byte| format!("{byte:02x}")).collect();
    format!("t={t},v1={hex}")
}

fn event(kind: &str, status: &str, vault_id: Option<&str>, created: i64) -> StripeEvent {
    let mut metadata = StrMap::new();
    if let Some(v) = vault_id {
        metadata.insert("vault_id".to_string(), v.to_string());
    }
    StripeEvent {
        id: format!("evt_{created}"),
        kind: kind.to_string(),
        created,
        data: EventData {
            object: Subscription {
                id: "sub_1".to_string(),
                customer: "cus_1".to_string(),
                status: status.to_string(),
                metadata,
            },
        },
    }
}

fn sub_event(kind: &str, status: &str, vault_id: &str, created: i64) -> StripeEvent {
    event(kind, status, Some(vault_id), created)
}

fn test_config() -> Config {
    Config {
        bind: String::new(),
        entitlements_path: "/tmp/entitlements.json".to_string(),
        pro_quota: 1024,
        success_url: "https://tacitus.md/thanks".to_string(),
        cancel_url: "https://tacitus.md/cancel".to_string(),
        stripe_url: "http://127.0.0.1:9".to_string(),
        stripe_secret_key: "sk_test_dummy".to_string(),
        stripe_webhook_secret: WEBHOOK_SECRET.to_string(),
        price_monthly: "price_month_1".to_string(),
        price_yearly: "price_year_1".to_string(),
    }
}

#[test]
fn apply_event_upserts_pro_and_removes_on_delete() {
    let vid = "a1".repeat(16);
    let mut file = EntFile::fresh();

    let ev = sub_event("customer.subscription.created", "active", &vid, 100);
    assert!(apply_event(&mut file, &ev, GIB, 999));
    let ent = file.vaults.get(&vid).unwrap();
    assert_eq!(ent.quota_bytes, GIB);
    assert_eq!(ent.tier.as_deref(), Some("pro"));
    assert_eq!(ent.stripe_subscription.as_deref(), Some("sub_1"));
    assert_eq!(ent.status.as_deref(), Some("active"));
    assert_eq!(ent.last_event_ts, Some(100));
    assert_eq!(ent.updated_at, Some(999));

    let ev = sub_event("customer.subscription.deleted", "canceled", &vid, 200);
    assert!(apply_event(&mut file, &ev, GIB, 999));
    assert!(!file.vaults.contains_key(&vid));
    assert_eq!(file.removed.get(&vid), Some(&200));
}

#[test]
fn apply_event_ignores_out_of_order_deliveries() {
    let vid = "b2".repeat(16);
    let mut file = EntFile::fresh();

    // active(200), then a straggling canceled(100): still entitled.
    assert!(apply_event(
        &mut file,
        &sub_event("customer.subscription.updated", "active", &vid, 200),
        GIB,
        0
    ));
    assert!(!apply_event(
        &mut file,
        &sub_event("customer.subscription.updated", "canceled", &vid, 100),
        GIB,
        0
    ));
    assert!(file.vaults.contains_key(&vid));

    // deleted(300), then a REPLAYED active(250): not resurrected.
    assert!(apply_event(
        &mut file,
        &sub_event("customer.subscription.deleted", "canceled", &vid, 300),
        GIB,
        0
    ));
    assert!(!apply_event(
        &mut file,
        &sub_event("customer.subscription.updated", "active", &vid, 250),
        GIB,
        0
    ));
    assert!(!file.vaults.contains_key(&vid), "tombstone blocks resurrection");

    // A genuinely NEW subscription (400) re-entitles and prunes the tombstone.
    assert!(apply_event(
        &mut file,
        &sub_event("customer.subscription.created", "active", &vid, 400),
        GIB,
        0
    ));
    assert!(file.vaults.contains_key(&vid));
    assert!(!file.removed.contains_key(&vid), "winning upsert prunes its tombstone");
}

#[test]
fn apply_event_preserves_foreign_fields_and_vaults() {
    let comped = "c3".repeat(16);
    let paying = "d4".repeat(16);
    let mut file = EntFile::fresh();
    file.extra.push(("note".to_string(), Json::Text("hand-managed".to_string())));
    file.vaults.insert(
        comped.clone(),
        Entitlement {
            quota_bytes: 42,
            tier: None,
            stripe_customer: None,
            stripe_subscription: None,
            status: None,
            updated_at: None,
            last_event_ts: None,
            extra: vec![("why".to_string(), Json::Text("friend".to_string()))],
        },
    );
    assert!(apply_event(
        &mut file,
        &sub_event("customer.subscription.created", "active", &paying, 100),
        GIB,
        0
    ));
    assert_eq!(file.extra[0].0, "note");
    assert_eq!(render_json(&file.extra[0].1), "\"hand-managed\"");
    let comp = file.vaults.get(&comped).unwrap();
    assert_eq!(comp.extra[0].0, "why");
    assert_eq!(render_json(&comp.extra[0].1), "\"friend\"");
    assert_eq!(comp.quota_bytes, 42, "comp untouched");
    assert_eq!(file.vaults.get(&paying).unwrap().quota_bytes, GIB);
}

#[test]
fn removing_what_was_never_there_leaves_a_tombstone_that_must_be_stored() {
    let vid = "9f".repeat(16);
    let mut file = EntFile::fresh();
    assert!(apply_event(
        &mut file,
        &sub_event("customer.subscription.deleted", "canceled", &vid, 50),
        GIB,
        0
    ));
    assert_eq!(file.removed.get(&vid), Some(&50));
    assert!(!apply_event(
        &mut file,
        &sub_event("customer.subscription.updated", "active", &vid, 49),
        GIB,
        0
    ));
}

#[test]
fn store_creates_missing_file_atomically_and_relay_shape_parses_it() {
    let vid = "e5".repeat(16);
    let ev = sub_event("customer.subscription.created", "active", &vid, 100);
    let stored = EntStore::apply(EntRead::Missing, &ev, GIB, 50).unwrap().unwrap();
    assert_eq!(stored.version, 1);
    assert_eq!(stored.vaults.get(&vid).unwrap().quota_bytes, GIB);
}

#[test]
fn store_refuses_unknown_version_and_corrupt_file_untouched() {
    let ev = sub_event("customer.subscription.created", "active", &"f6".repeat(16), 100);
    let mut newer = EntFile::fresh();
    newer.version = 2;
    assert!(EntStore::apply(EntRead::File(newer), &ev, GIB, 0).is_err());
    let corrupt = EntRead::Unreadable("expected value at line 1".to_string());
    assert!(EntStore::apply(corrupt, &ev, GIB, 0).is_err());
    assert_eq!(EntStore::new("/tmp/x.json").path, "/tmp/x.json");
}

#[test]
fn store_writes_nothing_for_an_event_that_changes_nothing() {
    let vid = "e5".repeat(16);
    let ev = sub_event("customer.subscription.created", "active", &vid, 100);
    let stored = EntStore::apply(EntRead::Missing, &ev, GIB, 50).unwrap().unwrap();
    assert!(EntStore::apply(EntRead::File(stored), &ev, GIB, 60).unwrap().is_none());
}

#[test]
fn verify_signature_accepts_valid_and_rejects_tampered() {
    let payload = br#"{"id":"evt_1","type":"customer.subscription.updated"}"#.to_vec();
    let header = sign_header("whsec_test", 1000, &payload);
    assert!(verify_signature("whsec_test", &header, &payload, 1000));

    // A flipped payload byte fails…
    let mut tampered = payload.clone();
    tampered[10] ^= 1;
    assert!(!verify_signature("whsec_test", &header, &tampered, 1000));
    // …so does a flipped signature nibble…
    let bad_header = header.replace("v1=", "v1=0");
    assert!(!verify_signature("whsec_test", &bad_header, &payload, 1000));
    // …and the wrong secret.
    assert!(!verify_signature("whsec_other", &header, &payload, 1000));
}

#[test]
fn verify_signature_rejects_outside_tolerance() {
    let payload = b"body".to_vec();
    let header = sign_header("whsec_test", 1000, &payload);
    assert!(verify_signature("whsec_test", &header, &payload, 1000 + 299));
    assert!(verify_signature("whsec_test", &header, &payload, 1000 - 299));
    assert!(!verify_signature("whsec_test", &header, &payload, 1000 + 301));
    assert!(!verify_signature("whsec_test", &header, &payload, 1000 - 301));
}

#[test]
fn a_signature_from_the_far_past_is_rejected_without_overflow() {
    let payload = b"body".to_vec();
    let header = sign_header("whsec_test", i64::MIN, &payload);
    assert!(!verify_signature("whsec_test", &header, &payload, i64::MAX));
}

#[test]
fn verify_signature_accepts_rotated_v1_and_ignores_v0() {
    let payload = b"rotating".to_vec();
    let good = sign_header("whsec_new", 500, &payload);
    let good_sig = good.split("v1=").nth(1).unwrap();
    // Key rotation: a stale v1 from the old secret plus the valid one, and a
    // v0 that must never be consulted.
    let header = format!("t=500,v0=deadbeef,v1=00ff00ff,v1={good_sig}");
    assert!(verify_signature("whsec_new", &header, &payload, 500));
}

#[test]
fn parse_sig_header_and_hex_decode_reject_malformed() {
    assert!(parse_sig_header("v1=abcd").is_none(), "missing t");
    assert!(parse_sig_header("t=notanumber,v1=abcd").is_none());
    assert!(parse_sig_header("t=100").is_none(), "missing v1");
    assert_eq!(
        parse_sig_header("t=100, v1=aa, v0=bb").map(|(t, v)| (t, v.len())),
        Some((100, 1)),
        "whitespace tolerated, v0 not collected"
    );
    assert!(hex_decode("abc").is_none(), "odd length");
    assert!(hex_decode("zz").is_none(), "non-hex");
    assert_eq!(hex_decode("00ff"), Some(vec![0, 255]));
}

#[test]
fn hex_takes_digits_of_either_case_and_nothing_else() {
    assert_eq!(hex_decode("DeadBeef"), Some(vec![0xde, 0xad, 0xbe, 0xef]));
    assert_eq!(hex_decode(""), Some(vec![]));
    assert!(hex_decode("+1").is_none());
    assert!(hex_decode("é").is_none());
}

#[test]
fn action_for_maps_subscription_states() {
    // deleted removes regardless of the status snapshot it carries.
    assert_eq!(action_for("customer.subscription.deleted", "active"), Action::Remove);
    // The Upsert allowlist.
    for status in ["active", "trialing", "past_due"] {
        assert_eq!(action_for("customer.subscription.created", status), Action::Upsert);
        assert_eq!(action_for("customer.subscription.updated", status), Action::Upsert);
    }
    // Everything else — incl. unknown future statuses — fails safe.
    for status in ["canceled", "unpaid", "incomplete", "incomplete_expired", "paused", "quantum"] {
        assert_eq!(action_for("customer.subscription.updated", status), Action::Remove);
    }
    // Non-subscription events are none of our business.
    assert_eq!(action_for("invoice.paid", "active"), Action::Ignore);
    assert_eq!(action_for("checkout.session.completed", "active"), Action::Ignore);
}

#[test]
fn valid_vault_id_mirrors_relay_rules() {
    assert!(valid_vault_id(&"a1".repeat(16)));
    assert!(!valid_vault_id("../../etc/passwd"));
    assert!(!valid_vault_id(&"A1".repeat(16)));
    assert!(!valid_vault_id(&"a1".repeat(15)));
    assert!(!valid_vault_id(""));
}

#[test]
fn checkout_redirects_303_to_stripe_session_url() {
    let config = test_config();
    let vid = "a1".repeat(16);
    for (plan, price) in [("monthly", "price_month_1"), ("yearly", "price_year_1")] {
        let chosen = plan_checkout(&config, &vid, plan).unwrap();
        assert_eq!(chosen, price);
        let request = session_request(&config, &vid, &chosen);
        assert_eq!(request.url, "http://127.0.0.1:9/v1/checkout/sessions");
        assert_eq!(request.authorization, "Bearer sk_test_dummy");
        let has = |k: &str, v: &str| request.form.iter().any(|e| e.0 == k && e.1 == v);
        assert!(has("mode", "subscription"));
        assert!(has("line_items[0][price]", price));
        assert!(has("subscription_data[metadata][vault_id]", &vid));
        assert!(has("success_url", "https://tacitus.md/thanks"));
        assert!(has("cancel_url", "https://tacitus.md/cancel"));
    }
    let body = parse_json(r#"{"id":"cs_test_1","url":"https://checkout.stripe.com/c/pay/cs_test_1"}"#);
    let reply = SessionReply::Body(body.unwrap());
    assert_eq!(checkout_answer(&reply).unwrap(), "https://checkout.stripe.com/c/pay/cs_test_1");
}

#[test]
fn checkout_rejects_bad_vault_id_and_bad_plan() {
    let config = test_config();
    let vid = "a1".repeat(16);
    for (vault_id, plan) in [("UPPER", "monthly"), (vid.as_str(), "weekly"), ("../../etc", "monthly")] {
        assert_eq!(plan_checkout(&config, vault_id, plan).unwrap_err().status, 400);
    }
}

#[test]
fn checkout_maps_stripe_failure_to_502() {
    let replies = vec![
        SessionReply::Failed(
            "402".to_string(),
            r#"{"error":{"message":"Your card was declined-ish"}}"#.to_string(),
        ),
        SessionReply::Unreachable("connection refused".to_string()),
        SessionReply::Malformed("not json".to_string()),
        SessionReply::Body(parse_json("{}").unwrap()),
    ];
    for reply in &replies {
        assert!(session_url(reply).is_err());
        let refused = checkout_answer(reply).unwrap_err();
        assert_eq!(refused.status, 502);
        assert!(
            !refused.text.contains("declined-ish"),
            "Stripe internals never reach the browser: {}",
            refused.text
        );
    }
}

#[test]
fn webhook_full_cycle_writes_and_removes_entitlement() {
    let config = test_config();
    let vid = "c3".repeat(16);
    let body = b"created".to_vec();
    let sig = sign_header(WEBHOOK_SECRET, 1000, &body);
    assert!(admits_webhook(&config, Some(&sig), &body, 1000));

    let kind = "customer.subscription.created";
    let ev = Some(sub_event(kind, "active", &vid, 100));
    let step = webhook(&config, Some(&sig), &body, 1000, Some(kind), &ev);
    assert_eq!(step, WebhookStep::Apply);
    let stored =
        EntStore::apply(EntRead::Missing, &ev.unwrap(), config.pro_quota, 0).unwrap().unwrap();
    assert_eq!(stored.vaults.get(&vid).unwrap().quota_bytes, 1024);
    assert_eq!(applied_status(true), 200);

    let kind = "customer.subscription.deleted";
    let ev = Some(sub_event(kind, "canceled", &vid, 200));
    let step = webhook(&config, Some(&sig), &body, 1000, Some(kind), &ev);
    assert_eq!(step, WebhookStep::Apply);
    let stored =
        EntStore::apply(EntRead::File(stored), &ev.unwrap(), config.pro_quota, 0).unwrap().unwrap();
    assert!(!stored.vaults.contains_key(&vid));
    assert!(stored.removed.contains_key(&vid));
}

#[test]
fn webhook_rejects_bad_signature_and_missing_header() {
    let config = test_config();
    let body = b"created".to_vec();
    let wrong = sign_header("whsec_WRONG", 1000, &body);
    let kind = "customer.subscription.created";
    for sig in [Some(wrong.as_str()), None] {
        assert!(!admits_webhook(&config, sig, &body, 1000));
        let ev = Some(sub_event(kind, "active", &"d4".repeat(16), 100));
        let step = webhook(&config, sig, &body, 1000, Some(kind), &ev);
        assert_eq!(step, WebhookStep::Answer(400));
    }
}

#[test]
fn webhook_ignores_unrelated_and_foreign_events() {
    let config = test_config();
    let body = b"signed".to_vec();
    let sig = sign_header(WEBHOOK_SECRET, 1000, &body);
    // A correctly signed event of a class we don't subscribe to.
    assert!(!concerns_subscription(Some("invoice.paid")));
    let step = webhook(&config, Some(&sig), &body, 1000, Some("invoice.paid"), &None);
    assert_eq!(step, WebhookStep::Answer(200));

    // A subscription event that isn't ours (no vault_id metadata).
    let kind = "customer.subscription.created";
    let foreign = event(kind, "active", None, 2);
    assert!(!names_vault(&foreign));
    let step = webhook(&config, Some(&sig), &body, 1000, Some(kind), &Some(foreign));
    assert_eq!(step, WebhookStep::Answer(200));
    assert!(names_vault(&sub_event(kind, "active", &"a1".repeat(16), 1)));
}

#[test]
fn webhook_replay_is_idempotent() {
    let vid = "e5".repeat(16);
    let mut file = EntFile::fresh();
    let ev = sub_event("customer.subscription.created", "active", &vid, 100);
    assert!(apply_event(&mut file, &ev, 1024, 7));
    assert!(!apply_event(&mut file, &ev, 1024, 8), "replay changes nothing");
    assert_eq!(file.vaults.get(&vid).unwrap().updated_at, Some(7));
}

#[test]
fn webhook_that_cannot_be_stored_asks_for_a_retry() {
    assert_eq!(applied_status(false), 500);
}

#[test]
fn config_names_every_missing_variable_and_takes_the_rest() {
    let mut vars = StrMap::new();
    let missing = Config::from_vars(&vars).err().unwrap();
    for name in [
        "STRIPE_SECRET_KEY",
        "STRIPE_WEBHOOK_SECRET",
        "STRIPE_PRICE_MONTHLY",
        "STRIPE_PRICE_YEARLY",
    ] {
        assert!(missing.contains(name), "{missing}");
        vars.insert(name.to_string(), format!("value of {name}"));
    }
    vars.insert("TACITUS_BILLING_PRO_QUOTA".to_string(), "2048".to_string());
    let config = Config::from_vars(&vars).ok().unwrap();
    assert_eq!(config.bind, "127.0.0.1:8092");
    assert_eq!(config.entitlements_path, "./relay-data/entitlements.json");
    assert_eq!(config.pro_quota, 2048);
    assert_eq!(config.stripe_secret_key, "value of STRIPE_SECRET_KEY");
    assert_eq!(config.stripe_url, "https://api.stripe.com");
}

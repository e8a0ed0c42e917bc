//! What an event does to the entitlements, and which events are believed.
use crate::billing::checkout::{
    has_var, missing_from, pro_quota_of, required_vars, session_form, session_page, Config,
    SessionReply,
};
use crate::billing::entitlements::{event_applied, event_vault, EntFileView};
use crate::billing::stripe::{
    header_read, hex_bytes, hmac_sha256, is_signed, signed_message, tag_matches, time_named,
    with_sig_part, SigView, StripeEvent,
};
use crate::relay::hub::quota_named;
use crate::text::{has_prefix, lemma_next_char_is, trim};
use crate::vault::json::{json_get, JsonView};
use vstd::prelude::*;
use vstd::utf8::*;

verus! {

// ---------------------------------------------------------------------------
// Events
// ---------------------------------------------------------------------------

/// Whether an event is about a subscription.
pub open spec fn is_subscription_event(ev: StripeEvent) -> bool {
    let prefix = "customer.subscription."@;
    ev.kind@.len() >= prefix.len() && ev.kind@.take(prefix.len() as int) == prefix
}

/// Whether a subscription is in a state that is paid for.
pub open spec fn is_paid(ev: StripeEvent) -> bool {
    let status = ev.data.object.status@;
    status == "active"@ || status == "trialing"@ || status == "past_due"@
}

/// Whether an event is newer than all that is known of a vault.
pub open spec fn is_news(f: EntFileView, id: Seq<char>, created: i64) -> bool {
    &&& f.vaults.contains_key(id) && f.vaults[id].last_event_ts is Some
        ==> f.vaults[id].last_event_ts->0 < created
    &&& f.removed.contains_key(id) ==> f.removed[id] < created
}

proof fn lemma_prefix(kind: Seq<char>)
    ensures
        has_prefix(kind, "customer.subscription."@) <==> kind.len() >= "customer.subscription."@.len()
            && kind.take("customer.subscription."@.len() as int) == "customer.subscription."@,
{
    let p = "customer.subscription."@;
    if kind.len() >= p.len() {
        assert(kind.take(p.len() as int) =~= kind.subrange(0, p.len() as int));
    }
}

proof fn lemma_deleted_is_one()
    ensures
        has_prefix("customer.subscription.deleted"@, "customer.subscription."@),
{
    reveal_strlit("customer.subscription.deleted");
    reveal_strlit("customer.subscription.");
    let n: int = "customer.subscription."@.len() as int;
    assert("customer.subscription.deleted"@.subrange(0, n) =~= "customer.subscription."@);
}

/// A paid event grants: of a subscription that is active, on trial or past due, and that
/// was not deleted, a newer event gives the vault its entry, with the quota and who
/// pays for it, and takes its mark of removal away.
pub proof fn law_a_paid_event_grants(
    f: EntFileView,
    ev: StripeEvent,
    quota: u64,
    now: i64,
    id: Seq<char>,
)
    requires
        event_vault(ev) == Some(id),
        is_subscription_event(ev),
        ev.kind@ != "customer.subscription.deleted"@,
        is_paid(ev),
        is_news(f, id, ev.created),
    ensures
        ({
            let g = event_applied(f, ev, quota, now).0;
            &&& event_applied(f, ev, quota, now).1
            &&& g.vaults.contains_key(id)
            &&& !g.removed.contains_key(id)
            &&& g.vaults[id].quota_bytes == quota
            &&& g.vaults[id].tier == Some("pro"@)
            &&& g.vaults[id].stripe_customer == Some(ev.data.object.customer@)
            &&& g.vaults[id].stripe_subscription == Some(ev.data.object.id@)
            &&& g.vaults[id].status == Some(ev.data.object.status@)
            &&& g.vaults[id].updated_at == Some(now)
            &&& g.vaults[id].last_event_ts == Some(ev.created)
        }),
{
    lemma_prefix(ev.kind@);
}

/// An unpaid event takes away: of a subscription that was deleted, or that is in any
/// state that is not paid for, a newer event removes the entry of the vault and marks
/// when.
pub proof fn law_an_unpaid_event_takes_away(
    f: EntFileView,
    ev: StripeEvent,
    quota: u64,
    now: i64,
    id: Seq<char>,
)
    requires
        event_vault(ev) == Some(id),
        is_subscription_event(ev),
        ev.kind@ == "customer.subscription.deleted"@ || !is_paid(ev),
        is_news(f, id, ev.created),
    ensures
        ({
            let g = event_applied(f, ev, quota, now).0;
            &&& event_applied(f, ev, quota, now).1
            &&& !g.vaults.contains_key(id)
            &&& g.removed.contains_key(id)
            &&& g.removed[id] == ev.created
        }),
{
    lemma_prefix(ev.kind@);
    lemma_deleted_is_one();
}

/// What changes nothing: an event about something else, one that names no vault, and one
/// that is no newer than the entry it is about.
pub proof fn law_other_events_change_nothing(f: EntFileView, ev: StripeEvent, quota: u64, now: i64)
    requires
        !is_subscription_event(ev) || event_vault(ev) is None || (event_vault(ev) matches Some(id)
            && f.vaults.contains_key(id) && f.vaults[id].last_event_ts is Some && ev.created
            <= f.vaults[id].last_event_ts->0),
    ensures
        event_applied(f, ev, quota, now) == (f, false),
{
    lemma_prefix(ev.kind@);
}

// ---------------------------------------------------------------------------
// Signatures
// ---------------------------------------------------------------------------

/// What is not believed: a payload whose header lacks its time or its tags, one whose
/// time is more than five minutes off, and one none of whose tags is that of the time
/// and the payload under the secret.
pub proof fn law_only_fresh_and_true_signatures_count(
    secret: Seq<char>,
    header: Seq<char>,
    payload: Seq<u8>,
    now: i64,
)
    ensures
        is_signed(secret, header, payload, now) ==> header_read(header) is Some,
        is_signed(secret, header, payload, now) ==> {
            let x = header_read(header)->0;
            let t = x.0;
            let tags = x.1;
            &&& now - 300 <= t <= now + 300
            &&& exists|k: int|
                0 <= k < tags.len() && hex_bytes(#[trigger] tags[k]) == Some(
                    hmac_sha256(encode_utf8(secret), signed_message(t, payload)),
                )
        },
        header_read(header) matches Some(x) ==> ((exists|k: int|
            0 <= k < x.1.len() && hex_bytes(#[trigger] x.1[k]) == Some(
                hmac_sha256(encode_utf8(secret), signed_message(x.0, payload)),
            )) && now - 300 <= x.0 <= now + 300 ==> is_signed(secret, header, payload, now)),
{
    if let Some(x) = header_read(header) {
        let key = encode_utf8(secret);
        let m = signed_message(x.0, payload);
        if is_signed(secret, header, payload, now) {
            let k = choose|k: int| 0 <= k < x.1.len() && #[trigger] tag_matches(key, m, x.1[k]);
            assert(hex_bytes(x.1[k]) == Some(hmac_sha256(key, m)));
        }
        if exists|k: int|
            0 <= k < x.1.len() && hex_bytes(#[trigger] x.1[k]) == Some(hmac_sha256(key, m)) {
            let k = choose|k: int|
                0 <= k < x.1.len() && hex_bytes(#[trigger] x.1[k]) == Some(hmac_sha256(key, m));
            assert(tag_matches(key, m, x.1[k]));
        }
    }
}

/// The parts of a signature header: the one named `t` is its time, each named `v1` is a
/// tag, and any other is passed over.
pub proof fn law_a_header_part_goes_by_its_name(s: SigView, name: Seq<char>, value: Seq<char>)
    requires
        forall|k: int| 0 <= k < name.len() ==> #[trigger] name[k] != '=',
        trim(name + seq!['='] + value) == name + seq!['='] + value,
    ensures
        ({
            let r = with_sig_part(s, name + seq!['='] + value);
            &&& name == "t"@ ==> r.t == time_named(value) && r.v1s == s.v1s
            &&& name == "v1"@ ==> r.t == s.t && r.v1s == s.v1s.push(value)
            &&& name != "t"@ && name != "v1"@ ==> r == s
        }),
{
    reveal_strlit("t");
    reveal_strlit("v1");
    assert("t"@.len() == 1 && "v1"@.len() == 2);
    let p = name + seq!['='] + value;
    let n: int = name.len() as int;
    assert forall|k: int| 0 <= k < n implies #[trigger] p[k] != '=' by {
        assert(p[k] == name[k]);
    }
    lemma_next_char_is(p, '=', 0, n);
    assert(p.take(n) =~= name);
    assert(p.skip(n + 1) =~= value);
}

// ---------------------------------------------------------------------------
// Configuration and checkout
// ---------------------------------------------------------------------------

proof fn lemma_missing(vars: Map<Seq<char>, String>, i: int, name: Seq<char>)
    requires
        0 <= i <= 4,
    ensures
        missing_from(vars, i).contains(name) <==> exists|k: int|
            i <= k < 4 && #[trigger] required_vars()[k] == name && !has_var(vars, name),
    decreases 4 - i,
{
    if i < 4 {
        lemma_missing(vars, i + 1, name);
        let rest = missing_from(vars, i + 1);
        let first = required_vars()[i];
        if !has_var(vars, first) {
            let all = seq![first] + rest;
            assert(all[0] == first);
            if rest.contains(name) {
                let a = choose|a: int| 0 <= a < rest.len() && rest[a] == name;
                assert(all[a + 1] == name);
            }
            if all.contains(name) && name != first {
                let a = choose|a: int| 0 <= a < all.len() && all[a] == name;
                assert(rest[a - 1] == name);
            }
        }
    }
}

/// What keeps the daemon from starting: a secret or a price that is not set, or set to
/// nothing; exactly those are named.
pub proof fn law_missing_settings_are_named(vars: Map<Seq<char>, String>, name: Seq<char>)
    ensures
        missing_from(vars, 0).contains(name) <==> (name == "STRIPE_SECRET_KEY"@ || name
            == "STRIPE_WEBHOOK_SECRET"@ || name == "STRIPE_PRICE_MONTHLY"@ || name
            == "STRIPE_PRICE_YEARLY"@) && !(vars.contains_key(name) && vars[name]@.len() > 0),
{
    lemma_missing(vars, 0, name);
    let all = required_vars();
    assert(all[0] == "STRIPE_SECRET_KEY"@ && all[1] == "STRIPE_WEBHOOK_SECRET"@ && all[2]
        == "STRIPE_PRICE_MONTHLY"@ && all[3] == "STRIPE_PRICE_YEARLY"@);
}

/// What an entitlement allows is the number of bytes that is set, where it is one above
/// zero, and one GiB else.
pub proof fn law_a_quota_is_set_or_one_gib(vars: Map<Seq<char>, String>)
    ensures
        ({
            let name = "TACITUS_BILLING_PRO_QUOTA"@;
            let set = vars.contains_key(name) && quota_named(vars[name]@) is Some;
            &&& set ==> pro_quota_of(vars) == quota_named(vars[name]@)->0
            &&& !set ==> pro_quota_of(vars) == 1024 * 1024 * 1024
        }),
{
}

/// The value of a field of a form.
pub open spec fn has_field(form: Seq<(Seq<char>, Seq<char>)>, name: Seq<char>, value: Seq<char>) -> bool {
    exists|k: int| 0 <= k < form.len() && #[trigger] form[k] == (name, value)
}

/// A checkout session is for one subscription at the price, and names its vault both on
/// the session and on the subscription, so that every later event repeats it.
pub proof fn law_a_session_names_its_vault(c: Config, vault_id: Seq<char>, price: Seq<char>)
    ensures
        ({
            let form = session_form(c, vault_id, price);
            &&& has_field(form, "mode"@, "subscription"@)
            &&& has_field(form, "line_items[0][price]"@, price)
            &&& has_field(form, "line_items[0][quantity]"@, "1"@)
            &&& has_field(form, "subscription_data[metadata][vault_id]"@, vault_id)
            &&& has_field(form, "metadata[vault_id]"@, vault_id)
            &&& has_field(form, "success_url"@, c.success_url@)
            &&& has_field(form, "cancel_url"@, c.cancel_url@)
            &&& form.len() == 7
        }),
{
    let form = session_form(c, vault_id, price);
    assert(form[0] == ("mode"@, "subscription"@));
    assert(form[1] == ("line_items[0][price]"@, price));
    assert(form[2] == ("line_items[0][quantity]"@, "1"@));
    assert(form[3] == ("subscription_data[metadata][vault_id]"@, vault_id));
    assert(form[4] == ("metadata[vault_id]"@, vault_id));
    assert(form[5] == ("success_url"@, c.success_url@));
    assert(form[6] == ("cancel_url"@, c.cancel_url@));
}

/// The page of a session is the text under `url` of the reply; every other reply is a
/// failure.
pub proof fn law_a_session_page_is_its_url(reply: SessionReply, url: Seq<char>)
    ensures
        session_page(reply) == Ok::<Seq<char>, Seq<char>>(url) <==> (reply matches SessionReply::Body(
            v,
        ) && v@ is Object && json_get(v@->Object_0, "url"@) == Some(JsonView::Text(url))),
{
}

} // verus!

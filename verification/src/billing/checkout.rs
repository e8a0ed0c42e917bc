//! The billing daemon's settings, and its answers to the two requests it takes:
//! a checkout, and a webhook.
use crate::billing::entitlements::event_vault;
use crate::billing::stripe::{is_signed, valid_vault_id, verify_signature, StripeEvent};
use crate::relay::hub::{is_vault_id, parse_quota, quota_named};
use crate::strmap::StrMap;
use crate::text::{has_prefix, join, join_strings, starts_with, str_eq, texts};
use crate::vault::json::{entry_value, json_get, lemma_json_model, Json, JsonView};
use vstd::prelude::*;
use vstd::string::*;

verus! {

/// What an entitlement allows where nothing else is set: one GiB.
pub const DEFAULT_PRO_QUOTA: u64 = 1_073_741_824;

/// The settings of the billing daemon.
pub struct Config {
    pub bind: String,
    pub entitlements_path: String,
    pub pro_quota: u64,
    pub success_url: String,
    pub cancel_url: String,
    pub stripe_url: String,
    pub stripe_secret_key: String,
    pub stripe_webhook_secret: String,
    pub price_monthly: String,
    pub price_yearly: String,
}

/// The value of a variable, or a default.
pub open spec fn var_or(
    vars: Map<Seq<char>, String>,
    name: Seq<char>,
    default: Seq<char>,
) -> Seq<char> {
    if vars.contains_key(name) {
        vars[name]@
    } else {
        default
    }
}

/// Whether a variable that is required is there. An empty one counts as
/// missing.
pub open spec fn has_var(vars: Map<Seq<char>, String>, name: Seq<char>) -> bool {
    vars.contains_key(name) && vars[name]@.len() > 0
}

/// The variables without which the daemon does not start.
pub open spec fn required_vars() -> Seq<Seq<char>> {
    seq![
        "STRIPE_SECRET_KEY"@,
        "STRIPE_WEBHOOK_SECRET"@,
        "STRIPE_PRICE_MONTHLY"@,
        "STRIPE_PRICE_YEARLY"@,
    ]
}

/// The required variables from `i` on that are missing.
pub open spec fn missing_from(vars: Map<Seq<char>, String>, i: int) -> Seq<Seq<char>>
    decreases 4 - i,
{
    if i < 0 || i >= 4 {
        seq![]
    } else if has_var(vars, required_vars()[i]) {
        missing_from(vars, i + 1)
    } else {
        seq![required_vars()[i]] + missing_from(vars, i + 1)
    }
}

/// What an entitlement allows, as a variable sets it.
pub open spec fn pro_quota_of(vars: Map<Seq<char>, String>) -> u64 {
    if vars.contains_key("TACITUS_BILLING_PRO_QUOTA"@) {
        match quota_named(vars["TACITUS_BILLING_PRO_QUOTA"@]@) {
            Some(n) => n,
            None => DEFAULT_PRO_QUOTA,
        }
    } else {
        DEFAULT_PRO_QUOTA
    }
}

/// Whether a configuration is the one that variables set.
pub open spec fn is_configured(c: Config, vars: Map<Seq<char>, String>) -> bool {
    &&& c.bind@ == var_or(vars, "TACITUS_BILLING_BIND"@, "127.0.0.1:8092"@)
    &&& c.entitlements_path@ == var_or(
        vars,
        "TACITUS_BILLING_ENTITLEMENTS"@,
        "./relay-data/entitlements.json"@,
    )
    &&& c.pro_quota == pro_quota_of(vars)
    &&& c.success_url@ == var_or(vars, "TACITUS_BILLING_SUCCESS_URL"@, "https://tacitus.md"@)
    &&& c.cancel_url@ == var_or(vars, "TACITUS_BILLING_CANCEL_URL"@, "https://tacitus.md"@)
    &&& c.stripe_url@ == var_or(vars, "TACITUS_BILLING_STRIPE_URL"@, "https://api.stripe.com"@)
    &&& c.stripe_secret_key@ == vars["STRIPE_SECRET_KEY"@]@
    &&& c.stripe_webhook_secret@ == vars["STRIPE_WEBHOOK_SECRET"@]@
    &&& c.price_monthly@ == vars["STRIPE_PRICE_MONTHLY"@]@
    &&& c.price_yearly@ == vars["STRIPE_PRICE_YEARLY"@]@
}

fn var_with_default(vars: &StrMap<String>, name: &str, default: &str) -> (r: String)
    ensures
        r@ == var_or(vars@, name@, default@),
{
    match vars.get(name) {
        Some(v) => v.clone(),
        None => default.to_owned(),
    }
}

fn required_var(vars: &StrMap<String>, name: &str) -> (r: Option<String>)
    ensures
        match r {
            Some(v) => has_var(vars@, name@) && v@ == vars@[name@]@,
            None => !has_var(vars@, name@),
        },
{
    match vars.get(name) {
        Some(v) => {
            if v.as_str().unicode_len() > 0 {
                Some(v.clone())
            } else {
                None
            }
        },
        None => None,
    }
}

fn missing_vars(vars: &StrMap<String>) -> (r: Vec<String>)
    ensures
        texts(r@) == missing_from(vars@, 0),
{
    let mut names: Vec<String> = Vec::new();
    names.push("STRIPE_SECRET_KEY".to_owned());
    names.push("STRIPE_WEBHOOK_SECRET".to_owned());
    names.push("STRIPE_PRICE_MONTHLY".to_owned());
    names.push("STRIPE_PRICE_YEARLY".to_owned());
    assert(texts(names@) =~= required_vars());
    let mut out: Vec<String> = Vec::new();
    let mut i: usize = 0;
    assert(texts(out@) =~= seq![]);
    while i < names.len()
        invariant
            i <= names@.len(),
            names@.len() == 4,
            texts(names@) == required_vars(),
            missing_from(vars@, 0) == texts(out@) + missing_from(vars@, i as int),
        decreases names@.len() - i,
    {
        assert(required_vars()[i as int] == names@[i as int]@);
        if required_var(vars, names[i].as_str()).is_none() {
            let ghost prev = texts(out@);
            let ghost name = names@[i as int]@;
            out.push(names[i].clone());
            assert(texts(out@) =~= prev.push(name));
            assert(prev + (seq![name] + missing_from(vars@, i + 1)) =~= texts(out@)
                + missing_from(vars@, i + 1));
        }
        i = i + 1;
    }
    assert(texts(out@) + missing_from(vars@, i as int) =~= texts(out@));
    out
}

impl Config {
    /// The settings that the variables of the environment make. All that are
    /// missing are named at once: a daemon that is set up by half is worse than
    /// one that does not start.
    pub fn from_vars(vars: &StrMap<String>) -> (r: Result<Self, String>)
        ensures
            if missing_from(vars@, 0).len() == 0 {
                r matches Ok(c) && is_configured(c, vars@)
            } else {
                r matches Err(m) && m@
                    == "tacitus-billing cannot start — missing required env vars: "@ + join(
                    missing_from(vars@, 0),
                    ", "@,
                )
            },
    {
        let missing = missing_vars(vars);
        proof {
            reveal_with_fuel(missing_from, 5);
            assert(texts(missing@).len() == missing@.len());
        }
        let pro_quota: u64 = match vars.get("TACITUS_BILLING_PRO_QUOTA") {
            Some(raw) => match parse_quota(raw.as_str()) {
                Some(n) => n,
                None => DEFAULT_PRO_QUOTA,
            },
            None => DEFAULT_PRO_QUOTA,
        };
        let key = required_var(vars, "STRIPE_SECRET_KEY");
        let secret = required_var(vars, "STRIPE_WEBHOOK_SECRET");
        let monthly = required_var(vars, "STRIPE_PRICE_MONTHLY");
        let yearly = required_var(vars, "STRIPE_PRICE_YEARLY");
        match (key, secret, monthly, yearly) {
            (Some(key), Some(secret), Some(monthly), Some(yearly)) => Ok(
                Config {
                    bind: var_with_default(vars, "TACITUS_BILLING_BIND", "127.0.0.1:8092"),
                    entitlements_path: var_with_default(
                        vars,
                        "TACITUS_BILLING_ENTITLEMENTS",
                        "./relay-data/entitlements.json",
                    ),
                    pro_quota,
                    success_url: var_with_default(
                        vars,
                        "TACITUS_BILLING_SUCCESS_URL",
                        "https://tacitus.md",
                    ),
                    cancel_url: var_with_default(
                        vars,
                        "TACITUS_BILLING_CANCEL_URL",
                        "https://tacitus.md",
                    ),
                    stripe_url: var_with_default(
                        vars,
                        "TACITUS_BILLING_STRIPE_URL",
                        "https://api.stripe.com",
                    ),
                    stripe_secret_key: key,
                    stripe_webhook_secret: secret,
                    price_monthly: monthly,
                    price_yearly: yearly,
                },
            ),
            _ => {
                let mut m =
                    "tacitus-billing cannot start — missing required env vars: ".to_owned();
                m.append(join_strings(&missing, ", ").as_str());
                Err(m)
            },
        }
    }
}

// ---------------------------------------------------------------------------
// Checkout
// ---------------------------------------------------------------------------

/// An HTTP status and the text that goes with it.
#[derive(Debug)]
pub struct Refused {
    pub status: u16,
    pub text: String,
}

/// Why a checkout is refused before the payment provider is asked.
pub open spec fn checkout_refused(vault_id: Seq<char>, plan: Seq<char>) -> Option<Seq<char>> {
    if !is_vault_id(vault_id) {
        Some("vault_id must be 32 lowercase hex chars"@)
    } else if plan != "monthly"@ && plan != "yearly"@ {
        Some("plan must be \"monthly\" or \"yearly\""@)
    } else {
        None
    }
}

/// The price of a checkout: that of its plan. A malformed request is refused
/// and goes no further.
pub fn plan_checkout(config: &Config, vault_id: &str, plan: &str) -> (r: Result<String, Refused>)
    ensures
        match checkout_refused(vault_id@, plan@) {
            Some(text) => r matches Err(e) && e.status == 400 && e.text@ == text,
            None => r matches Ok(price) && price@ == (if plan@ == "monthly"@ {
                config.price_monthly@
            } else {
                config.price_yearly@
            }),
        },
{
    if !valid_vault_id(vault_id) {
        return Err(
            Refused { status: 400, text: "vault_id must be 32 lowercase hex chars".to_owned() },
        );
    }
    if str_eq(plan, "monthly") {
        Ok(config.price_monthly.clone())
    } else if str_eq(plan, "yearly") {
        Ok(config.price_yearly.clone())
    } else {
        Err(Refused { status: 400, text: "plan must be \"monthly\" or \"yearly\"".to_owned() })
    }
}

/// A request to the payment provider.
#[derive(Debug)]
pub struct SessionRequest {
    pub url: String,
    pub authorization: String,
    pub form: Vec<(String, String)>,
}

/// The model of a form.
pub open spec fn form_view(v: Seq<(String, String)>) -> Seq<(Seq<char>, Seq<char>)> {
    v.map_values(|e: (String, String)| (e.0@, e.1@))
}

/// The fields of a request for a checkout session. The vault stands in the
/// metadata of the subscription, so that every later event repeats it.
pub open spec fn session_form(c: Config, vault_id: Seq<char>, price: Seq<char>) -> Seq<
    (Seq<char>, Seq<char>),
> {
    seq![
        ("mode"@, "subscription"@),
        ("line_items[0][price]"@, price),
        ("line_items[0][quantity]"@, "1"@),
        ("subscription_data[metadata][vault_id]"@, vault_id),
        ("metadata[vault_id]"@, vault_id),
        ("success_url"@, c.success_url@),
        ("cancel_url"@, c.cancel_url@),
    ]
}

/// The request for a checkout session.
pub fn session_request(config: &Config, vault_id: &str, price_id: &str) -> (r: SessionRequest)
    ensures
        r.url@ == config.stripe_url@ + "/v1/checkout/sessions"@,
        r.authorization@ == "Bearer "@ + config.stripe_secret_key@,
        form_view(r.form@) == session_form(*config, vault_id@, price_id@),
{
    let mut url = config.stripe_url.clone();
    url.append("/v1/checkout/sessions");
    let mut authorization = "Bearer ".to_owned();
    authorization.append(config.stripe_secret_key.as_str());
    let mut form: Vec<(String, String)> = Vec::new();
    form.push(("mode".to_owned(), "subscription".to_owned()));
    form.push(("line_items[0][price]".to_owned(), price_id.to_owned()));
    form.push(("line_items[0][quantity]".to_owned(), "1".to_owned()));
    form.push(("subscription_data[metadata][vault_id]".to_owned(), vault_id.to_owned()));
    form.push(("metadata[vault_id]".to_owned(), vault_id.to_owned()));
    form.push(("success_url".to_owned(), config.success_url.clone()));
    form.push(("cancel_url".to_owned(), config.cancel_url.clone()));
    assert(form_view(form@) =~= session_form(*config, vault_id@, price_id@));
    SessionRequest { url, authorization, form }
}

/// What the payment provider answered.
#[derive(Debug)]
pub enum SessionReply {
    Unreachable(String),
    /// A status other than success, as text, and the body.
    Failed(String, String),
    Malformed(String),
    Body(Json),
}

/// The page that a session redirects to, or what went wrong.
pub open spec fn session_page(reply: SessionReply) -> Result<Seq<char>, Seq<char>> {
    match reply {
        SessionReply::Unreachable(e) => Err("stripe unreachable: "@ + e@),
        SessionReply::Failed(status, body) => Err("stripe "@ + status@ + ": "@ + body@),
        SessionReply::Malformed(e) => Err("stripe returned malformed JSON: "@ + e@),
        SessionReply::Body(v) => match v@ {
            JsonView::Object(e) => match json_get(e, "url"@) {
                Some(JsonView::Text(url)) => Ok(url),
                _ => Err("checkout session has no url"@),
            },
            _ => Err("checkout session has no url"@),
        },
    }
}

/// The page that a session redirects to, or a message for the log.
pub fn session_url(reply: &SessionReply) -> (r: Result<String, String>)
    ensures
        match r {
            Ok(url) => session_page(*reply) == Ok::<Seq<char>, Seq<char>>(url@),
            Err(m) => session_page(*reply) == Err::<Seq<char>, Seq<char>>(m@),
        },
{
    match reply {
        SessionReply::Unreachable(e) => {
            let mut m = "stripe unreachable: ".to_owned();
            m.append(e.as_str());
            Err(m)
        },
        SessionReply::Failed(status, body) => {
            let mut m = "stripe ".to_owned();
            m.append(status.as_str());
            m.append(": ");
            m.append(body.as_str());
            Err(m)
        },
        SessionReply::Malformed(e) => {
            let mut m = "stripe returned malformed JSON: ".to_owned();
            m.append(e.as_str());
            Err(m)
        },
        SessionReply::Body(v) => {
            proof {
                lemma_json_model(*v);
            }
            match v {
                Json::Object(e) => match entry_value(e, "url") {
                    Some(j) => match j {
                        Json::Text(url) => Ok(url.clone()),
                        _ => Err("checkout session has no url".to_owned()),
                    },
                    None => Err("checkout session has no url".to_owned()),
                },
                _ => Err("checkout session has no url".to_owned()),
            }
        },
    }
}

/// The answer to a checkout once the payment provider was asked: a redirect,
/// or a text that says nothing of what the provider said.
pub fn checkout_answer(reply: &SessionReply) -> (r: Result<String, Refused>)
    ensures
        match session_page(*reply) {
            Ok(url) => r matches Ok(u) && u@ == url,
            Err(_) => r matches Err(e) && e.status == 502 && e.text@
                == "could not reach the payment provider — please try again shortly"@,
        },
{
    match session_url(reply) {
        Ok(url) => Ok(url),
        Err(_) => Err(
            Refused {
                status: 502,
                text: "could not reach the payment provider — please try again shortly".to_owned(),
            },
        ),
    }
}

// ---------------------------------------------------------------------------
// Webhooks
// ---------------------------------------------------------------------------

/// Whether a webhook is let in: it has a signature, and a right one over its
/// raw body.
pub open spec fn is_admitted(
    config: Config,
    signature: Option<&str>,
    body: Seq<u8>,
    now: i64,
) -> bool {
    match signature {
        Some(s) => is_signed(config.stripe_webhook_secret@, s@, body, now),
        None => false,
    }
}

/// Whether a webhook is let in. Nothing is read from the body before that.
pub fn admits_webhook(config: &Config, signature: Option<&str>, body: &Vec<u8>, now: i64) -> (r:
    bool)
    ensures
        r == is_admitted(*config, signature, body@, now),
{
    match signature {
        Some(s) => verify_signature(config.stripe_webhook_secret.as_str(), s, body, now),
        None => false,
    }
}

/// Whether an event of a kind is one about subscriptions; `None` stands for a
/// body whose kind cannot be read.
pub open spec fn concerns(kind: Option<&str>) -> bool {
    match kind {
        Some(k) => has_prefix(k@, "customer.subscription."@),
        None => false,
    }
}

/// Whether an event of a kind is one about subscriptions. Others are answered
/// with success and passed over.
pub fn concerns_subscription(kind: Option<&str>) -> (r: bool)
    ensures
        r == concerns(kind),
{
    match kind {
        Some(k) => starts_with(k, "customer.subscription."),
        None => false,
    }
}

/// Whether an event is about a vault of ours.
pub open spec fn names_a_vault(ev: StripeEvent) -> bool {
    match event_vault(ev) {
        Some(id) => is_vault_id(id),
        None => false,
    }
}

/// Whether an event names a vault; one without is none of our business.
pub fn names_vault(ev: &StripeEvent) -> (r: bool)
    ensures
        r == names_a_vault(*ev),
{
    match ev.data.object.metadata.get("vault_id") {
        Some(id) => valid_vault_id(id.as_str()),
        None => false,
    }
}

/// What a webhook comes to.
#[derive(Debug, Clone, Copy, PartialEq, Eq, Structural)]
pub enum WebhookStep {
    /// Answered with this status, and nothing else is done.
    Answer(u16),
    /// The event is to be applied to the entitlements.
    Apply,
}

/// What a webhook comes to, from whether it was let in, its kind, and its
/// event where it could be read as one.
pub open spec fn webhook_step(
    admitted: bool,
    kind: Option<&str>,
    event: Option<StripeEvent>,
) -> WebhookStep {
    if !admitted {
        WebhookStep::Answer(400)
    } else if !concerns(kind) {
        WebhookStep::Answer(200)
    } else {
        match event {
            Some(ev) => if names_a_vault(ev) {
                WebhookStep::Apply
            } else {
                WebhookStep::Answer(200)
            },
            None => WebhookStep::Answer(200),
        }
    }
}

/// What a webhook comes to, from its signature and its raw body, and from the
/// kind and the event that the body was read as. A body of another shape is no
/// error: sending it again would not change it.
pub fn webhook(
    config: &Config,
    signature: Option<&str>,
    body: &Vec<u8>,
    now: i64,
    kind: Option<&str>,
    event: &Option<StripeEvent>,
) -> (r: WebhookStep)
    ensures
        r == webhook_step(is_admitted(*config, signature, body@, now), kind, *event),
{
    if !admits_webhook(config, signature, body, now) {
        return WebhookStep::Answer(400);
    }
    if !concerns_subscription(kind) {
        return WebhookStep::Answer(200);
    }
    match event {
        Some(ev) => if names_vault(ev) {
            WebhookStep::Apply
        } else {
            WebhookStep::Answer(200)
        },
        None => WebhookStep::Answer(200),
    }
}

/// An event is applied only where the raw body was signed with the secret of the
/// webhook, the kind is one about subscriptions, and the event names a vault.
pub proof fn law_only_signed_events_are_applied(
    config: Config,
    signature: Option<&str>,
    body: Seq<u8>,
    now: i64,
    kind: Option<&str>,
    event: Option<StripeEvent>,
)
    ensures
        webhook_step(is_admitted(config, signature, body, now), kind, event) == WebhookStep::Apply
            <==> signature is Some && is_signed(
            config.stripe_webhook_secret@,
            signature->0@,
            body,
            now,
        ) && concerns(kind) && event is Some && names_a_vault(event->0),
{
}

/// The status of a webhook whose event was applied, or could not be: then it
/// is sent again.
pub fn applied_status(stored: bool) -> (r: u16)
    ensures
        r == if stored {
            200u16
        } else {
            500
        },
{
    if stored {
        200
    } else {
        500
    }
}

} // verus!

//! The entitlements file. Billing owns it; the relay reads it. Fields that
//! billing does not know are kept, so that entries written by hand survive.
use crate::billing::stripe::{action_for, action_of, Action, StripeEvent};
use crate::numbers::{dec, render_u64};
use crate::strmap::StrMap;
use crate::text::opt_text;
use crate::vault::json::{copy_json_entries, json_entries, Json, JsonView};
use vstd::prelude::*;
use vstd::string::*;

verus! {

/// The whole file.
pub struct EntFile {
    /// Always 1: a file with another version is never rewritten.
    pub version: u32,
    pub vaults: StrMap<Entitlement>,
    /// When the entitlement of a vault was last removed: an older event that
    /// arrives late must not bring it back.
    pub removed: StrMap<i64>,
    /// Fields that billing does not know.
    pub extra: Vec<(String, Json)>,
}

/// The entry of one vault. Only the quota matters to the relay.
#[derive(Debug)]
pub struct Entitlement {
    pub quota_bytes: u64,
    pub tier: Option<String>,
    pub stripe_customer: Option<String>,
    pub stripe_subscription: Option<String>,
    pub status: Option<String>,
    /// When the entry was written.
    pub updated_at: Option<i64>,
    /// The time of the last event that was applied.
    pub last_event_ts: Option<i64>,
    /// Fields that billing does not know.
    pub extra: Vec<(String, Json)>,
}

/// The model of an entry.
#[verifier::ext_equal]
pub struct EntView {
    pub quota_bytes: u64,
    pub tier: Option<Seq<char>>,
    pub stripe_customer: Option<Seq<char>>,
    pub stripe_subscription: Option<Seq<char>>,
    pub status: Option<Seq<char>>,
    pub updated_at: Option<i64>,
    pub last_event_ts: Option<i64>,
    pub extra: Seq<(Seq<char>, JsonView)>,
}

impl View for Entitlement {
    type V = EntView;

    open spec fn view(&self) -> EntView {
        EntView {
            quota_bytes: self.quota_bytes,
            tier: opt_text(self.tier),
            stripe_customer: opt_text(self.stripe_customer),
            stripe_subscription: opt_text(self.stripe_subscription),
            status: opt_text(self.status),
            updated_at: self.updated_at,
            last_event_ts: self.last_event_ts,
            extra: json_entries(self.extra@),
        }
    }
}

/// The model of the file.
#[verifier::ext_equal]
pub struct EntFileView {
    pub version: u32,
    pub vaults: Map<Seq<char>, EntView>,
    pub removed: Map<Seq<char>, i64>,
    pub extra: Seq<(Seq<char>, JsonView)>,
}

/// The model of the entries.
pub open spec fn vaults_view(m: Map<Seq<char>, Entitlement>) -> Map<Seq<char>, EntView> {
    m.map_values(|e: Entitlement| e@)
}

impl View for EntFile {
    type V = EntFileView;

    open spec fn view(&self) -> EntFileView {
        EntFileView {
            version: self.version,
            vaults: vaults_view(self.vaults@),
            removed: self.removed@,
            extra: json_entries(self.extra@),
        }
    }
}

/// The vault that an event is about.
pub open spec fn event_vault(ev: StripeEvent) -> Option<Seq<char>> {
    let m = ev.data.object.metadata@;
    if m.contains_key("vault_id"@) {
        Some(m["vault_id"@]@)
    } else {
        None
    }
}

/// Whether an event is newer than what was last applied to a vault's entry.
pub open spec fn beats_entry(f: EntFileView, id: Seq<char>, created: i64) -> bool {
    f.vaults.contains_key(id) ==> match f.vaults[id].last_event_ts {
        Some(ts) => created > ts,
        None => true,
    }
}

/// Whether an event is newer than the removal of a vault's entry.
pub open spec fn beats_tombstone(f: EntFileView, id: Seq<char>, created: i64) -> bool {
    f.removed.contains_key(id) ==> created > f.removed[id]
}

/// The entry that an event gives a vault.
pub open spec fn granted(
    f: EntFileView,
    id: Seq<char>,
    ev: StripeEvent,
    quota: u64,
    now: i64,
) -> EntView {
    EntView {
        quota_bytes: quota,
        tier: Some("pro"@),
        stripe_customer: Some(ev.data.object.customer@),
        stripe_subscription: Some(ev.data.object.id@),
        status: Some(ev.data.object.status@),
        updated_at: Some(now),
        last_event_ts: Some(ev.created),
        extra: if f.vaults.contains_key(id) {
            f.vaults[id].extra
        } else {
            seq![]
        },
    }
}

/// Whether a removal leaves a newer mark than the one that is there.
pub open spec fn marks_removal(f: EntFileView, id: Seq<char>, created: i64) -> bool {
    f.vaults.contains_key(id) || !f.removed.contains_key(id) || f.removed[id] < created
}

/// The file after a verified event, and whether it changed.
pub open spec fn event_applied(f: EntFileView, ev: StripeEvent, quota: u64, now: i64) -> (
    EntFileView,
    bool,
) {
    match event_vault(ev) {
        None => (f, false),
        Some(id) => match action_of(ev.kind@, ev.data.object.status@) {
            Action::Ignore => (f, false),
            Action::Upsert => if beats_entry(f, id, ev.created) && beats_tombstone(
                f,
                id,
                ev.created,
            ) {
                (
                    EntFileView {
                        vaults: f.vaults.insert(id, granted(f, id, ev, quota, now)),
                        removed: f.removed.remove(id),
                        ..f
                    },
                    true,
                )
            } else {
                (f, false)
            },
            Action::Remove => if beats_entry(f, id, ev.created) && marks_removal(
                f,
                id,
                ev.created,
            ) {
                (
                    EntFileView {
                        vaults: f.vaults.remove(id),
                        removed: f.removed.insert(id, ev.created),
                        ..f
                    },
                    true,
                )
            } else {
                (f, false)
            },
        },
    }
}

impl EntFile {
    /// A file without entries.
    pub fn fresh() -> (r: Self)
        ensures
            r@ == (EntFileView {
                version: 1,
                vaults: Map::empty(),
                removed: Map::empty(),
                extra: seq![],
            }),
    {
        let extra: Vec<(String, Json)> = Vec::new();
        let r = EntFile { version: 1, vaults: StrMap::new(), removed: StrMap::new(), extra };
        assert(r@.extra =~= seq![]);
        assert(r@.vaults =~= Map::empty());
        r
    }
}

fn newer_than_entry(file: &EntFile, id: &str, created: i64) -> (r: bool)
    ensures
        r == beats_entry(file@, id@, created),
{
    match file.vaults.get(id) {
        Some(e) => {
            assert(file@.vaults[id@] == e@);
            match e.last_event_ts {
                Some(ts) => created > ts,
                None => true,
            }
        },
        None => true,
    }
}

/// Applies one verified event to the file, and says whether the file changed
/// and must be written. An event must be newer than what was last applied to
/// the entry, and, to give an entitlement, newer than its removal. One of the
/// same time is not applied again, so that a repeated delivery changes nothing.
pub fn apply_event(file: &mut EntFile, ev: &StripeEvent, pro_quota: u64, now: i64) -> (r: bool)
    ensures
        final(file)@ == event_applied(old(file)@, *ev, pro_quota, now).0,
        r == event_applied(old(file)@, *ev, pro_quota, now).1,
{
    let ghost was = file@;
    let sub = &ev.data.object;
    let id: &String = match sub.metadata.get("vault_id") {
        Some(v) => v,
        None => {
            return false;
        },
    };
    match action_for(ev.kind.as_str(), sub.status.as_str()) {
        Action::Ignore => false,
        Action::Upsert => {
            let over_tombstone: bool = match file.removed.get(id.as_str()) {
                Some(ts) => ev.created > *ts,
                None => true,
            };
            if !newer_than_entry(file, id.as_str(), ev.created) || !over_tombstone {
                return false;
            }
            let extra: Vec<(String, Json)> = match file.vaults.get(id.as_str()) {
                Some(e) => {
                    assert(was.vaults[id@] == e@);
                    copy_json_entries(&e.extra)
                },
                None => {
                    let none: Vec<(String, Json)> = Vec::new();
                    assert(json_entries(none@) =~= seq![]);
                    none
                },
            };
            let entry = Entitlement {
                quota_bytes: pro_quota,
                tier: Some("pro".to_owned()),
                stripe_customer: Some(sub.customer.clone()),
                stripe_subscription: Some(sub.id.clone()),
                status: Some(sub.status.clone()),
                updated_at: Some(now),
                last_event_ts: Some(ev.created),
                extra,
            };
            let ghost entry_view = entry@;
            assert(entry_view =~= granted(was, id@, *ev, pro_quota, now));
            file.vaults.insert(id.clone(), entry);
            assert(file@.vaults =~= was.vaults.insert(id@, entry_view));
            let _ = file.removed.remove(id.as_str());
            assert(file@ =~= event_applied(was, *ev, pro_quota, now).0);
            true
        },
        Action::Remove => {
            if !newer_than_entry(file, id.as_str(), ev.created) {
                return false;
            }
            let existed: bool = file.vaults.contains_key(id.as_str());
            let stale: bool = match file.removed.get(id.as_str()) {
                Some(ts) => *ts < ev.created,
                None => true,
            };
            if !existed && !stale {
                return false;
            }
            let _ = file.vaults.remove(id.as_str());
            assert(file@.vaults =~= was.vaults.remove(id@));
            file.removed.insert(id.clone(), ev.created);
            assert(file@ =~= event_applied(was, *ev, pro_quota, now).0);
            true
        },
    }
}

/// What reading the file gave.
pub enum EntRead {
    Missing,
    /// It could not be read or is no JSON of the right shape.
    Unreadable(String),
    File(EntFile),
}

/// The file that counts, or why there is none.
pub open spec fn loaded(read: EntRead) -> Result<EntFileView, Seq<char>> {
    match read {
        EntRead::Missing => Ok(
            EntFileView {
                version: 1,
                vaults: Map::empty(),
                removed: Map::empty(),
                extra: seq![],
            },
        ),
        EntRead::Unreadable(e) => Err(e@),
        EntRead::File(f) => if f.version == 1 {
            Ok(f@)
        } else {
            Err(
                "entitlements version "@ + dec(f.version as nat)
                    + " is not 1 — refusing to rewrite"@,
            )
        },
    }
}

/// Where the entitlements are kept.
pub struct EntStore {
    pub path: String,
}

impl EntStore {
    pub fn new(path: &str) -> (r: Self)
        ensures
            r.path@ == path@,
    {
        EntStore { path: path.to_owned() }
    }

    /// A missing file is a fresh one; one that cannot be read, or has another
    /// version, is never overwritten.
    pub fn load(read: EntRead) -> (r: Result<EntFile, String>)
        ensures
            match loaded(read) {
                Ok(v) => r matches Ok(f) && f@ == v,
                Err(m) => r matches Err(e) && e@ == m,
            },
    {
        match read {
            EntRead::Missing => Ok(EntFile::fresh()),
            EntRead::Unreadable(e) => Err(e),
            EntRead::File(f) => if f.version == 1 {
                Ok(f)
            } else {
                let mut m = "entitlements version ".to_owned();
                m.append(render_u64(f.version as u64).as_str());
                m.append(" is not 1 — refusing to rewrite");
                Err(m)
            },
        }
    }

    /// Applies an event to what was read, and returns the file to write, where
    /// it changed.
    pub fn apply(read: EntRead, ev: &StripeEvent, pro_quota: u64, now: i64) -> (r: Result<
        Option<EntFile>,
        String,
    >)
        ensures
            match loaded(read) {
                Ok(f) => if event_applied(f, *ev, pro_quota, now).1 {
                    r matches Ok(Some(g)) && g@ == event_applied(f, *ev, pro_quota, now).0
                } else {
                    r matches Ok(None)
                },
                Err(m) => r matches Err(e) && e@ == m,
            },
    {
        match EntStore::load(read) {
            Ok(f) => {
                let mut file = f;
                if apply_event(&mut file, ev, pro_quota, now) {
                    Ok(Some(file))
                } else {
                    Ok(None)
                }
            },
            Err(e) => Err(e),
        }
    }
}

// ---------------------------------------------------------------------------
// What holds of every event
// ---------------------------------------------------------------------------

/// A delivery that is repeated changes nothing.
pub proof fn law_repeated_events_change_nothing(
    f: EntFileView,
    ev: StripeEvent,
    quota: u64,
    now: i64,
    later: i64,
)
    ensures
        ({
            let once = event_applied(f, ev, quota, now).0;
            event_applied(once, ev, quota, later) == (once, false)
        }),
{
}

/// An entitlement that was removed comes back only by a newer event.
pub proof fn law_removals_hold_against_older_events(
    f: EntFileView,
    gone: StripeEvent,
    late: StripeEvent,
    quota: u64,
    now: i64,
)
    requires
        event_vault(gone) is Some,
        event_vault(late) == event_vault(gone),
        action_of(gone.kind@, gone.data.object.status@) == Action::Remove,
        beats_entry(f, event_vault(gone)->0, gone.created),
        late.created <= gone.created,
    ensures
        ({
            let after = event_applied(f, gone, quota, now).0;
            &&& !after.vaults.contains_key(event_vault(gone)->0)
            &&& !event_applied(after, late, quota, now).0.vaults.contains_key(event_vault(gone)->0)
        }),
{
}

/// An event touches the entry of its own vault only, and no field that billing
/// does not know.
pub proof fn law_events_leave_the_rest_alone(
    f: EntFileView,
    ev: StripeEvent,
    quota: u64,
    now: i64,
    other: Seq<char>,
)
    ensures
        ({
            let g = event_applied(f, ev, quota, now).0;
            &&& g.version == f.version
            &&& g.extra == f.extra
            &&& event_vault(ev) != Some(other) ==> (g.vaults.contains_key(other)
                == f.vaults.contains_key(other) && (f.vaults.contains_key(other)
                ==> g.vaults[other] == f.vaults[other]) && g.removed.contains_key(other)
                == f.removed.contains_key(other))
            &&& g.vaults.contains_key(other) && f.vaults.contains_key(other)
                ==> g.vaults[other].extra == f.vaults[other].extra
            &&& !event_applied(f, ev, quota, now).1 ==> g == f
        }),
{
}

/// Only the states that are paid for give an entitlement.
pub proof fn law_only_paid_states_grant(
    f: EntFileView,
    ev: StripeEvent,
    quota: u64,
    now: i64,
    id: Seq<char>,
)
    requires
        !f.vaults.contains_key(id),
        event_applied(f, ev, quota, now).0.vaults.contains_key(id),
    ensures
        event_vault(ev) == Some(id),
        ev.data.object.status@ == "active"@ || ev.data.object.status@ == "trialing"@
            || ev.data.object.status@ == "past_due"@,
        event_applied(f, ev, quota, now).0.vaults[id].quota_bytes == quota,
{
}

} // verus!

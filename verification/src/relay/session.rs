//! One connection of a client: what it is answered, and what is stored and
//! fanned out on its behalf. The caller receives frames, performs what it is
//! told, and reports back.
use crate::numbers::{dec, render_u64};
use crate::relay::base64::{b64_bytes, b64_decode, b64_encode, b64_text};
use crate::relay::hub::{is_vault_id, valid_vault_id};
use crate::relay::log::{
    add_refused, blob_refused, commit_refused, committed_snap, covered, entries_view, next_line,
    publishes, refusal_code, since_from, snap_parts, sound, stage_refused, staged, with_part,
    LineView, LogLine, LogState, PartSource, PartStaging, Publication, Refusal, SnapView,
    StagingView, StoreView, TokenCheck, VaultLog, entry_of, readable, StoredView,
};
use crate::relay::wire::{
    capabilities, err, relay_caps, replies_view, ClientMsg, Hello, PartMsg, ReplyView, ServerMsg,
    Welcome, PRESENCE_MAX_B64_LEN,
};
use crate::text::{byte_len, has_string, holds, str_holds, texts, utf8_len};
use vstd::prelude::*;
use vstd::string::*;

verus! {

/// What a client said it can do.
#[derive(Debug, Clone, Copy, PartialEq, Eq, Structural)]
pub struct Caps {
    pub presence: bool,
    pub compact: bool,
    pub compact2: bool,
    pub quota: bool,
}

/// The capabilities that a list names.
pub open spec fn caps_named(list: Seq<Seq<char>>) -> Caps {
    Caps {
        presence: list.contains("presence"@),
        compact: list.contains("compact"@),
        compact2: list.contains("compact2"@),
        quota: list.contains("quota"@),
    }
}

impl Caps {
    /// The capabilities that a list names; others are passed over.
    pub fn of(list: &Vec<String>) -> (r: Self)
        ensures
            r == caps_named(texts(list@)),
    {
        Caps {
            presence: has_string(list, "presence"),
            compact: has_string(list, "compact"),
            compact2: has_string(list, "compact2"),
            quota: has_string(list, "quota"),
        }
    }
}

// ---------------------------------------------------------------------------
// Hello
// ---------------------------------------------------------------------------

/// Why the first frame of a client is rejected; `None` stands for a frame that
/// cannot be read.
pub open spec fn greeting_refused(first: Option<ClientMsg>) -> Option<ReplyView> {
    match first {
        None => Some(ReplyView::Error("protocol"@, "malformed frame"@)),
        Some(ClientMsg::Hello(h)) => if is_vault_id(h.vault_id@) {
            None
        } else {
            Some(ReplyView::Error("bad_vault_id"@, "vault_id must be 32 lowercase hex chars"@))
        },
        Some(_) => Some(ReplyView::Error("protocol"@, "hello must come first"@)),
    }
}

/// The first frame of a client must be a hello for a well-formed vault id.
pub fn greet(first: &Option<ClientMsg>) -> (r: Result<&Hello, ServerMsg>)
    ensures
        match greeting_refused(*first) {
            Some(e) => r matches Err(m) && m@ == e,
            None => r matches Ok(h) && *first == Some(ClientMsg::Hello(*h)),
        },
{
    match first {
        None => Err(err("protocol", "malformed frame")),
        Some(msg) => match msg {
            ClientMsg::Hello(h) => if valid_vault_id(h.vault_id.as_str()) {
                Ok(h)
            } else {
                Err(err("bad_vault_id", "vault_id must be 32 lowercase hex chars"))
            },
            _ => Err(err("protocol", "hello must come first")),
        },
    }
}

/// What the storage can fail at.
#[derive(Debug, Clone, Copy, PartialEq, Eq, Structural)]
pub enum StorageFault {
    Open,
    Token,
    Backlog,
    Append,
}

/// The text of a fault.
pub open spec fn fault_text(f: StorageFault) -> Seq<char> {
    match f {
        StorageFault::Open => "cannot open vault storage"@,
        StorageFault::Token => "token storage failed"@,
        StorageFault::Backlog => "backlog read failed"@,
        StorageFault::Append => "append failed"@,
    }
}

/// What a client is told of a fault.
pub fn storage_failed(f: StorageFault) -> (r: ServerMsg)
    ensures
        r@ == ReplyView::Error("storage"@, fault_text(f)),
{
    match f {
        StorageFault::Open => err("storage", "cannot open vault storage"),
        StorageFault::Token => err("storage", "token storage failed"),
        StorageFault::Backlog => err("storage", "backlog read failed"),
        StorageFault::Append => err("storage", "append failed"),
    }
}

/// What a client is told of its token, where it is not let in.
pub fn token_refusal(check: TokenCheck) -> (r: Option<ServerMsg>)
    ensures
        match check {
            TokenCheck::Refused => r matches Some(m) && m@ == ReplyView::Error(
                "auth"@,
                "wrong token for this vault"@,
            ),
            _ => r is None,
        },
{
    match check {
        TokenCheck::Refused => Some(err("auth", "wrong token for this vault")),
        _ => None,
    }
}

// ---------------------------------------------------------------------------
// Replay
// ---------------------------------------------------------------------------

/// The snapshot that a client who has all up to `since` needs: how far it
/// reaches and how many parts it has.
pub open spec fn snapshot_needed(st: LogState, since: u64) -> Option<(u64, u32)> {
    match st.snapshot {
        Some(s) => if since < s.seq {
            Some((s.seq, snap_parts(st.snapshot)))
        } else {
            None
        },
        None => None,
    }
}

/// From where the entries are replayed.
pub open spec fn replay_from(st: LogState, since: u64) -> u64 {
    match snapshot_needed(st, since) {
        Some(s) => s.0,
        None => since,
    }
}

/// Whether a client can read the snapshot it needs: one of several parts takes
/// a capability of its own.
pub open spec fn can_follow(caps: Caps, needed: Option<(u64, u32)>) -> bool {
    match needed {
        Some(s) => caps.compact && (s.1 <= 1 || caps.compact2),
        None => true,
    }
}

/// What a client is told that cannot read the snapshot it needs.
pub open spec fn compacted_away() -> ReplyView {
    ReplyView::Error("compacted"@, "log compacted past your cursor; upgrade this client"@)
}

/// The update frames of entries.
pub open spec fn updates_of(entries: Seq<(u64, Seq<u8>)>) -> Seq<ReplyView> {
    entries.map_values(|e: (u64, Seq<u8>)| ReplyView::Update(e.0, b64_text(e.1)))
}

/// The cursor of a client once entries were sent.
pub open spec fn cursor_after(entries: Seq<(u64, Seq<u8>)>, before: u64) -> u64 {
    if entries.len() > 0 {
        entries.last().0
    } else {
        before
    }
}

/// What a client needs to catch up: first the snapshot, if it needs one, and
/// then the updates.
pub struct Replay {
    /// How far the snapshot reaches and how many parts it has.
    pub snapshot: Option<(u64, u32)>,
    pub updates: Vec<ServerMsg>,
    /// The cursor of the client once all was sent.
    pub cursor: u64,
}

/// Whether a replay brings a client up to date that has all up to `since`.
pub open spec fn replays(r: Replay, st: LogState, since: u64) -> bool {
    let entries = since_from(st.lines, replay_from(st, since), 0);
    &&& r.snapshot == snapshot_needed(st, since)
    &&& replies_view(r.updates@) == updates_of(entries)
    &&& r.cursor == cursor_after(entries, replay_from(st, since))
}

fn frame_updates(entries: &Vec<(u64, Vec<u8>)>) -> (r: Vec<ServerMsg>)
    ensures
        replies_view(r@) == updates_of(entries_view(entries@)),
{
    let ghost es = entries_view(entries@);
    let mut out: Vec<ServerMsg> = Vec::new();
    let mut i: usize = 0;
    assert(replies_view(out@) =~= updates_of(es.take(0)));
    while i < entries.len()
        invariant
            i <= entries@.len(),
            es == entries_view(entries@),
            replies_view(out@) == updates_of(es.take(i as int)),
        decreases entries@.len() - i,
    {
        let m = ServerMsg::Update(entries[i].0, b64_encode(&entries[i].1));
        assert(es[i as int] == (entries@[i as int].0, entries@[i as int].1@));
        let ghost mv = m@;
        let ghost prev = replies_view(out@);
        out.push(m);
        assert(replies_view(out@) =~= prev.push(mv));
        assert(updates_of(es.take(i + 1)) =~= updates_of(es.take(i as int)).push(mv));
        i = i + 1;
    }
    assert(es.take(i as int) =~= es);
    out
}

/// What a client with a cursor and capabilities is sent to catch up, or the
/// honest error for one that cannot read the snapshot it needs.
pub fn plan_replay(log: &VaultLog, since: u64, caps: Caps) -> (r: Result<Replay, ServerMsg>)
    ensures
        if can_follow(caps, snapshot_needed(log@, since)) {
            r matches Ok(p) && replays(p, log@, since)
        } else {
            r matches Err(m) && m@ == compacted_away()
        },
{
    let needed: Option<(u64, u32)> = match log.snapshot_seq() {
        Some(seq) => if since < seq {
            Some((seq, log.snapshot_parts()))
        } else {
            None
        },
        None => None,
    };
    let from: u64 = match needed {
        Some(s) => s.0,
        None => since,
    };
    match needed {
        Some(s) => {
            if !caps.compact || (s.1 > 1 && !caps.compact2) {
                return Err(
                    err("compacted", "log compacted past your cursor; upgrade this client"),
                );
            }
        },
        None => {},
    }
    let entries = log.read_since(from);
    let n: usize = entries.len();
    let cursor: u64 = if n > 0 {
        assert(entries_view(entries@)[n - 1] == (entries@[n - 1].0, entries@[n - 1].1@));
        entries[n - 1].0
    } else {
        from
    };
    Ok(Replay { snapshot: needed, updates: frame_updates(&entries), cursor })
}

/// Where the next part of the snapshot up to `seq` is; `None` where a newer
/// snapshot has taken its place, or the part is missing: the connection is
/// then closed, and the client comes back for the new one.
pub fn next_part(log: &VaultLog, seq: u64, idx: u32) -> (r: Option<PartSource>)
    ensures
        match log@.snapshot {
            Some(s) => if s.seq != seq || idx >= snap_parts(log@.snapshot) {
                r is None
            } else {
                match s.store {
                    StoreView::Inline(bytes) => r matches Some(PartSource::Inline(b)) && b@
                        == bytes,
                    StoreView::Files(_) => r matches Some(PartSource::File(dir, name)) && dir@
                        == crate::relay::log::parts_dir(seq) && name@ == dec(idx as nat),
                }
            },
            None => r is None,
        },
{
    match log.snapshot_seq() {
        Some(s) => if s == seq {
            log.snapshot_part(idx)
        } else {
            None
        },
        None => None,
    }
}

/// The frame of one part of a snapshot: a snapshot of one part goes as a whole.
pub open spec fn part_frame_of(seq: u64, parts: u32, idx: u32, bytes: Seq<u8>) -> ReplyView {
    if parts == 1 {
        ReplyView::Snapshot(seq, b64_text(bytes))
    } else {
        ReplyView::SnapshotPart(seq, idx, parts, b64_text(bytes))
    }
}

/// The frame of one part of a snapshot.
pub fn part_frame(seq: u64, parts: u32, idx: u32, bytes: &Vec<u8>) -> (r: ServerMsg)
    ensures
        r@ == part_frame_of(seq, parts, idx, bytes@),
{
    let blob = b64_encode(bytes);
    if parts == 1 {
        ServerMsg::Snapshot(seq, blob)
    } else {
        ServerMsg::SnapshotPart(PartMsg { upto_seq: seq, idx, of: parts, blob })
    }
}

// ---------------------------------------------------------------------------
// Refusals of a compaction
// ---------------------------------------------------------------------------

/// What a client is told of a refused compaction. The log is untouched, and
/// the connection lives on.
pub open spec fn refusal_reply(why: Refusal) -> ReplyView {
    ReplyView::Error(refusal_code(why), refusal_code(why))
}

fn refused(why: Refusal) -> (r: ServerMsg)
    ensures
        r@ == refusal_reply(why),
{
    err(why.code(), why.code())
}

/// The first of the known codes that a reason holds.
pub open spec fn known_code(reason: Seq<char>) -> Seq<char> {
    if holds(reason, "compact_stale"@) {
        "compact_stale"@
    } else if holds(reason, "compact_ahead"@) {
        "compact_ahead"@
    } else if holds(reason, "snapshot_too_large"@) {
        "snapshot_too_large"@
    } else if holds(reason, "compact_part_too_large"@) {
        "compact_part_too_large"@
    } else if holds(reason, "compact_too_large"@) {
        "compact_too_large"@
    } else if holds(reason, "compact_part_order"@) {
        "compact_part_order"@
    } else {
        "storage"@
    }
}

/// What a client is told where storing a snapshot failed.
pub fn compact_failed(reason: &str) -> (r: ServerMsg)
    ensures
        r@ == ReplyView::Error(known_code(reason@), reason@),
{
    let code: &str = if str_holds(reason, "compact_stale") {
        "compact_stale"
    } else if str_holds(reason, "compact_ahead") {
        "compact_ahead"
    } else if str_holds(reason, "snapshot_too_large") {
        "snapshot_too_large"
    } else if str_holds(reason, "compact_part_too_large") {
        "compact_part_too_large"
    } else if str_holds(reason, "compact_too_large") {
        "compact_too_large"
    } else if str_holds(reason, "compact_part_order") {
        "compact_part_order"
    } else {
        "storage"
    };
    err(code, reason)
}

// ---------------------------------------------------------------------------
// Sessions
// ---------------------------------------------------------------------------

/// A connection after its hello.
pub struct Session {
    pub caps: Caps,
    /// The cursor: the number of the last update that was sent.
    pub last_sent: u64,
    /// The chunked upload under way.
    pub staging: Option<PartStaging>,
}

/// The model of a connection.
#[verifier::ext_equal]
pub struct SessionView {
    pub caps: Caps,
    pub last_sent: u64,
    pub staging: Option<StagingView>,
}

pub open spec fn opt_staging(s: Option<PartStaging>) -> Option<StagingView> {
    match s {
        Some(x) => Some(x@),
        None => None,
    }
}

impl View for Session {
    type V = SessionView;

    open spec fn view(&self) -> SessionView {
        SessionView {
            caps: self.caps,
            last_sent: self.last_sent,
            staging: opt_staging(self.staging),
        }
    }
}

/// What a connection starts with: the welcome, and what to catch up on.
pub struct Opening {
    pub session: Session,
    pub welcome: ServerMsg,
    pub replay: Replay,
}

/// What to do about a frame.
pub enum FrameStep {
    Reply(ServerMsg),
    /// Write the entry, then acknowledge it and fan the bytes out.
    Append(LogLine, Vec<u8>),
    /// Fan a presence blob out.
    FanPresence(String),
    /// Write the snapshot, then confirm it.
    Publish(Publication),
    /// Write a part, and commit the upload if it was the last.
    StorePart(PartStore),
}

/// A part to write.
pub struct PartStore {
    /// Whether it is the first of an upload.
    pub opens: bool,
    pub idx: u32,
    pub bytes: Vec<u8>,
    /// Whether it is the last of the upload.
    pub complete: bool,
}

/// The model of what to do about a frame.
#[verifier::ext_equal]
pub enum StepView {
    Reply(ReplyView),
    Append(LineView, Seq<u8>),
    FanPresence(Seq<char>),
    Publish(SnapView),
    StorePart(bool, u32, Seq<u8>, bool),
}

/// Whether a step is the one described, for a log in a state at a time.
pub open spec fn step_is(step: FrameStep, v: StepView, st: LogState, ts: u64) -> bool {
    match (step, v) {
        (FrameStep::Reply(m), StepView::Reply(x)) => m@ == x,
        (FrameStep::Append(l, b), StepView::Append(lv, bv)) => l@ == lv && b@ == bv && b64_bytes(
            lv.blob,
        ) == Some(bv),
        (FrameStep::FanPresence(b), StepView::FanPresence(x)) => b@ == x,
        (FrameStep::Publish(p), StepView::Publish(s)) => publishes(p, st, s, ts),
        (FrameStep::StorePart(p), StepView::StorePart(opens, idx, bytes, complete)) => p.opens
            == opens && p.idx == idx && p.bytes@ == bytes && p.complete == complete,
        _ => false,
    }
}

/// A session without an upload.
pub open spec fn without_upload(s: SessionView) -> SessionView {
    SessionView { staging: None, ..s }
}

/// What becomes of a pushed blob.
pub open spec fn push_step(
    s: SessionView,
    st: LogState,
    blob: Seq<char>,
    quota: u64,
    ts: u64,
) -> StepView {
    match b64_bytes(blob) {
        None => StepView::Reply(ReplyView::Error("protocol"@, "push blob is not base64"@)),
        Some(bytes) => if st.size >= quota {
            StepView::Reply(
                ReplyView::Error(
                    if s.caps.quota {
                        "quota_exceeded"@
                    } else {
                        "log_full"@
                    },
                    "vault storage quota exceeded ("@ + dec(quota as nat) + " bytes)"@,
                ),
            )
        } else {
            StepView::Append(next_line(st, bytes, ts), bytes)
        },
    }
}

/// What becomes of a presence blob.
pub open spec fn presence_step(blob: Seq<char>) -> StepView {
    if utf8_len(blob) > PRESENCE_MAX_B64_LEN {
        StepView::Reply(ReplyView::Error("protocol"@, "presence blob too large"@))
    } else {
        StepView::FanPresence(blob)
    }
}

/// What becomes of a snapshot.
pub open spec fn compact_step(st: LogState, upto: u64, blob: Seq<char>, quota: u64) -> StepView {
    match b64_bytes(blob) {
        None => StepView::Reply(ReplyView::Error("protocol"@, "compact blob is not base64"@)),
        Some(bytes) => match blob_refused(st, upto, bytes.len(), quota) {
            Some(why) => StepView::Reply(refusal_reply(why)),
            None => StepView::Publish(SnapView { seq: upto, store: StoreView::Inline(bytes) }),
        },
    }
}

/// Whether a part is the one that comes next.
pub open spec fn in_order(staging: Option<StagingView>, upto: u64, idx: u32, of: u32) -> bool {
    match staging {
        None => idx == 0,
        Some(s) => idx == s.next_idx && upto == s.upto_seq && of == s.of,
    }
}

/// What becomes of a part of a snapshot, and of the session.
pub open spec fn part_step(s: SessionView, st: LogState, p: PartMsg, quota: u64) -> (
    SessionView,
    StepView,
) {
    match b64_bytes(p.blob@) {
        None => (
            without_upload(s),
            StepView::Reply(ReplyView::Error("protocol"@, "compact_part blob is not base64"@)),
        ),
        Some(bytes) => if !in_order(s.staging, p.upto_seq, p.idx, p.of) {
            (
                without_upload(s),
                StepView::Reply(
                    ReplyView::Error(
                        "compact_part_order"@,
                        "parts must arrive in order for one offer"@,
                    ),
                ),
            )
        } else if s.staging is None && stage_refused(st, p.upto_seq, p.of) is Some {
            (s, StepView::Reply(refusal_reply(stage_refused(st, p.upto_seq, p.of)->0)))
        } else {
            let up = match s.staging {
                Some(x) => x,
                None => staged(p.upto_seq, p.of, quota),
            };
            match add_refused(up, bytes.len()) {
                Some(why) => (without_upload(s), StepView::Reply(refusal_reply(why))),
                None => (
                    SessionView { staging: Some(with_part(up, bytes.len())), ..s },
                    StepView::StorePart(
                        s.staging is None,
                        p.idx,
                        bytes,
                        with_part(up, bytes.len()).next_idx == up.of,
                    ),
                ),
            }
        },
    }
}

/// What becomes of a frame, and of the session; `None` stands for a frame that
/// cannot be read.
pub open spec fn frame_step(
    s: SessionView,
    st: LogState,
    frame: Option<ClientMsg>,
    quota: u64,
    ts: u64,
) -> (SessionView, StepView) {
    match frame {
        None => (s, StepView::Reply(ReplyView::Error("protocol"@, "malformed frame"@))),
        Some(ClientMsg::Hello(_)) => (
            s,
            StepView::Reply(ReplyView::Error("protocol"@, "already said hello"@)),
        ),
        Some(ClientMsg::Push(blob)) => (s, push_step(s, st, blob@, quota, ts)),
        Some(ClientMsg::Presence(blob)) => (s, presence_step(blob@)),
        Some(ClientMsg::Compact(upto, blob)) => (s, compact_step(st, upto, blob@, quota)),
        Some(ClientMsg::CompactPart(p)) => part_step(s, st, p, quota),
    }
}

impl Session {
    /// Starts a session after its hello was accepted.
    pub fn start(hello: &Hello, log: &VaultLog, quota: u64) -> (r: Result<Opening, ServerMsg>)
        ensures
            ({
                let caps = caps_named(texts(hello.caps@));
                if can_follow(caps, snapshot_needed(log@, hello.since_seq)) {
                    r matches Ok(o) && replays(o.replay, log@, hello.since_seq) && o.welcome@
                        == ReplyView::Welcome(log@.last_seq, relay_caps(), log@.size, quota)
                        && o.session@ == (SessionView {
                        caps,
                        last_sent: o.replay.cursor,
                        staging: None,
                    })
                } else {
                    r matches Err(m) && m@ == compacted_away()
                }
            }),
    {
        let caps = Caps::of(&hello.caps);
        match plan_replay(log, hello.since_seq, caps) {
            Err(m) => Err(m),
            Ok(replay) => {
                let welcome = ServerMsg::Welcome(
                    Welcome {
                        latest_seq: log.last_seq(),
                        caps: capabilities(),
                        log_bytes: log.log_bytes(),
                        quota_bytes: quota,
                    },
                );
                let session = Session { caps, last_sent: replay.cursor, staging: None };
                Ok(Opening { session, welcome, replay })
            },
        }
    }

    fn on_push(&self, log: &VaultLog, blob: &str, quota: u64, ts: u64) -> (r: FrameStep)
        requires
            log@.last_seq < u64::MAX,
        ensures
            step_is(r, push_step(self@, log@, blob@, quota, ts), log@, ts),
    {
        match b64_decode(blob) {
            None => FrameStep::Reply(err("protocol", "push blob is not base64")),
            Some(bytes) => match log.plan_append(&bytes, ts, quota) {
                Ok(line) => FrameStep::Append(line, bytes),
                Err(_) => {
                    let code: &str = if self.caps.quota {
                        "quota_exceeded"
                    } else {
                        "log_full"
                    };
                    let mut m = "vault storage quota exceeded (".to_owned();
                    m.append(render_u64(quota).as_str());
                    m.append(" bytes)");
                    FrameStep::Reply(err(code, m.as_str()))
                },
            },
        }
    }

    fn on_part(&mut self, log: &VaultLog, p: &PartMsg, quota: u64) -> (r: FrameStep)
        ensures
            final(self)@ == part_step(old(self)@, log@, *p, quota).0,
            forall|ts: u64| #[trigger]
                step_is(r, part_step(old(self)@, log@, *p, quota).1, log@, ts),
    {
        let bytes = match b64_decode(p.blob.as_str()) {
            None => {
                self.staging = None;
                return FrameStep::Reply(err("protocol", "compact_part blob is not base64"));
            },
            Some(b) => b,
        };
        let ordered: bool = match &self.staging {
            None => p.idx == 0,
            Some(s) => p.idx == s.next_idx() && p.upto_seq == s.upto_seq() && p.of == s.of(),
        };
        if !ordered {
            self.staging = None;
            return FrameStep::Reply(
                err("compact_part_order", "parts must arrive in order for one offer"),
            );
        }
        let opens: bool = self.staging.is_none();
        let mut taken: Option<PartStaging> = None;
        std::mem::swap(&mut taken, &mut self.staging);
        let mut up: PartStaging = match taken {
            Some(s) => s,
            None => match log.stage_parts_within(p.upto_seq, p.of, quota) {
                Ok(s) => s,
                Err(why) => {
                    return FrameStep::Reply(refused(why));
                },
            },
        };
        match up.add(&bytes) {
            Err(why) => FrameStep::Reply(refused(why)),
            Ok(()) => {
                let complete: bool = up.next_idx() == up.of();
                self.staging = Some(up);
                FrameStep::StorePart(PartStore { opens, idx: p.idx, bytes, complete })
            },
        }
    }

    /// Decides what to do about a frame, given the vault's quota and the time.
    pub fn on_frame(&mut self, log: &VaultLog, frame: &Option<ClientMsg>, quota: u64, ts: u64) -> (r:
        FrameStep)
        requires
            log@.last_seq < u64::MAX,
        ensures
            final(self)@ == frame_step(old(self)@, log@, *frame, quota, ts).0,
            step_is(r, frame_step(old(self)@, log@, *frame, quota, ts).1, log@, ts),
    {
        match frame {
            None => FrameStep::Reply(err("protocol", "malformed frame")),
            Some(msg) => match msg {
                ClientMsg::Hello(_) => FrameStep::Reply(err("protocol", "already said hello")),
                ClientMsg::Push(blob) => self.on_push(log, blob.as_str(), quota, ts),
                ClientMsg::Presence(blob) => if byte_len(blob.as_str()) > PRESENCE_MAX_B64_LEN {
                    FrameStep::Reply(err("protocol", "presence blob too large"))
                } else {
                    FrameStep::FanPresence(blob.clone())
                },
                ClientMsg::Compact(upto, blob) => match b64_decode(blob.as_str()) {
                    None => FrameStep::Reply(err("protocol", "compact blob is not base64")),
                    Some(bytes) => match log.plan_compact(*upto, &bytes, ts, quota) {
                        Ok(p) => FrameStep::Publish(p),
                        Err(why) => FrameStep::Reply(refused(why)),
                    },
                },
                ClientMsg::CompactPart(p) => self.on_part(log, p, quota),
            },
        }
    }

    /// Commits the upload whose last part was stored; `first` is its first part.
    pub fn finish_upload(&mut self, log: &VaultLog, first: &Vec<u8>, ts: u64) -> (r: Result<
        Publication,
        ServerMsg,
    >)
        requires
            old(self)@.staging is Some,
        ensures
            final(self)@ == without_upload(old(self)@),
            match commit_refused(log@, old(self)@.staging->0, first@) {
                Some(why) => r matches Err(m) && m@ == refusal_reply(why),
                None => r matches Ok(p) && publishes(
                    p,
                    log@,
                    committed_snap(old(self)@.staging->0, first@),
                    ts,
                ),
            },
    {
        let mut taken: Option<PartStaging> = None;
        std::mem::swap(&mut taken, &mut self.staging);
        match taken {
            Some(up) => match log.plan_commit(&up, first, ts) {
                Ok(p) => Ok(p),
                Err(why) => Err(refused(why)),
            },
            None => Err(refused(Refusal::PartOrder)),
        }
    }

    /// Gives an upload up whose part could not be stored.
    pub fn upload_failed(&mut self, reason: &str) -> (r: ServerMsg)
        ensures
            final(self)@ == without_upload(old(self)@),
            r@ == ReplyView::Error(known_code(reason@), reason@),
    {
        self.staging = None;
        compact_failed(reason)
    }

    /// The frame for an update of the vault, unless the client has it already.
    pub fn on_update(&mut self, seq: u64, blob: &Vec<u8>) -> (r: Option<ServerMsg>)
        ensures
            if seq <= old(self)@.last_sent {
                r is None && final(self)@ == old(self)@
            } else {
                r matches Some(m) && m@ == ReplyView::Update(seq, b64_text(blob@)) && final(self)@
                    == (SessionView { last_sent: seq, ..old(self)@ })
            },
    {
        if seq <= self.last_sent {
            return None;
        }
        self.last_sent = seq;
        Some(ServerMsg::Update(seq, b64_encode(blob)))
    }

    /// Catches a client up that fell behind the fan-out, from the log. A
    /// compaction may have come in between: then it gets the snapshot first,
    /// or the error that ends the connection.
    pub fn on_lag(&mut self, log: &VaultLog) -> (r: Result<Replay, ServerMsg>)
        ensures
            if can_follow(old(self)@.caps, snapshot_needed(log@, old(self)@.last_sent)) {
                r matches Ok(p) && replays(p, log@, old(self)@.last_sent) && final(self)@ == (
                SessionView { last_sent: p.cursor, ..old(self)@ })
            } else {
                r matches Err(m) && m@ == compacted_away() && final(self)@ == old(self)@
            },
    {
        match plan_replay(log, self.last_sent, self.caps) {
            Ok(p) => {
                self.last_sent = p.cursor;
                Ok(p)
            },
            Err(m) => Err(m),
        }
    }
}

// ---------------------------------------------------------------------------
// What holds of every session
// ---------------------------------------------------------------------------

proof fn lemma_entries_above(ls: Seq<StoredView>, since: u64, i: int)
    requires
        0 <= i <= ls.len(),
    ensures
        forall|k: int|
            0 <= k < since_from(ls, since, i).len() ==> (#[trigger] since_from(ls, since, i)[k]).0
                > since && exists|j: int|
                i <= j < ls.len() && (#[trigger] ls[j]).line is Some && ls[j].line->0.seq
                    == since_from(ls, since, i)[k].0,
        forall|j: int|
            i <= j < ls.len() && readable(#[trigger] ls[j]) && ls[j].line->0.seq > since
                ==> since_from(ls, since, i).contains(
                (ls[j].line->0.seq, b64_bytes(ls[j].line->0.blob)->0),
            ),
    decreases ls.len() - i,
{
    if i < ls.len() {
        lemma_entries_above(ls, since, i + 1);
        let all = since_from(ls, since, i);
        let one = entry_of(ls[i], since);
        let rest = since_from(ls, since, i + 1);
        assert(all =~= one + rest);
        assert forall|k: int| 0 <= k < all.len() implies (#[trigger] all[k]).0 > since && exists|
            j: int,
        |
            i <= j < ls.len() && (#[trigger] ls[j]).line is Some && ls[j].line->0.seq
                == all[k].0 by {
            if k < one.len() {
                assert(all[k] == one[k]);
                assert(ls[i].line is Some);
            } else {
                assert(all[k] == rest[k - one.len()]);
                let j = choose|j: int|
                    i + 1 <= j < ls.len() && (#[trigger] ls[j]).line is Some && ls[j].line->0.seq
                        == rest[k - one.len()].0;
                assert(ls[j].line->0.seq == all[k].0);
            }
        }
        assert forall|j: int|
            i <= j < ls.len() && readable(#[trigger] ls[j]) && ls[j].line->0.seq > since implies all.contains(
            (ls[j].line->0.seq, b64_bytes(ls[j].line->0.blob)->0),
        ) by {
            let e = (ls[j].line->0.seq, b64_bytes(ls[j].line->0.blob)->0);
            if j == i {
                assert(all[0] == e);
            } else {
                let k = choose|k: int| 0 <= k < rest.len() && rest[k] == e;
                assert(all[k + one.len()] == e);
            }
        }
    }
}

proof fn lemma_entries_ascend(ls: Seq<StoredView>, since: u64, i: int)
    requires
        0 <= i <= ls.len(),
        crate::relay::log::numbers_ascend(ls),
    ensures
        forall|a: int, b: int|
            0 <= a < b < since_from(ls, since, i).len() ==> (#[trigger] since_from(
                ls,
                since,
                i,
            )[a]).0 < (#[trigger] since_from(ls, since, i)[b]).0,
    decreases ls.len() - i,
{
    if i < ls.len() {
        lemma_entries_ascend(ls, since, i + 1);
        lemma_entries_above(ls, since, i + 1);
        let all = since_from(ls, since, i);
        let one = entry_of(ls[i], since);
        let rest = since_from(ls, since, i + 1);
        assert(all =~= one + rest);
        assert forall|a: int, b: int| 0 <= a < b < all.len() implies (#[trigger] all[a]).0 < (
        #[trigger] all[b]).0 by {
            assert(one.len() <= 1);
            assert(all[b] == rest[b - one.len()]);
            if a < one.len() {
                assert(all[a] == one[a]);
                let j = choose|j: int|
                    i + 1 <= j < ls.len() && (#[trigger] ls[j]).line is Some && ls[j].line->0.seq
                        == rest[b - one.len()].0;
                assert(ls[i].line->0.seq < ls[j].line->0.seq);
            } else {
                assert(all[a] == rest[a - one.len()]);
            }
        }
    }
}

/// A replay has no gap and repeats nothing: the updates come in the order of
/// their numbers, all above what the client has; every entry of the log above
/// that is among them, and what is missing from the log the snapshot covers.
pub proof fn law_replay_has_no_gap(st: LogState, since: u64)
    requires
        sound(st),
    ensures
        ({
            let entries = since_from(st.lines, replay_from(st, since), 0);
            &&& replay_from(st, since) >= since
            &&& replay_from(st, since) >= covered(st.snapshot)
            &&& forall|k: int| 0 <= k < entries.len() ==> (#[trigger] entries[k]).0 > since
            &&& forall|a: int, b: int|
                0 <= a < b < entries.len() ==> (#[trigger] entries[a]).0 < (
                #[trigger] entries[b]).0
            &&& forall|j: int|
                0 <= j < st.lines.len() && (#[trigger] st.lines[j]).line->0.seq > since
                    ==> entries.contains(
                    (st.lines[j].line->0.seq, b64_bytes(st.lines[j].line->0.blob)->0),
                )
            &&& cursor_after(entries, replay_from(st, since)) >= since
        }),
{
    let from = replay_from(st, since);
    lemma_entries_above(st.lines, from, 0);
    lemma_entries_ascend(st.lines, from, 0);
    let entries = since_from(st.lines, from, 0);
    assert forall|j: int|
        0 <= j < st.lines.len() && (#[trigger] st.lines[j]).line->0.seq > since implies entries.contains(
        (st.lines[j].line->0.seq, b64_bytes(st.lines[j].line->0.blob)->0),
    ) by {
        assert(readable(st.lines[j]));
    }
}

/// No client receives a frame it cannot read: a snapshot goes only to clients
/// that asked for snapshots, and one of several parts only to those that asked
/// for parts.
pub proof fn law_frames_need_their_capability(caps: Caps, st: LogState, since: u64)
    ensures
        match snapshot_needed(st, since) {
            Some(s) => since < s.0 && (can_follow(caps, Some(s)) ==> caps.compact && (s.1 > 1
                ==> caps.compact2)),
            None => can_follow(caps, None),
        },
        since >= covered(st.snapshot) ==> can_follow(caps, snapshot_needed(st, since)),
{
}

/// A refused or malformed frame changes nothing that is stored: the upload
/// under way at most is given up, and the cursor stays.
pub proof fn law_frames_keep_the_cursor(
    s: SessionView,
    st: LogState,
    frame: Option<ClientMsg>,
    quota: u64,
    ts: u64,
)
    ensures
        frame_step(s, st, frame, quota, ts).0.last_sent == s.last_sent,
        frame_step(s, st, frame, quota, ts).0.caps == s.caps,
        frame_step(s, st, frame, quota, ts).1 is Reply ==> frame_step(
            s,
            st,
            frame,
            quota,
            ts,
        ).0.staging is None || frame_step(s, st, frame, quota, ts).0.staging == s.staging,
{
}

} // verus!

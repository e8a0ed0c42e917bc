//! The relay: its storage, its quotas, and what a connection is answered.
use base64::engine::general_purpose::STANDARD;
use base64::Engine;
use tacitus::relay::hub::{
    valid_vault_id, EntitlementsCache, EntitlementsRead, FileKey, RelayConfig,
};
use tacitus::relay::log::{
    check_or_register_token, part_cap_violation, stale_dir, Found, LogFile, LogLine, Opened,
    PartDir, PartSource, Publication, Refusal, SnapFile, SnapshotStore, TokenCheck, VaultLog,
    LOG_CAP_BYTES, SNAPSHOT_MAX, SNAPSHOT_TOTAL_MAX,
};
use tacitus::relay::session::{
    compact_failed, greet, next_part, part_frame, plan_replay, storage_failed, token_refusal, Caps,
    FrameStep, Replay, Session, StorageFault,
};
use tacitus::relay::wire::{ClientMsg, Hello, PartMsg, ServerMsg};

fn nothing() -> Found {
    Found { log: None, spare: None, snapshot: None, dirs: vec![] }
}

fn empty() -> VaultLog {
    VaultLog::open(nothing()).log
}

fn with(blobs: &[&[u8]]) -> VaultLog {
    let mut log = empty();
    for (i, b) in blobs.iter().enumerate() {
        assert_eq!(log.append(&b.to_vec(), 7).unwrap(), i as u64 + 1);
    }
    log
}

/// The text of a log with lines 1 to `n`, each with its own number as blob.
fn raw_log(n: u8) -> String {
    let mut out = String::new();
    for i in 1..=n {
        let line = LogLine { seq: i as u64, ts: 0, blob: STANDARD.encode([i]) };
        out.push_str(&line.to_json());
        out.push('\n');
    }
    out
}

/// Reads a log file back, as a JSON parser sees its lines.
fn file(raw: &str) -> LogFile {
    let entries = raw
        .lines()
        .map(|l| {
            let v: serde_json::Value = serde_json::from_str(l).ok()?;
            Some(LogLine {
                seq: v["seq"].as_u64()?,
                ts: v["ts"].as_u64()?,
                blob: v["blob"].as_str()?.to_string(),
            })
        })
        .collect();
    LogFile::read(raw, &entries)
}

fn snapshot(raw: &str) -> SnapFile {
    let v: serde_json::Value = serde_json::from_str(raw).unwrap();
    SnapFile {
        seq: v["seq"].as_u64().unwrap(),
        ts: v["ts"].as_u64().unwrap(),
        blob: v["blob"].as_str().map(|s| s.to_string()),
        parts: v["parts"].as_u64().map(|n| n as u32),
    }
}

fn parts_on_disk(seq: u64, n: u32) -> PartDir {
    PartDir {
        name: format!("snapshot.parts.{seq}"),
        files: (0..n).map(|i| i.to_string()).collect(),
    }
}

fn commit_chunked(log: &mut VaultLog, upto: u64, parts: &[&[u8]]) -> Result<(), Refusal> {
    let mut staging = log.stage_parts(upto, parts.len() as u32)?;
    for part in parts {
        staging.add(&part.to_vec())?;
    }
    log.commit_parts(staging, &parts[0].to_vec(), 7)
}

fn inline(log: &VaultLog, idx: u32) -> Vec<u8> {
    match log.snapshot_part(idx).unwrap() {
        PartSource::Inline(b) => b,
        PartSource::File(..) => panic!("not inline"),
    }
}

fn place(log: &VaultLog, idx: u32) -> (String, String) {
    match log.snapshot_part(idx).unwrap() {
        PartSource::File(dir, name) => (dir, name),
        PartSource::Inline(_) => panic!("not in a file"),
    }
}

#[test]
fn push_assigns_monotonic_seqs_and_persists_jsonl() {
    let mut log = empty();
    let mut raw = String::new();
    for (blob, seq) in [("one", 1), ("two", 2), ("three", 3)] {
        let line = log.plan_append(&blob.as_bytes().to_vec(), 9, LOG_CAP_BYTES).unwrap();
        assert_eq!(line.seq, seq);
        raw.push_str(&line.to_json());
        raw.push('\n');
        log.record(line);
    }
    assert_eq!(raw.lines().count(), 3);
    assert_eq!(raw.lines().next().unwrap(), r#"{"seq":1,"ts":9,"blob":"b25l"}"#);
    assert_eq!(log.log_bytes(), raw.len() as u64);
}

#[test]
fn backlog_replays_from_since_seq() {
    let log = with(&[b"one", b"two", b"three"]);
    assert_eq!(log.read_since(1), vec![(2, b"two".to_vec()), (3, b"three".to_vec())]);
    assert!(log.read_since(3).is_empty());
}

#[test]
fn restart_recovers_last_seq_from_log() {
    let mut found = nothing();
    found.log = Some(file(&raw_log(2)));
    let mut reopened = VaultLog::open(found).log;
    assert_eq!(reopened.last_seq(), 2);
    assert_eq!(reopened.append(&b"three".to_vec(), 0).unwrap(), 3);
}

#[test]
fn unreadable_lines_of_a_log_are_passed_over() {
    let mut found = nothing();
    let raw = format!("{}garbage\n{{\"seq\":9,\"ts\":0,\"blob\":\"%\"}}\ntorn", raw_log(2));
    found.log = Some(file(&raw));
    let log = VaultLog::open(found).log;
    assert_eq!(log.last_seq(), 9, "the number counts though the blob is lost");
    assert_eq!(log.read_since(0), vec![(1, vec![1]), (2, vec![2])]);
}

#[test]
fn hello_with_new_vault_registers_token_tofu() {
    assert_eq!(check_or_register_token(None, "secret-token-1"), TokenCheck::Register);
    let stored = Some("secret-token-1");
    assert_eq!(check_or_register_token(stored, "secret-token-1"), TokenCheck::Accepted);
    assert_eq!(check_or_register_token(stored, "wrong-token"), TokenCheck::Refused);
    assert_eq!(check_or_register_token(stored, "secret-token-2"), TokenCheck::Refused);
    assert_eq!(check_or_register_token(Some(" t "), " t "), TokenCheck::Accepted);
    assert_eq!(check_or_register_token(Some(" t "), "t"), TokenCheck::Refused);
}

#[test]
fn compact_truncates_log_and_preserves_tail() {
    let mut log = with(&[&[1], &[2], &[3], &[4], &[5]]);
    log.compact(3, &b"snapshot-blob".to_vec(), 7).unwrap();
    assert_eq!(log.read_since(0), vec![(4, vec![4]), (5, vec![5])]);
    assert_eq!(log.snapshot_seq(), Some(3));
    assert_eq!(log.snapshot_parts(), 1);
    assert_eq!(inline(&log, 0), b"snapshot-blob");
    assert_eq!(log.append(&b"six".to_vec(), 7).unwrap(), 6);
}

#[test]
fn compact_rejects_stale_future_and_oversize() {
    let mut log = with(&[&[1], &[2], &[3], &[4]]);
    log.compact(3, &b"snap".to_vec(), 7).unwrap();
    assert_eq!(log.compact(3, &b"again".to_vec(), 7), Err(Refusal::Stale));
    assert_eq!(log.compact(2, &b"again".to_vec(), 7), Err(Refusal::Stale));
    assert_eq!(log.compact(99, &b"future".to_vec(), 7), Err(Refusal::Ahead));
    let huge = vec![0u8; SNAPSHOT_MAX + 1];
    assert_eq!(log.compact(4, &huge, 7), Err(Refusal::SnapshotTooLarge));
    assert_eq!(log.snapshot_seq(), Some(3));
    assert_eq!(log.read_since(0), vec![(4, vec![4])]);
}

#[test]
fn reopen_after_compact_recovers_last_seq_from_snapshot() {
    let mut log = with(&[b"one", b"two"]);
    let p = log.plan_compact(2, &b"snap".to_vec(), 5, LOG_CAP_BYTES).unwrap();
    assert_eq!(p.log_text, "");
    assert_eq!(p.snapshot_json, r#"{"seq":2,"ts":5,"blob":"c25hcA=="}"#);
    let mut found = nothing();
    found.log = Some(file(&p.log_text));
    found.snapshot = Some(snapshot(&p.snapshot_json));
    log.publish(p);
    assert!(log.read_since(0).is_empty());

    let mut reopened = VaultLog::open(found).log;
    assert_eq!(reopened.last_seq(), 2, "last_seq comes from the snapshot");
    assert_eq!(reopened.snapshot_seq(), Some(2));
    assert_eq!(inline(&reopened, 0), b"snap");
    assert_eq!(reopened.append(&b"three".to_vec(), 7).unwrap(), 3);
}

#[test]
fn reopen_heals_interrupted_compact() {
    // The snapshot was written, the log not yet truncated.
    let mut found = nothing();
    found.log = Some(file(&raw_log(3)));
    let blob = STANDARD.encode(b"snap");
    found.snapshot = Some(SnapFile { seq: 2, ts: 0, blob: Some(blob.clone()), parts: None });
    let opened: Opened = VaultLog::open(found);
    assert_eq!(
        opened.log.read_since(0),
        vec![(3, vec![3])],
        "entries at or below the snapshot are pruned on open"
    );
    assert_eq!(opened.log.last_seq(), 3);
    assert_eq!(opened.rewritten.unwrap().lines().count(), 1);
    assert!(!opened.restore_log);

    // Between the two renames: the tail lies in the spare file alone.
    let mut found = nothing();
    found.spare = Some(file(raw_log(3).lines().last().unwrap()));
    found.snapshot = Some(SnapFile { seq: 2, ts: 0, blob: Some(blob), parts: None });
    let mut opened = VaultLog::open(found);
    assert!(opened.restore_log);
    assert!(opened.rewritten.is_none());
    assert_eq!(opened.log.read_since(0), vec![(3, vec![3])]);
    assert_eq!(opened.log.last_seq(), 3);
    assert_eq!(opened.log.append(&b"four".to_vec(), 7).unwrap(), 4);
}

#[test]
fn chunked_commit_stores_parts_serves_them_and_truncates_log() {
    let mut log = with(&[&[1], &[2], &[3], &[4], &[5]]);
    let mut staging = log.stage_parts(3, 2).unwrap();
    staging.add(&b"part-zero".to_vec()).unwrap();
    staging.add(&b"part-one".to_vec()).unwrap();
    let p = log.plan_commit(&staging, &b"part-zero".to_vec(), 5).unwrap();
    assert_eq!(p.snapshot_json, r#"{"seq":3,"ts":5,"parts":2}"#);
    log.publish(p);
    assert_eq!(log.snapshot_seq(), Some(3));
    assert_eq!(log.snapshot_parts(), 2);
    assert_eq!(place(&log, 0), ("snapshot.parts.3".to_string(), "0".to_string()));
    assert_eq!(place(&log, 1), ("snapshot.parts.3".to_string(), "1".to_string()));
    assert!(log.snapshot_part(2).is_none());
    assert_eq!(log.read_since(0), vec![(4, vec![4]), (5, vec![5])]);
    assert_eq!(log.append(&b"six".to_vec(), 7).unwrap(), 6);
}

#[test]
fn single_part_commit_writes_v1_format() {
    let mut log = with(&[&[1], &[2], &[3]]);
    let mut staging = log.stage_parts(2, 1).unwrap();
    staging.add(&b"solo".to_vec()).unwrap();
    let p = log.plan_commit(&staging, &b"solo".to_vec(), 5).unwrap();
    assert!(p.snapshot_json.contains("\"blob\"") && !p.snapshot_json.contains("\"parts\""));
    assert!(matches!(p.store, SnapshotStore::Inline(_)));
    log.publish(p);
    assert_eq!(log.snapshot_parts(), 1);
    assert_eq!(inline(&log, 0), b"solo");
}

#[test]
fn chunked_commit_rejects_stale_ahead_oversize_and_incomplete() {
    let mut log = with(&[&[1], &[2], &[3], &[4]]);
    commit_chunked(&mut log, 3, &[b"p0", b"p1"]).unwrap();

    assert_eq!(log.stage_parts(3, 2).unwrap_err().code(), "compact_stale");
    assert_eq!(log.stage_parts(99, 2).unwrap_err().code(), "compact_ahead");
    assert_eq!(log.stage_parts(4, 0).unwrap_err().code(), "compact_part_order");
    let mut staging = log.stage_parts(4, 1).unwrap();
    staging.add(&b"only".to_vec()).unwrap();
    assert_eq!(staging.add(&b"extra".to_vec()).unwrap_err().code(), "compact_part_order");
    let staging = log.stage_parts(4, 2).unwrap();
    let e = log.commit_parts(staging, &b"p0".to_vec(), 7).unwrap_err();
    assert_eq!(e.code(), "compact_part_order");
    assert_eq!(part_cap_violation(0, SNAPSHOT_MAX + 1), Some("compact_part_too_large"));
    assert_eq!(part_cap_violation(SNAPSHOT_TOTAL_MAX - 10, 11), Some("compact_too_large"));
    assert_eq!(part_cap_violation(SNAPSHOT_TOTAL_MAX - 10, 10), None);
    assert_eq!(part_cap_violation(u64::MAX, 1), Some("compact_too_large"));
    assert_eq!(log.snapshot_seq(), Some(3));
    assert_eq!(log.snapshot_parts(), 2);
}

#[test]
fn reopen_after_chunked_compact_recovers_seq_and_parts() {
    let mut found = nothing();
    found.log = Some(file(""));
    found.snapshot = Some(snapshot(r#"{"seq":2,"ts":5,"parts":2}"#));
    found.dirs = vec![parts_on_disk(2, 2)];
    let mut reopened = VaultLog::open(found).log;
    assert_eq!(reopened.last_seq(), 2);
    assert_eq!(reopened.snapshot_seq(), Some(2));
    assert_eq!(reopened.snapshot_parts(), 2);
    assert_eq!(place(&reopened, 1).1, "1");
    assert_eq!(reopened.append(&b"three".to_vec(), 7).unwrap(), 3);
}

#[test]
fn reopen_sweeps_stale_staging_and_orphan_part_dirs() {
    let mut found = nothing();
    found.log = Some(file(raw_log(3).lines().last().unwrap()));
    found.snapshot = Some(snapshot(r#"{"seq":2,"ts":5,"parts":2}"#));
    found.dirs = vec![
        PartDir { name: "snapshot.staging.123-0".to_string(), files: vec!["0".to_string()] },
        PartDir { name: "snapshot.parts.1".to_string(), files: vec![] },
        parts_on_disk(2, 2),
        PartDir { name: "snapshot.parts.x".to_string(), files: vec![] },
        PartDir { name: "other".to_string(), files: vec![] },
    ];
    let opened = VaultLog::open(found);
    assert_eq!(
        opened.sweep,
        ["snapshot.staging.123-0", "snapshot.parts.1", "snapshot.parts.x"]
    );
    assert_eq!(opened.log.snapshot_parts(), 2, "the committed generation survives the sweep");
    assert!(!stale_dir("snapshot.staging.123-0", 2, false), "a live upload is left alone");
}

#[test]
fn dropped_staging_removes_its_dir_and_v2_with_missing_parts_is_no_snapshot() {
    let mut found = nothing();
    found.log = Some(file(raw_log(3).lines().last().unwrap()));
    found.snapshot = Some(snapshot(r#"{"seq":2,"ts":5,"parts":2}"#));
    found.dirs = vec![parts_on_disk(2, 1)];
    let log = VaultLog::open(found).log;
    assert_eq!(log.snapshot_seq(), None);
    assert_eq!(log.snapshot_parts(), 0);
    assert!(log.snapshot_part(0).is_none());
}

#[test]
fn a_full_log_refuses_entries_but_not_a_snapshot() {
    let mut found = nothing();
    let mut f = file(&raw_log(1));
    f.size = LOG_CAP_BYTES;
    found.log = Some(f);
    let mut log = VaultLog::open(found).log;
    assert_eq!(log.append(&b"x".to_vec(), 7), Err(Refusal::LogFull));
    assert_eq!(log.append_within(&b"x".to_vec(), 7, 10), Err(Refusal::QuotaExceeded));
    log.compact(1, &b"snap".to_vec(), 7).unwrap();
    assert_eq!(log.log_bytes(), 0);
    assert_eq!(log.append(&b"x".to_vec(), 7).unwrap(), 2);
}

fn key(len: u64) -> Option<FileKey> {
    Some(FileKey { secs: 1, nanos: 0, len })
}

#[test]
fn quota_for_defaults_reloads_and_keeps_last_good() {
    let mut config = RelayConfig::new("/data");
    assert_eq!(config.entitlements_path, "/data/entitlements.json");
    config.default_quota_bytes = 100;
    let vid = "a1".repeat(16);
    let mut cache = EntitlementsCache::new();
    let none = EntitlementsRead::Unreadable(String::new());
    let grants = |q: u64| EntitlementsRead::File(1, vec![(vid.clone(), q)]);

    assert_eq!(cache.quota_for(&config, &vid, None, &none).quota, 100);
    assert_eq!(cache.quota_for(&config, &vid, key(10), &grants(500)).quota, 500);
    let other = "b2".repeat(16);
    assert_eq!(
        cache.quota_for(&config, &other, key(10), &none).quota,
        100,
        "unentitled vaults keep the default"
    );

    let garbage = EntitlementsRead::Unreadable("expected value".to_string());
    let answer = cache.quota_for(&config, &vid, key(11), &garbage);
    assert_eq!(answer.quota, 500);
    assert_eq!(
        answer.complaint.unwrap(),
        "entitlements file /data/entitlements.json unreadable, keeping last good set: expected value"
    );
    let again = cache.quota_for(&config, &vid, key(11), &garbage);
    assert!(again.complaint.is_none(), "one complaint for each generation of the file");

    assert_eq!(cache.quota_for(&config, &vid, key(12), &grants(900)).quota, 900);
    let newer = EntitlementsRead::File(2, vec![]);
    let answer = cache.quota_for(&config, &vid, key(13), &newer);
    assert_eq!(answer.quota, 900);
    assert!(answer.complaint.unwrap().ends_with("unknown version 2"));
    assert_eq!(cache.quota_for(&config, &vid, None, &none).quota, 100);
}

#[test]
fn the_relay_takes_its_quota_from_a_variable() {
    let quota = |raw: &str| RelayConfig::from_vars("/d", Some(raw), None).default_quota_bytes;
    assert_eq!(quota("1000"), 1000);
    for bad in ["0", "-1", "lots", "", "18446744073709551616"] {
        assert_eq!(quota(bad), LOG_CAP_BYTES, "{bad:?}");
    }
    let c = RelayConfig::from_vars("/d", None, Some("/e.json"));
    assert_eq!(c.entitlements_path, "/e.json");
}

#[test]
fn rejects_malformed_vault_id() {
    assert!(valid_vault_id(&"a1".repeat(16)));
    assert!(!valid_vault_id("../../etc/passwd"));
    assert!(!valid_vault_id(&"A1".repeat(16))); // uppercase
    assert!(!valid_vault_id(&"a1".repeat(15))); // short
    assert!(!valid_vault_id(&"zz".repeat(16))); // non-hex
    assert!(!valid_vault_id(""));
}

// ---------------------------------------------------------------------------
// Connections
// ---------------------------------------------------------------------------

/// A relay for one vault: its log, the part files, and what is fanned out.
struct Relay {
    log: VaultLog,
    staged: Vec<Vec<u8>>,
    parts: Vec<Vec<u8>>,
    fanned: Vec<(u64, Vec<u8>)>,
    presence: Vec<String>,
    quota: u64,
    /// The snapshot record and the log that were written last.
    written: Option<(String, String)>,
}

impl Relay {
    fn new(quota: u64) -> Self {
        Relay {
            log: empty(),
            staged: vec![],
            parts: vec![],
            fanned: vec![],
            presence: vec![],
            quota,
            written: None,
        }
    }

    /// The session of a client, its welcome and what it is sent to catch up.
    fn join(&self, since_seq: u64, caps: &[&str]) -> Result<(Session, Vec<ServerMsg>), ServerMsg> {
        let hello = Hello {
            vault_id: "d".repeat(32),
            token: "tok".to_string(),
            since_seq,
            caps: caps.iter().map(|c| c.to_string()).collect(),
        };
        let opening = Session::start(&hello, &self.log, self.quota)?;
        let mut frames = vec![opening.welcome];
        frames.extend(self.caught_up(opening.replay));
        Ok((opening.session, frames))
    }

    fn caught_up(&self, replay: Replay) -> Vec<ServerMsg> {
        let mut frames = vec![];
        if let Some((seq, parts)) = replay.snapshot {
            for idx in 0..parts {
                let bytes = match next_part(&self.log, seq, idx).unwrap() {
                    PartSource::Inline(b) => b,
                    PartSource::File(_, name) => self.parts[name.parse::<usize>().unwrap()].clone(),
                };
                frames.push(part_frame(seq, parts, idx, &bytes));
            }
        }
        frames.extend(replay.updates);
        frames
    }

    fn publish(&mut self, p: Publication) -> Option<ServerMsg> {
        let seq = p.seq;
        self.written = Some((p.snapshot_json.clone(), p.log_text.clone()));
        self.log.publish(p);
        Some(ServerMsg::Compacted(seq))
    }

    /// What a frame is answered, after all that it asks for was done.
    fn send(&mut self, session: &mut Session, msg: Option<ClientMsg>) -> Option<ServerMsg> {
        match session.on_frame(&self.log, &msg, self.quota, 7) {
            FrameStep::Reply(m) => Some(m),
            FrameStep::Append(line, bytes) => {
                let seq = line.seq;
                self.log.record(line);
                self.fanned.push((seq, bytes));
                Some(ServerMsg::Ack(seq))
            }
            FrameStep::FanPresence(blob) => {
                self.presence.push(blob);
                None
            }
            FrameStep::Publish(p) => self.publish(p),
            FrameStep::StorePart(p) => {
                if p.opens {
                    self.staged.clear();
                }
                self.staged.push(p.bytes);
                if !p.complete {
                    return None;
                }
                let first = self.staged[0].clone();
                match session.finish_upload(&self.log, &first, 7) {
                    Ok(publication) => {
                        self.parts = std::mem::take(&mut self.staged);
                        self.publish(publication)
                    }
                    Err(m) => Some(m),
                }
            }
        }
    }

    fn push(&mut self, session: &mut Session, blob: &[u8]) -> ServerMsg {
        self.send(session, Some(ClientMsg::Push(STANDARD.encode(blob)))).unwrap()
    }

    fn compact(&mut self, session: &mut Session, upto: u64, blob: &[u8]) -> ServerMsg {
        self.send(session, Some(ClientMsg::Compact(upto, STANDARD.encode(blob)))).unwrap()
    }

    fn part(
        &mut self,
        session: &mut Session,
        upto_seq: u64,
        idx: u32,
        of: u32,
        blob: &[u8],
    ) -> Option<ServerMsg> {
        let blob = STANDARD.encode(blob);
        self.send(session, Some(ClientMsg::CompactPart(PartMsg { upto_seq, idx, of, blob })))
    }
}

const COMPACT: [&str; 2] = ["presence", "compact"];
const COMPACT2: [&str; 3] = ["presence", "compact", "compact2"];
const QUOTA: [&str; 4] = ["presence", "compact", "compact2", "quota"];

fn code(m: &ServerMsg) -> &str {
    match m {
        ServerMsg::Error(code, _) => code,
        other => panic!("{other:?}"),
    }
}

/// A short word for each frame.
fn seen(frames: &[ServerMsg]) -> Vec<String> {
    frames
        .iter()
        .map(|m| match m {
            ServerMsg::Welcome(w) => format!("welcome {}", w.latest_seq),
            ServerMsg::Update(seq, _) => format!("update {seq}"),
            ServerMsg::Ack(seq) => format!("ack {seq}"),
            ServerMsg::Error(code, _) => format!("err {code}"),
            ServerMsg::Presence(_) => "presence".to_string(),
            ServerMsg::Snapshot(upto, blob) => format!("snapshot {upto} {}", text(blob)),
            ServerMsg::SnapshotPart(p) => {
                format!("part {} {}/{} {}", p.upto_seq, p.idx, p.of, text(&p.blob))
            }
            ServerMsg::Compacted(upto) => format!("compacted {upto}"),
        })
        .collect()
}

fn text(blob: &str) -> String {
    String::from_utf8(STANDARD.decode(blob).unwrap()).unwrap()
}

fn compacted_relay() -> Relay {
    let mut relay = Relay::new(LOG_CAP_BYTES);
    let (mut s, _) = relay.join(0, &COMPACT).unwrap();
    for blob in ["one", "two", "three"] {
        relay.push(&mut s, blob.as_bytes());
    }
    let reply = relay.compact(&mut s, 2, b"snapshot-of-1-and-2");
    assert_eq!(seen(&[reply]), ["compacted 2"]);
    relay
}

fn chunked_relay() -> Relay {
    let mut relay = Relay::new(LOG_CAP_BYTES);
    let (mut s, _) = relay.join(0, &COMPACT2).unwrap();
    for blob in ["one", "two", "three"] {
        relay.push(&mut s, blob.as_bytes());
    }
    assert!(relay.part(&mut s, 2, 0, 2, b"part-zero").is_none());
    let reply = relay.part(&mut s, 2, 1, 2, b"part-one").unwrap();
    assert_eq!(seen(&[reply]), ["compacted 2"]);
    relay
}

#[test]
fn welcome_advertises_compact_cap_and_log_bytes() {
    let mut relay = Relay::new(140);
    let (mut s, frames) = relay.join(0, &COMPACT).unwrap();
    match &frames[0] {
        ServerMsg::Welcome(w) => {
            assert_eq!(w.caps, QUOTA);
            assert_eq!(w.log_bytes, 0, "empty vault, empty log");
            assert_eq!(w.quota_bytes, 140);
        }
        other => panic!("{other:?}"),
    }
    relay.push(&mut s, b"some-blob");
    match &relay.join(1, &COMPACT).unwrap().1[0] {
        ServerMsg::Welcome(w) => assert!(w.log_bytes > 0),
        other => panic!("{other:?}"),
    }
}

fn welcome_of(frames: &[ServerMsg]) -> (Vec<String>, u64) {
    match &frames[0] {
        ServerMsg::Welcome(w) => {
            (w.caps.iter().map(|c| c.to_string()).collect(), w.quota_bytes)
        }
        other => panic!("{other:?}"),
    }
}

#[test]
fn welcome_advertises_quota_cap_and_effective_quota_bytes() {
    let mut config = RelayConfig::new("/data");
    config.default_quota_bytes = 140;
    let vault = "a".repeat(32);
    let mut cache = EntitlementsCache::new();
    let none = EntitlementsRead::Unreadable(String::new());
    let quota = cache.quota_for(&config, &vault, None, &none).quota;
    let mut relay = Relay::new(quota);
    let (caps, quota) = welcome_of(&relay.join(0, &["presence"]).unwrap().1);
    assert!(caps.iter().any(|c| c == "quota"));
    assert_eq!(quota, 140, "the effective quota is sent even when it equals the default");

    let granted = EntitlementsRead::File(1, vec![(vault.clone(), 5000)]);
    relay.quota = cache.quota_for(&config, &vault, key(60), &granted).quota;
    assert_eq!(welcome_of(&relay.join(0, &["presence"]).unwrap().1).1, 5000);
}

#[test]
fn a_broken_file_counts_from_the_last_time_it_was_missing() {
    let mut config = RelayConfig::new("/data");
    config.default_quota_bytes = 100;
    let vid = "a1".repeat(16);
    let mut cache = EntitlementsCache::new();
    let broken = EntitlementsRead::Unreadable("no".to_string());
    let good = EntitlementsRead::File(1, vec![(vid.clone(), 500)]);
    let mut quota = |k, read| cache.quota_for(&config, &vid, k, read).quota;
    assert_eq!(quota(key(1), &broken), 100);
    assert_eq!(quota(None, &broken), 100);
    assert_eq!(quota(key(2), &good), 500);
    assert_eq!(quota(key(3), &broken), 500);
    assert_eq!(quota(None, &broken), 100);
    assert_eq!(quota(key(3), &broken), 100);
    assert_eq!(quota(key(4), &good), 500);
}

#[test]
fn late_joiner_below_snapshot_gets_snapshot_then_tail_with_cap() {
    let relay = compacted_relay();
    assert_eq!(
        seen(&relay.join(0, &COMPACT).unwrap().1),
        ["welcome 3", "snapshot 2 snapshot-of-1-and-2", "update 3"]
    );
    assert_eq!(seen(&relay.join(2, &COMPACT).unwrap().1), ["welcome 3", "update 3"]);
    assert_eq!(relay.log.read_since(0).len(), 1);
}

#[test]
fn late_joiner_below_snapshot_without_cap_gets_err_compacted() {
    let relay = compacted_relay();
    assert_eq!(code(&relay.join(0, &[]).err().unwrap()), "compacted");
    assert_eq!(seen(&relay.join(2, &[]).unwrap().1), ["welcome 3", "update 3"]);
}

#[test]
fn compact_with_bad_upto_returns_err_not_close() {
    let mut relay = Relay::new(LOG_CAP_BYTES);
    let (mut s, _) = relay.join(0, &COMPACT).unwrap();
    relay.push(&mut s, b"only-entry");
    assert_eq!(code(&relay.compact(&mut s, 99, b"snap")), "compact_ahead");
    assert_eq!(seen(&[relay.push(&mut s, b"still-alive")]), ["ack 2"]);
}

#[test]
fn push_over_quota_errs_quota_exceeded_but_compaction_heals() {
    let mut relay = Relay::new(30);
    let (mut s, _) = relay.join(0, &QUOTA).unwrap();
    assert_eq!(seen(&[relay.push(&mut s, b"one")]), ["ack 1"]);
    match relay.push(&mut s, b"two") {
        ServerMsg::Error(code, msg) => {
            assert_eq!(code, "quota_exceeded");
            assert_eq!(msg, "vault storage quota exceeded (30 bytes)");
        }
        other => panic!("{other:?}"),
    }
    assert_eq!(seen(&[relay.compact(&mut s, 1, b"snap")]), ["compacted 1"]);
    assert_eq!(seen(&[relay.push(&mut s, b"two")]), ["ack 2"]);
}

#[test]
fn legacy_client_over_quota_still_gets_log_full() {
    let mut relay = Relay::new(30);
    let (mut s, _) = relay.join(0, &COMPACT).unwrap();
    relay.push(&mut s, b"one");
    assert_eq!(code(&relay.push(&mut s, b"two")), "log_full");
    assert_eq!(seen(&[relay.compact(&mut s, 1, b"snap")]), ["compacted 1"]);
}

#[test]
fn entitlements_raise_quota_per_vault() {
    let mut config = RelayConfig::new("/data");
    config.default_quota_bytes = 30;
    let (entitled, free) = ("a1".repeat(16), "b2".repeat(16));
    let mut cache = EntitlementsCache::new();
    let read = EntitlementsRead::File(1, vec![(entitled.clone(), 10_000)]);

    let mut pro = Relay::new(cache.quota_for(&config, &entitled, key(9), &read).quota);
    let (mut s, frames) = pro.join(0, &QUOTA).unwrap();
    assert_eq!(welcome_of(&frames).1, 10_000);
    assert_eq!(seen(&[pro.push(&mut s, b"one")]), ["ack 1"]);
    assert_eq!(seen(&[pro.push(&mut s, b"two")]), ["ack 2"]);

    let mut relay = Relay::new(cache.quota_for(&config, &free, key(9), &read).quota);
    let (mut s, _) = relay.join(0, &QUOTA).unwrap();
    relay.push(&mut s, b"one");
    assert_eq!(code(&relay.push(&mut s, b"two")), "quota_exceeded");
    relay.quota = 10_000;
    assert_eq!(seen(&[relay.push(&mut s, b"two")]), ["ack 2"], "no new hello is needed");
}

#[test]
fn a_snapshot_must_fit_the_quota_it_frees() {
    let mut relay = Relay::new(30);
    let (mut s, _) = relay.join(0, &QUOTA).unwrap();
    relay.push(&mut s, b"one");
    assert_eq!(code(&relay.compact(&mut s, 1, &[7; 31])), "compact_too_large");
    assert!(relay.part(&mut s, 1, 0, 2, &[7; 20]).is_none());
    let reply = relay.part(&mut s, 1, 1, 2, &[7; 11]).unwrap();
    assert_eq!(code(&reply), "compact_too_large");
    let reply = relay.part(&mut s, 1, 1, 2, &[7; 1]).unwrap();
    assert_eq!(code(&reply), "compact_part_order", "the refused upload was given up");
}

#[test]
fn chunked_upload_commits_on_last_part_and_serves_parts_to_compact2() {
    let relay = chunked_relay();
    assert_eq!(
        seen(&relay.join(0, &COMPACT2).unwrap().1),
        ["welcome 3", "part 2 0/2 part-zero", "part 2 1/2 part-one", "update 3"]
    );
    let (snapshot, log) = relay.written.clone().unwrap();
    assert!(snapshot.contains("\"parts\":2"));
    assert_eq!(place(&relay.log, 1), ("snapshot.parts.2".to_string(), "1".to_string()));
    assert_eq!(log.lines().count(), 1);
}

#[test]
fn chunked_upload_out_of_order_discards_and_errs_but_connection_survives() {
    let mut relay = Relay::new(LOG_CAP_BYTES);
    let (mut s, _) = relay.join(0, &COMPACT2).unwrap();
    for blob in ["one", "two"] {
        relay.push(&mut s, blob.as_bytes());
    }
    let reply = relay.part(&mut s, 2, 1, 2, b"part-one").unwrap();
    assert_eq!(code(&reply), "compact_part_order");
    assert!(relay.part(&mut s, 2, 0, 2, b"part-zero").is_none());
    let reply = relay.part(&mut s, 2, 0, 3, b"regressed").unwrap();
    assert_eq!(code(&reply), "compact_part_order");
    assert_eq!(seen(&[relay.push(&mut s, b"still-alive")]), ["ack 3"]);
    assert!(relay.part(&mut s, 3, 0, 2, b"p0").is_none());
    let reply = relay.part(&mut s, 3, 1, 2, b"p1").unwrap();
    assert_eq!(seen(&[reply]), ["compacted 3"]);
}

#[test]
fn multi_part_snapshot_below_cursor_is_err_compacted_for_compact_only_client() {
    let relay = chunked_relay();
    assert_eq!(code(&relay.join(0, &COMPACT).err().unwrap()), "compacted");
    assert_eq!(seen(&relay.join(2, &COMPACT).unwrap().1), ["welcome 3", "update 3"]);
}

#[test]
fn single_part_snapshot_still_served_as_legacy_snapshot_to_compact2() {
    let relay = compacted_relay();
    assert_eq!(
        seen(&relay.join(0, &COMPACT2).unwrap().1)[1],
        "snapshot 2 snapshot-of-1-and-2"
    );
}

#[test]
fn disconnect_mid_upload_discards_staging() {
    let mut relay = Relay::new(LOG_CAP_BYTES);
    let (mut s, _) = relay.join(0, &COMPACT2).unwrap();
    relay.push(&mut s, b"one");
    assert!(relay.part(&mut s, 1, 0, 2, b"part-zero").is_none());
    assert_eq!(relay.log.snapshot_seq(), None, "nothing was committed");
    let (mut fresh, _) = relay.join(1, &COMPACT2).unwrap();
    assert!(relay.part(&mut fresh, 1, 0, 2, b"p0").is_none());
    let reply = relay.part(&mut fresh, 1, 1, 2, b"p1").unwrap();
    assert_eq!(seen(&[reply]), ["compacted 1"]);
    // The upload that came too late is refused when it is complete.
    let reply = relay.part(&mut s, 1, 1, 2, b"part-one").unwrap();
    assert_eq!(code(&reply), "compact_stale");
}

#[test]
fn hello_flow_welcome_push_ack_and_fanout_to_all() {
    let mut relay = Relay::new(LOG_CAP_BYTES);
    let (mut one, frames) = relay.join(0, &[]).unwrap();
    assert_eq!(seen(&frames), ["welcome 0"]);
    let (mut two, _) = relay.join(0, &[]).unwrap();
    assert_eq!(seen(&[relay.push(&mut one, b"encrypted-blob")]), ["ack 1"]);
    let (seq, blob) = relay.fanned[0].clone();
    for session in [&mut one, &mut two] {
        match session.on_update(seq, &blob).unwrap() {
            ServerMsg::Update(1, b) => assert_eq!(text(&b), "encrypted-blob"),
            other => panic!("{other:?}"),
        }
        assert!(session.on_update(seq, &blob).is_none(), "never sent twice");
    }
}

#[test]
fn backlog_replays_from_since_seq_over_ws() {
    let mut relay = Relay::new(LOG_CAP_BYTES);
    let (mut writer, _) = relay.join(0, &[]).unwrap();
    for blob in ["one", "two", "three"] {
        relay.push(&mut writer, blob.as_bytes());
    }
    assert_eq!(
        seen(&relay.join(1, &[]).unwrap().1),
        ["welcome 3", "update 2", "update 3"]
    );
}

#[test]
fn a_client_that_falls_behind_is_caught_up_from_the_log() {
    let mut relay = Relay::new(LOG_CAP_BYTES);
    let (mut writer, _) = relay.join(0, &COMPACT).unwrap();
    let (mut slow, _) = relay.join(0, &COMPACT).unwrap();
    let (mut old, _) = relay.join(0, &[]).unwrap();
    for blob in ["one", "two", "three"] {
        relay.push(&mut writer, blob.as_bytes());
    }
    let replay = slow.on_lag(&relay.log).unwrap();
    assert_eq!(seen(&relay.caught_up(replay)), ["update 1", "update 2", "update 3"]);
    assert_eq!(slow.last_sent, 3);
    relay.compact(&mut writer, 2, b"snap");
    assert_eq!(code(&old.on_lag(&relay.log).err().unwrap()), "compacted");
    let (mut late, _) = relay.join(2, &COMPACT).unwrap();
    late.last_sent = 1;
    let replay = late.on_lag(&relay.log).unwrap();
    assert_eq!(seen(&relay.caught_up(replay)), ["snapshot 2 snap", "update 3"]);
}

#[test]
fn a_snapshot_that_was_replaced_is_served_no_further() {
    let mut relay = compacted_relay();
    let caps = Caps { presence: false, compact: true, compact2: false, quota: false };
    let replay = plan_replay(&relay.log, 0, caps).ok().unwrap();
    assert_eq!(replay.snapshot, Some((2, 1)));
    relay.log.compact(3, &b"newer".to_vec(), 7).unwrap();
    assert!(next_part(&relay.log, 2, 0).is_none());
    assert!(next_part(&relay.log, 3, 1).is_none());
    assert!(next_part(&relay.log, 3, 0).is_some());
}

#[test]
fn hello_with_wrong_token_is_rejected() {
    let check = check_or_register_token(Some("the-right-token"), "not-the-token");
    assert_eq!(code(&token_refusal(check).unwrap()), "auth");
    assert!(token_refusal(TokenCheck::Accepted).is_none());
    assert!(token_refusal(TokenCheck::Register).is_none());
}

#[test]
fn presence_fans_out_only_to_capable_and_never_touches_the_log() {
    let mut relay = Relay::new(LOG_CAP_BYTES);
    let (mut a, _) = relay.join(0, &["presence"]).unwrap();
    let (c, _) = relay.join(0, &[]).unwrap();
    assert!(a.caps.presence);
    assert!(!c.caps.presence);
    let blob = STANDARD.encode(b"ciphertext-here");
    assert!(relay.send(&mut a, Some(ClientMsg::Presence(blob.clone()))).is_none());
    assert_eq!(relay.presence, [blob]);
    assert_eq!(seen(&[relay.push(&mut a, b"real-update")]), ["ack 1"]);
    assert_eq!(seen(&relay.join(0, &[]).unwrap().1), ["welcome 1", "update 1"]);
}

#[test]
fn presence_before_hello_is_rejected() {
    let first = Some(ClientMsg::Presence("eA==".to_string()));
    assert_eq!(code(&greet(&first).err().unwrap()), "protocol");
    assert_eq!(code(&greet(&None).err().unwrap()), "protocol");
}

#[test]
fn oversized_presence_is_dropped_but_the_connection_survives() {
    let mut relay = Relay::new(LOG_CAP_BYTES);
    let (mut s, _) = relay.join(0, &["presence"]).unwrap();
    let big = STANDARD.encode(vec![0u8; 9 * 1024]);
    let reply = relay.send(&mut s, Some(ClientMsg::Presence(big))).unwrap();
    assert_eq!(code(&reply), "protocol");
    assert!(relay.presence.is_empty());
    assert_eq!(seen(&[relay.push(&mut s, b"still alive")]), ["ack 1"]);
}

fn hello(vault_id: &str) -> Option<ClientMsg> {
    Some(ClientMsg::Hello(Hello {
        vault_id: vault_id.to_string(),
        token: "tok".to_string(),
        since_seq: 0,
        caps: vec![],
    }))
}

#[test]
fn rejects_malformed_vault_id_over_ws() {
    let first = hello("../escape");
    assert_eq!(code(&greet(&first).err().unwrap()), "bad_vault_id");
    let first = hello(&"a".repeat(32));
    assert_eq!(greet(&first).ok().unwrap().token, "tok");
}

#[test]
fn frames_out_of_place_are_refused_and_change_nothing() {
    let mut relay = Relay::new(LOG_CAP_BYTES);
    let (mut s, _) = relay.join(0, &COMPACT2).unwrap();
    let not_base64 = "%".to_string();
    let frames = vec![
        None,
        hello(&"a".repeat(32)),
        Some(ClientMsg::Push(not_base64.clone())),
        Some(ClientMsg::Compact(1, not_base64.clone())),
        Some(ClientMsg::CompactPart(PartMsg { upto_seq: 1, idx: 0, of: 1, blob: not_base64 })),
    ];
    for frame in frames {
        let reply = relay.send(&mut s, frame).unwrap();
        assert_eq!(code(&reply), "protocol");
    }
    assert_eq!(relay.log.last_seq(), 0);
    assert_eq!(s.last_sent, 0);
}

#[test]
fn failures_of_the_storage_are_told_by_their_code() {
    for (fault, said) in [
        (StorageFault::Open, "cannot open vault storage"),
        (StorageFault::Token, "token storage failed"),
        (StorageFault::Backlog, "backlog read failed"),
        (StorageFault::Append, "append failed"),
    ] {
        match storage_failed(fault) {
            ServerMsg::Error(code, msg) => {
                assert_eq!(code, "storage");
                assert_eq!(msg, said);
            }
            other => panic!("{other:?}"),
        }
    }
    assert_eq!(code(&compact_failed("disk full")), "storage");
    assert_eq!(code(&compact_failed("io: compact_stale")), "compact_stale");
    let mut relay = Relay::new(LOG_CAP_BYTES);
    let (mut s, _) = relay.join(0, &COMPACT2).unwrap();
    relay.push(&mut s, b"one");
    assert!(relay.part(&mut s, 1, 0, 2, b"p0").is_none());
    assert_eq!(code(&s.upload_failed("disk full")), "storage");
    assert!(s.staging.is_none());
}

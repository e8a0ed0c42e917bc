//! The storage of one vault: an append-only log of encrypted blobs, a snapshot
//! that stands for its compacted prefix, and a token. The relay never reads a
//! blob: assigning sequence numbers and replaying is its whole job.
//!
//! Reading and writing files is left to the caller: it hands in what it found,
//! writes the texts it is given, and records what was written.
use crate::numbers::{dec, nat_of, parse_u64, render_u64};
use crate::relay::base64::{b64_bytes, b64_decode, b64_encode, b64_text, copy_bytes};
use crate::text::{
    after_prefix, byte_len, has_prefix, has_string, lines, lines_of, starts_with, str_eq, texts,
    utf8_len,
};
use crate::vault::write::{json_quote, json_quoted};
use vstd::prelude::*;
use vstd::string::*;
use vstd::utf8::*;

verus! {

/// A log stops growing at this size, whatever the quota.
pub const LOG_CAP_BYTES: u64 = 536_870_912;

/// The biggest blob of a snapshot: the whole of it, or one part.
pub const SNAPSHOT_MAX: usize = 33_554_432;

/// The biggest total of the parts of a snapshot.
pub const SNAPSHOT_TOTAL_MAX: u64 = 536_870_912;

/// Why the storage refuses a request.
#[derive(Debug, Clone, Copy, PartialEq, Eq, Structural)]
pub enum Refusal {
    /// The log is at its cap.
    LogFull,
    /// The log is at the vault's quota.
    QuotaExceeded,
    /// The snapshot covers no more than the one that is there.
    Stale,
    /// The snapshot claims entries that were never assigned.
    Ahead,
    /// The blob of a snapshot is too large.
    SnapshotTooLarge,
    /// A part of a snapshot is too large.
    PartTooLarge,
    /// A snapshot is too large in total.
    TooLarge,
    /// Parts are missing, too many or none.
    PartOrder,
}

/// The code of a refusal.
pub open spec fn refusal_code(r: Refusal) -> Seq<char> {
    match r {
        Refusal::LogFull => "log_full"@,
        Refusal::QuotaExceeded => "quota_exceeded"@,
        Refusal::Stale => "compact_stale"@,
        Refusal::Ahead => "compact_ahead"@,
        Refusal::SnapshotTooLarge => "snapshot_too_large"@,
        Refusal::PartTooLarge => "compact_part_too_large"@,
        Refusal::TooLarge => "compact_too_large"@,
        Refusal::PartOrder => "compact_part_order"@,
    }
}

impl Refusal {
    /// The code that clients know a refusal by.
    pub fn code(&self) -> (r: &'static str)
        ensures
            r@ == refusal_code(*self),
    {
        match self {
            Refusal::LogFull => "log_full",
            Refusal::QuotaExceeded => "quota_exceeded",
            Refusal::Stale => "compact_stale",
            Refusal::Ahead => "compact_ahead",
            Refusal::SnapshotTooLarge => "snapshot_too_large",
            Refusal::PartTooLarge => "compact_part_too_large",
            Refusal::TooLarge => "compact_too_large",
            Refusal::PartOrder => "compact_part_order",
        }
    }
}

// ---------------------------------------------------------------------------
// The log file
// ---------------------------------------------------------------------------

/// One entry of the log.
#[derive(Debug)]
pub struct LogLine {
    pub seq: u64,
    pub ts: u64,
    /// The blob in base64.
    pub blob: String,
}

/// The model of an entry.
#[verifier::ext_equal]
pub struct LineView {
    pub seq: u64,
    pub ts: u64,
    pub blob: Seq<char>,
}

impl View for LogLine {
    type V = LineView;

    open spec fn view(&self) -> LineView {
        LineView { seq: self.seq, ts: self.ts, blob: self.blob@ }
    }
}

impl Clone for LogLine {
    fn clone(&self) -> (r: Self)
        ensures
            r@ == self@,
    {
        LogLine { seq: self.seq, ts: self.ts, blob: self.blob.clone() }
    }
}

/// The text of an entry: one JSON object.
pub open spec fn line_text(l: LineView) -> Seq<char> {
    "{\"seq\":"@ + dec(l.seq as nat) + ",\"ts\":"@ + dec(l.ts as nat) + ",\"blob\":"@ + json_quoted(
        l.blob,
    ) + "}"@
}

impl LogLine {
    /// The line of the log file that holds the entry.
    pub fn to_json(&self) -> (r: String)
        ensures
            r@ == line_text(self@),
    {
        let mut t = "{\"seq\":".to_owned();
        t.append(render_u64(self.seq).as_str());
        t.append(",\"ts\":");
        t.append(render_u64(self.ts).as_str());
        t.append(",\"blob\":");
        t.append(json_quote(self.blob.as_str()).as_str());
        t.append("}");
        t
    }
}

/// A line of the log file, with the entry it holds if it is readable.
#[derive(Debug)]
pub struct StoredLine {
    pub text: String,
    pub line: Option<LogLine>,
}

/// The model of a line of the log file.
#[verifier::ext_equal]
pub struct StoredView {
    pub text: Seq<char>,
    pub line: Option<LineView>,
}

pub open spec fn opt_line(l: Option<LogLine>) -> Option<LineView> {
    match l {
        Some(x) => Some(x@),
        None => None,
    }
}

impl View for StoredLine {
    type V = StoredView;

    open spec fn view(&self) -> StoredView {
        StoredView { text: self.text@, line: opt_line(self.line) }
    }
}

impl Clone for StoredLine {
    fn clone(&self) -> (r: Self)
        ensures
            r@ == self@,
    {
        StoredLine {
            text: self.text.clone(),
            line: match &self.line {
                Some(l) => Some(l.clone()),
                None => None,
            },
        }
    }
}

pub open spec fn stored_view(v: Seq<StoredLine>) -> Seq<StoredView> {
    v.map_values(|s: StoredLine| s@)
}

/// A log file: its size in bytes and its lines.
#[derive(Debug)]
pub struct LogFile {
    pub size: u64,
    pub lines: Vec<StoredLine>,
}

/// The lines of a text from `i` on, each with its entry.
pub open spec fn paired_from(
    ts: Seq<Seq<char>>,
    entries: Seq<Option<LineView>>,
    i: int,
) -> Seq<StoredView>
    decreases ts.len() - i,
{
    if i < 0 || i >= ts.len() {
        seq![]
    } else {
        seq![
            StoredView {
                text: ts[i],
                line: if i < entries.len() {
                    entries[i]
                } else {
                    None
                },
            },
        ] + paired_from(ts, entries, i + 1)
    }
}

pub open spec fn opt_lines(v: Seq<Option<LogLine>>) -> Seq<Option<LineView>> {
    v.map_values(|l: Option<LogLine>| opt_line(l))
}

/// The size of a file that grows by `added` bytes, as far as it can be counted.
pub open spec fn grown(size: u64, added: nat) -> u64 {
    if size + added > u64::MAX {
        u64::MAX
    } else {
        (size + added) as u64
    }
}

impl LogFile {
    /// The log file with the text `raw`; `entries` holds for each of its lines
    /// the entry that it spells.
    pub fn read(raw: &str, entries: &Vec<Option<LogLine>>) -> (r: LogFile)
        ensures
            r.size == grown(0, utf8_len(raw@)),
            stored_view(r.lines@) == paired_from(lines(raw@), opt_lines(entries@), 0),
    {
        let ls = lines_of(raw);
        let ghost ts = lines(raw@);
        let ghost es = opt_lines(entries@);
        let mut out: Vec<StoredLine> = Vec::new();
        let mut i: usize = 0;
        assert(stored_view(out@) =~= seq![]);
        while i < ls.len()
            invariant
                i <= ls@.len(),
                texts(ls@) == ts,
                es == opt_lines(entries@),
                paired_from(ts, es, 0) == stored_view(out@) + paired_from(ts, es, i as int),
            decreases ls@.len() - i,
        {
            let line: Option<LogLine> = if i < entries.len() {
                assert(es[i as int] == opt_line(entries@[i as int]));
                match &entries[i] {
                    Some(l) => Some(l.clone()),
                    None => None,
                }
            } else {
                None
            };
            let s = StoredLine { text: ls[i].clone(), line };
            assert(ts[i as int] == ls@[i as int]@);
            let ghost sv = s@;
            let ghost prev = stored_view(out@);
            out.push(s);
            assert(stored_view(out@) =~= prev.push(sv));
            assert(prev + (seq![sv] + paired_from(ts, es, i + 1)) =~= stored_view(out@)
                + paired_from(ts, es, i + 1));
            i = i + 1;
        }
        assert(stored_view(out@) + paired_from(ts, es, i as int) =~= stored_view(out@));
        LogFile { size: byte_len(raw) as u64, lines: out }
    }
}

/// The lines from `i` on whose entry lies above `upto`.
pub open spec fn tail_from(ls: Seq<StoredView>, upto: u64, i: int) -> Seq<StoredView>
    decreases ls.len() - i,
{
    if i < 0 || i >= ls.len() {
        seq![]
    } else {
        (match ls[i].line {
            Some(l) => if l.seq > upto {
                seq![ls[i]]
            } else {
                seq![]
            },
            None => seq![],
        }) + tail_from(ls, upto, i + 1)
    }
}

/// The text of a log file with the lines from `i` on.
pub open spec fn file_text(ls: Seq<StoredView>, i: int) -> Seq<char>
    decreases ls.len() - i,
{
    if i < 0 || i >= ls.len() {
        seq![]
    } else {
        ls[i].text + "\n"@ + file_text(ls, i + 1)
    }
}

/// The entry that a line gives to a reader who has all up to `since`.
pub open spec fn entry_of(s: StoredView, since: u64) -> Seq<(u64, Seq<u8>)> {
    match s.line {
        Some(l) => if l.seq > since {
            match b64_bytes(l.blob) {
                Some(bytes) => seq![(l.seq, bytes)],
                None => seq![],
            }
        } else {
            seq![]
        },
        None => seq![],
    }
}

/// The entries above `since` in the lines from `i` on.
pub open spec fn since_from(ls: Seq<StoredView>, since: u64, i: int) -> Seq<(u64, Seq<u8>)>
    decreases ls.len() - i,
{
    if i < 0 || i >= ls.len() {
        seq![]
    } else {
        entry_of(ls[i], since) + since_from(ls, since, i + 1)
    }
}

/// The model of entries handed to a reader.
pub open spec fn entries_view(v: Seq<(u64, Vec<u8>)>) -> Seq<(u64, Seq<u8>)> {
    v.map_values(|e: (u64, Vec<u8>)| (e.0, e.1@))
}

/// The number of the last readable entry among the first `n` lines, or 0.
pub open spec fn last_number(ls: Seq<StoredView>, n: int) -> u64
    decreases n,
{
    if n <= 0 {
        0
    } else {
        match ls[n - 1].line {
            Some(l) => l.seq,
            None => last_number(ls, n - 1),
        }
    }
}

fn tail_of(ls: &Vec<StoredLine>, upto: u64) -> (r: Vec<StoredLine>)
    ensures
        stored_view(r@) == tail_from(stored_view(ls@), upto, 0),
{
    let ghost all = stored_view(ls@);
    let mut out: Vec<StoredLine> = Vec::new();
    let mut i: usize = 0;
    assert(stored_view(out@) =~= seq![]);
    while i < ls.len()
        invariant
            i <= ls@.len(),
            all == stored_view(ls@),
            tail_from(all, upto, 0) == stored_view(out@) + tail_from(all, upto, i as int),
        decreases ls@.len() - i,
    {
        assert(all[i as int] == ls@[i as int]@);
        let keep: bool = match &ls[i].line {
            Some(l) => l.seq > upto,
            None => false,
        };
        let ghost rest = tail_from(all, upto, i + 1);
        let ghost prev = stored_view(out@);
        if keep {
            out.push(ls[i].clone());
            assert(stored_view(out@) =~= prev.push(all[i as int]));
            assert(prev + (seq![all[i as int]] + rest) =~= stored_view(out@) + rest);
        } else {
            assert(prev + (Seq::<StoredView>::empty() + rest) =~= prev + rest);
        }
        i = i + 1;
    }
    assert(stored_view(out@) + tail_from(all, upto, i as int) =~= stored_view(out@));
    out
}

fn text_of_file(ls: &Vec<StoredLine>) -> (r: String)
    ensures
        r@ == file_text(stored_view(ls@), 0),
{
    let ghost all = stored_view(ls@);
    let mut out = String::new();
    let mut i: usize = 0;
    while i < ls.len()
        invariant
            i <= ls@.len(),
            all == stored_view(ls@),
            file_text(all, 0) == out@ + file_text(all, i as int),
        decreases ls@.len() - i,
    {
        assert(all[i as int] == ls@[i as int]@);
        let ghost prev = out@;
        out.append(ls[i].text.as_str());
        out.append("\n");
        assert(prev + (all[i as int].text + "\n"@ + file_text(all, i + 1)) =~= out@ + file_text(
            all,
            i + 1,
        ));
        i = i + 1;
    }
    assert(out@ + file_text(all, i as int) =~= out@);
    out
}

// ---------------------------------------------------------------------------
// Snapshots
// ---------------------------------------------------------------------------

/// Where the bytes of a snapshot are.
#[derive(Debug)]
pub enum SnapshotStore {
    /// The whole sealed blob.
    Inline(Vec<u8>),
    /// Part files on disk, read one by one when they are served.
    Files(u32),
}

/// The model of where a snapshot is.
#[verifier::ext_equal]
pub enum StoreView {
    Inline(Seq<u8>),
    Files(u32),
}

impl View for SnapshotStore {
    type V = StoreView;

    open spec fn view(&self) -> StoreView {
        match self {
            SnapshotStore::Inline(b) => StoreView::Inline(b@),
            SnapshotStore::Files(n) => StoreView::Files(*n),
        }
    }
}

/// The compacted prefix of a log: all entries up to `seq`.
#[derive(Debug)]
pub struct SnapshotState {
    pub seq: u64,
    pub store: SnapshotStore,
}

/// The model of a snapshot.
#[verifier::ext_equal]
pub struct SnapView {
    pub seq: u64,
    pub store: StoreView,
}

impl View for SnapshotState {
    type V = SnapView;

    open spec fn view(&self) -> SnapView {
        SnapView { seq: self.seq, store: self.store@ }
    }
}

pub open spec fn opt_snap(s: Option<SnapshotState>) -> Option<SnapView> {
    match s {
        Some(x) => Some(x@),
        None => None,
    }
}

/// The contents of snapshot.json: the blob inline, or the number of part files.
#[derive(Debug)]
pub struct SnapFile {
    pub seq: u64,
    pub ts: u64,
    pub blob: Option<String>,
    pub parts: Option<u32>,
}

/// The text of snapshot.json for a snapshot taken at `ts`.
pub open spec fn snap_text(s: SnapView, ts: u64) -> Seq<char> {
    "{\"seq\":"@ + dec(s.seq as nat) + ",\"ts\":"@ + dec(ts as nat) + (match s.store {
        StoreView::Inline(bytes) => ",\"blob\":"@ + json_quoted(b64_text(bytes)),
        StoreView::Files(n) => ",\"parts\":"@ + dec(n as nat),
    }) + "}"@
}

fn snapshot_json(seq: u64, store: &SnapshotStore, ts: u64) -> (r: String)
    ensures
        r@ == snap_text(SnapView { seq, store: store@ }, ts),
{
    let mut t = "{\"seq\":".to_owned();
    t.append(render_u64(seq).as_str());
    t.append(",\"ts\":");
    t.append(render_u64(ts).as_str());
    let mut part = String::new();
    match store {
        SnapshotStore::Inline(bytes) => {
            part.append(",\"blob\":");
            let text = b64_encode(bytes);
            part.append(json_quote(text.as_str()).as_str());
            assert(part@ =~= ",\"blob\":"@ + json_quoted(b64_text(bytes@)));
        },
        SnapshotStore::Files(n) => {
            part.append(",\"parts\":");
            part.append(render_u64(*n as u64).as_str());
            assert(part@ =~= ",\"parts\":"@ + dec(*n as nat));
        },
    }
    t.append(part.as_str());
    t.append("}");
    t
}

/// A directory beside the log, with the names of the files in it.
#[derive(Debug)]
pub struct PartDir {
    pub name: String,
    pub files: Vec<String>,
}

/// The name of the directory that holds the parts of the snapshot up to `seq`.
pub open spec fn parts_dir(seq: u64) -> Seq<char> {
    "snapshot.parts."@ + dec(seq as nat)
}

/// The name of the directory that holds the parts of the snapshot up to `seq`.
pub fn parts_dir_name(seq: u64) -> (r: String)
    ensures
        r@ == parts_dir(seq),
{
    let mut t = "snapshot.parts.".to_owned();
    t.append(render_u64(seq).as_str());
    t
}

/// Whether a directory holds part `i` of the snapshot up to `seq`.
pub open spec fn dir_has_part(d: PartDir, seq: u64, i: int) -> bool {
    d.name@ == parts_dir(seq) && texts(d.files@).contains(dec(i as nat))
}

/// Whether part `i` of the snapshot up to `seq` is on disk.
pub open spec fn has_part(dirs: Seq<PartDir>, seq: u64, i: int) -> bool {
    exists|k: int| 0 <= k < dirs.len() && #[trigger] dir_has_part(dirs[k], seq, i)
}

/// Whether all parts of a snapshot are on disk.
pub open spec fn has_parts(dirs: Seq<PartDir>, seq: u64, count: u32) -> bool {
    forall|i: int| 0 <= i < count ==> #[trigger] has_part(dirs, seq, i)
}

/// The snapshot that a snapshot.json stands for. Parts on disk count only if
/// all are there: a gap means that they were tampered with, and then there is
/// no snapshot rather than one with a hole.
pub open spec fn recovered(file: Option<SnapFile>, dirs: Seq<PartDir>) -> Option<SnapView> {
    match file {
        Some(f) => match f.blob {
            Some(text) => match b64_bytes(text@) {
                Some(bytes) => Some(SnapView { seq: f.seq, store: StoreView::Inline(bytes) }),
                None => None,
            },
            None => match f.parts {
                Some(n) => if has_parts(dirs, f.seq, n) {
                    Some(SnapView { seq: f.seq, store: StoreView::Files(n) })
                } else {
                    None
                },
                None => None,
            },
        },
        None => None,
    }
}

fn part_on_disk(dirs: &Vec<PartDir>, seq: u64, i: u32) -> (r: bool)
    ensures
        r == has_part(dirs@, seq, i as int),
{
    let dir = parts_dir_name(seq);
    let name = render_u64(i as u64);
    let mut k: usize = 0;
    while k < dirs.len()
        invariant
            k <= dirs@.len(),
            dir@ == parts_dir(seq),
            name@ == dec(i as nat),
            forall|j: int| 0 <= j < k ==> !#[trigger] dir_has_part(dirs@[j], seq, i as int),
        decreases dirs@.len() - k,
    {
        if str_eq(dirs[k].name.as_str(), dir.as_str()) && has_string(&dirs[k].files, name.as_str()) {
            assert(dir_has_part(dirs@[k as int], seq, i as int));
            return true;
        }
        k = k + 1;
    }
    false
}

fn all_parts_on_disk(dirs: &Vec<PartDir>, seq: u64, count: u32) -> (r: bool)
    ensures
        r == has_parts(dirs@, seq, count),
{
    let mut i: u32 = 0;
    while i < count
        invariant
            i <= count,
            forall|j: int| 0 <= j < i ==> #[trigger] has_part(dirs@, seq, j),
        decreases count - i,
    {
        if !part_on_disk(dirs, seq, i) {
            assert(!has_part(dirs@, seq, i as int));
            return false;
        }
        i = i + 1;
    }
    true
}

fn recover(file: &Option<SnapFile>, dirs: &Vec<PartDir>) -> (r: Option<SnapshotState>)
    ensures
        opt_snap(r) == recovered(*file, dirs@),
{
    match file {
        Some(f) => match &f.blob {
            Some(text) => match b64_decode(text.as_str()) {
                Some(bytes) => Some(
                    SnapshotState { seq: f.seq, store: SnapshotStore::Inline(bytes) },
                ),
                None => None,
            },
            None => match f.parts {
                Some(n) => if all_parts_on_disk(dirs, f.seq, n) {
                    Some(SnapshotState { seq: f.seq, store: SnapshotStore::Files(n) })
                } else {
                    None
                },
                None => None,
            },
        },
        None => None,
    }
}

/// Whether a directory beside the log is a leftover: the parts of another
/// snapshot than the one up to `keep`, or, where uploads cannot be under way,
/// a staging directory.
pub open spec fn is_stale_dir(name: Seq<char>, keep: u64, sweep_staging: bool) -> bool {
    if has_prefix(name, "snapshot.parts."@) {
        nat_of(name.skip("snapshot.parts."@.len() as int)) != Some(keep as nat)
    } else {
        sweep_staging && has_prefix(name, "snapshot.staging."@)
    }
}

/// Whether a directory beside the log is to be removed.
pub fn stale_dir(name: &str, keep: u64, sweep_staging: bool) -> (r: bool)
    ensures
        r == is_stale_dir(name@, keep, sweep_staging),
{
    match after_prefix(name, "snapshot.parts.") {
        Some(rest) => match parse_u64(rest.as_str(), u64::MAX) {
            Some(n) => n != keep,
            None => true,
        },
        None => sweep_staging && starts_with(name, "snapshot.staging."),
    }
}

/// The names from `i` on of the directories that are leftovers.
pub open spec fn stale_from(dirs: Seq<PartDir>, keep: u64, i: int) -> Seq<Seq<char>>
    decreases dirs.len() - i,
{
    if i < 0 || i >= dirs.len() {
        seq![]
    } else if is_stale_dir(dirs[i].name@, keep, true) {
        seq![dirs[i].name@] + stale_from(dirs, keep, i + 1)
    } else {
        stale_from(dirs, keep, i + 1)
    }
}

fn stale_names(dirs: &Vec<PartDir>, keep: u64) -> (r: Vec<String>)
    ensures
        texts(r@) == stale_from(dirs@, keep, 0),
{
    let mut out: Vec<String> = Vec::new();
    let mut i: usize = 0;
    assert(texts(out@) =~= seq![]);
    while i < dirs.len()
        invariant
            i <= dirs@.len(),
            stale_from(dirs@, keep, 0) == texts(out@) + stale_from(dirs@, keep, i as int),
        decreases dirs@.len() - i,
    {
        if stale_dir(dirs[i].name.as_str(), keep, true) {
            let ghost prev = texts(out@);
            let ghost name = dirs@[i as int].name@;
            out.push(dirs[i].name.clone());
            assert(texts(out@) =~= prev.push(name));
            assert(prev + (seq![name] + stale_from(dirs@, keep, i + 1)) =~= texts(out@)
                + stale_from(dirs@, keep, i + 1));
        }
        i = i + 1;
    }
    assert(texts(out@) + stale_from(dirs@, keep, i as int) =~= texts(out@));
    out
}

// ---------------------------------------------------------------------------
// Chunked uploads
// ---------------------------------------------------------------------------

/// Why a part is refused that comes after `total_so_far` bytes, under a cap on
/// the total.
pub open spec fn part_refused(total_so_far: nat, part_len: nat, cap: u64) -> Option<Refusal> {
    if part_len > SNAPSHOT_MAX {
        Some(Refusal::PartTooLarge)
    } else if total_so_far + part_len > cap {
        Some(Refusal::TooLarge)
    } else {
        None
    }
}

fn part_refusal(total_so_far: u64, part_len: usize, cap: u64) -> (r: Option<Refusal>)
    ensures
        r == part_refused(total_so_far as nat, part_len as nat, cap),
{
    if part_len > SNAPSHOT_MAX {
        Some(Refusal::PartTooLarge)
    } else if total_so_far > cap || part_len as u64 > cap - total_so_far {
        Some(Refusal::TooLarge)
    } else {
        None
    }
}

/// The code of why a part breaks a cap; `None` where it fits.
pub fn part_cap_violation(total_so_far: u64, part_len: usize) -> (r: Option<&'static str>)
    ensures
        match part_refused(total_so_far as nat, part_len as nat, SNAPSHOT_TOTAL_MAX) {
            Some(why) => r matches Some(code) && code@ == refusal_code(why),
            None => r is None,
        },
{
    match part_refusal(total_so_far, part_len, SNAPSHOT_TOTAL_MAX) {
        Some(why) => Some(why.code()),
        None => None,
    }
}

/// A chunked upload under way. The parts themselves lie in files.
#[derive(Debug)]
pub struct PartStaging {
    upto_seq: u64,
    of: u32,
    next_idx: u32,
    total_bytes: u64,
    cap: u64,
}

/// The model of an upload under way.
#[verifier::ext_equal]
pub struct StagingView {
    pub upto_seq: u64,
    pub of: u32,
    pub next_idx: u32,
    pub total_bytes: u64,
    pub cap: u64,
}

impl View for PartStaging {
    type V = StagingView;

    closed spec fn view(&self) -> StagingView {
        StagingView {
            upto_seq: self.upto_seq,
            of: self.of,
            next_idx: self.next_idx,
            total_bytes: self.total_bytes,
            cap: self.cap,
        }
    }
}

/// Why an upload refuses its next part.
pub open spec fn add_refused(st: StagingView, len: nat) -> Option<Refusal> {
    if st.next_idx >= st.of {
        Some(Refusal::PartOrder)
    } else {
        part_refused(st.total_bytes as nat, len, st.cap)
    }
}

/// An upload after its next part.
pub open spec fn with_part(st: StagingView, len: nat) -> StagingView {
    StagingView {
        upto_seq: st.upto_seq,
        of: st.of,
        next_idx: (st.next_idx + 1) as u32,
        total_bytes: (st.total_bytes + len) as u64,
        cap: st.cap,
    }
}

impl PartStaging {
    #[verifier::type_invariant]
    spec fn well_formed(self) -> bool {
        self.next_idx <= self.of && self.total_bytes <= self.cap
    }

    pub fn upto_seq(&self) -> (r: u64)
        ensures
            r == self@.upto_seq,
    {
        self.upto_seq
    }

    pub fn of(&self) -> (r: u32)
        ensures
            r == self@.of,
    {
        self.of
    }

    pub fn next_idx(&self) -> (r: u32)
        ensures
            r == self@.next_idx,
            r <= self@.of,
    {
        proof {
            use_type_invariant(self);
        }
        self.next_idx
    }

    /// Takes in the next part, of which only the length counts here.
    pub fn add(&mut self, blob: &Vec<u8>) -> (r: Result<(), Refusal>)
        ensures
            match add_refused(old(self)@, blob@.len()) {
                Some(why) => r == Err::<(), Refusal>(why) && final(self)@ == old(self)@,
                None => r is Ok && final(self)@ == with_part(old(self)@, blob@.len()),
            },
    {
        proof {
            use_type_invariant(&*self);
        }
        if self.next_idx >= self.of {
            return Err(Refusal::PartOrder);
        }
        match part_refusal(self.total_bytes, blob.len(), self.cap) {
            Some(why) => {
                return Err(why);
            },
            None => {},
        }
        let added = PartStaging {
            upto_seq: self.upto_seq,
            of: self.of,
            next_idx: self.next_idx + 1,
            total_bytes: self.total_bytes + blob.len() as u64,
            cap: self.cap,
        };
        *self = added;
        Ok(())
    }
}

// ---------------------------------------------------------------------------
// The storage of a vault
// ---------------------------------------------------------------------------

/// The storage of a vault.
pub struct VaultLog {
    size: u64,
    lines: Vec<StoredLine>,
    last_seq: u64,
    snapshot: Option<SnapshotState>,
}

/// The model of the storage of a vault.
#[verifier::ext_equal]
pub struct LogState {
    /// The size of the log file in bytes.
    pub size: u64,
    pub lines: Seq<StoredView>,
    pub last_seq: u64,
    pub snapshot: Option<SnapView>,
}

impl View for VaultLog {
    type V = LogState;

    closed spec fn view(&self) -> LogState {
        LogState {
            size: self.size,
            lines: stored_view(self.lines@),
            last_seq: self.last_seq,
            snapshot: opt_snap(self.snapshot),
        }
    }
}

/// How far the snapshot of a vault reaches, 0 without one.
pub open spec fn covered(s: Option<SnapView>) -> u64 {
    match s {
        Some(x) => x.seq,
        None => 0,
    }
}

/// What was found in the directory of a vault.
pub struct Found {
    /// log.jsonl
    pub log: Option<LogFile>,
    /// log.jsonl.tmp
    pub spare: Option<LogFile>,
    /// snapshot.json, if it is readable
    pub snapshot: Option<SnapFile>,
    /// The directories beside them.
    pub dirs: Vec<PartDir>,
}

/// The model of a log file.
#[verifier::ext_equal]
pub struct FileView {
    pub size: u64,
    pub lines: Seq<StoredView>,
}

/// The log file that counts: log.jsonl, or, where a crash came between the two
/// renames of a compaction, the tail that was about to take its place.
pub open spec fn current_file(f: Found) -> FileView {
    match f.log {
        Some(x) => FileView { size: x.size, lines: stored_view(x.lines@) },
        None => match f.spare {
            Some(x) => FileView { size: x.size, lines: stored_view(x.lines@) },
            None => FileView { size: 0, lines: seq![] },
        },
    }
}

/// Whether a log still holds entries that its snapshot covers.
pub open spec fn overlaps(ls: Seq<StoredView>, covered_to: u64) -> bool {
    let entries = since_from(ls, 0, 0);
    covered_to > 0 && entries.len() > 0 && entries[0].0 <= covered_to
}

/// The log of a state cut off at `upto`.
pub open spec fn truncated(st: LogState, upto: u64) -> LogState {
    let kept = tail_from(st.lines, upto, 0);
    LogState { size: grown(0, utf8_len(file_text(kept, 0))), lines: kept, ..st }
}

/// The state that a directory stands for, before a compaction that a crash cut
/// short is finished.
pub open spec fn found_state(f: Found) -> LogState {
    let file = current_file(f);
    let snap = recovered(f.snapshot, f.dirs@);
    let log_last = last_number(file.lines, file.lines.len() as int);
    LogState {
        size: file.size,
        lines: file.lines,
        last_seq: if log_last > covered(snap) {
            log_last
        } else {
            covered(snap)
        },
        snapshot: snap,
    }
}

/// The state that a directory stands for.
pub open spec fn opened(f: Found) -> LogState {
    let st = found_state(f);
    if overlaps(st.lines, covered(st.snapshot)) {
        truncated(st, covered(st.snapshot))
    } else {
        st
    }
}

/// A vault that was opened, and what is to be done to its directory.
pub struct Opened {
    pub log: VaultLog,
    /// Whether log.jsonl.tmp is to become log.jsonl.
    pub restore_log: bool,
    /// The directories to remove.
    pub sweep: Vec<String>,
    /// The text that log.jsonl is to get, where a compaction is to be finished.
    pub rewritten: Option<String>,
}

/// A snapshot to write: snapshot.json first, and then the new log.
#[derive(Debug)]
pub struct Publication {
    pub seq: u64,
    pub store: SnapshotStore,
    pub snapshot_json: String,
    pub log_text: String,
}

/// Whether a publication is that of a snapshot at a state.
pub open spec fn publishes(p: Publication, st: LogState, snap: SnapView, ts: u64) -> bool {
    &&& p.seq == snap.seq
    &&& p.store@ == snap.store
    &&& p.snapshot_json@ == snap_text(snap, ts)
    &&& p.log_text@ == file_text(tail_from(st.lines, snap.seq, 0), 0)
}

/// Why a snapshot up to `upto` is refused.
pub open spec fn compact_refused(st: LogState, upto: u64) -> Option<Refusal> {
    if upto <= covered(st.snapshot) {
        Some(Refusal::Stale)
    } else if upto > st.last_seq {
        Some(Refusal::Ahead)
    } else {
        None
    }
}

/// Why a snapshot of one blob is refused.
pub open spec fn blob_refused(st: LogState, upto: u64, len: nat, quota: u64) -> Option<Refusal> {
    if len > SNAPSHOT_MAX {
        Some(Refusal::SnapshotTooLarge)
    } else if len > quota {
        Some(Refusal::TooLarge)
    } else {
        compact_refused(st, upto)
    }
}

/// The state after a snapshot was published.
pub open spec fn compacted(st: LogState, snap: SnapView) -> LogState {
    LogState { snapshot: Some(snap), ..truncated(st, snap.seq) }
}

/// The entry that a blob becomes.
pub open spec fn next_line(st: LogState, blob: Seq<u8>, ts: u64) -> LineView {
    LineView { seq: (st.last_seq + 1) as u64, ts, blob: b64_text(blob) }
}

/// The state after an entry was written.
pub open spec fn appended(st: LogState, l: LineView) -> LogState {
    LogState {
        size: grown(st.size, utf8_len(line_text(l)) + 1),
        lines: st.lines.push(StoredView { text: line_text(l), line: Some(l) }),
        last_seq: l.seq,
        snapshot: st.snapshot,
    }
}

/// The cap on the total of an upload.
pub open spec fn upload_cap(quota: u64) -> u64 {
    if quota < SNAPSHOT_TOTAL_MAX {
        quota
    } else {
        SNAPSHOT_TOTAL_MAX
    }
}

/// Why an upload cannot start.
pub open spec fn stage_refused(st: LogState, upto: u64, of: u32) -> Option<Refusal> {
    if of == 0 {
        Some(Refusal::PartOrder)
    } else {
        compact_refused(st, upto)
    }
}

/// An upload that has just started.
pub open spec fn staged(upto: u64, of: u32, quota: u64) -> StagingView {
    StagingView { upto_seq: upto, of, next_idx: 0, total_bytes: 0, cap: upload_cap(quota) }
}

/// Why an upload cannot be committed; `first` is its first part.
pub open spec fn commit_refused(st: LogState, up: StagingView, first: Seq<u8>) -> Option<Refusal> {
    if up.next_idx != up.of {
        Some(Refusal::PartOrder)
    } else if up.of == 1 {
        blob_refused(st, up.upto_seq, first.len(), SNAPSHOT_TOTAL_MAX)
    } else {
        compact_refused(st, up.upto_seq)
    }
}

/// The snapshot that an upload becomes: of one part, the blob itself.
pub open spec fn committed_snap(up: StagingView, first: Seq<u8>) -> SnapView {
    SnapView {
        seq: up.upto_seq,
        store: if up.of == 1 {
            StoreView::Inline(first)
        } else {
            StoreView::Files(up.of)
        },
    }
}

/// Where one part of a snapshot is.
#[derive(Debug)]
pub enum PartSource {
    Inline(Vec<u8>),
    /// The directory and the name of the file.
    File(String, String),
}

/// How a token is answered.
#[derive(Debug, Clone, Copy, PartialEq, Eq, Structural)]
pub enum TokenCheck {
    /// None is registered yet: this one is to be.
    Register,
    Accepted,
    Refused,
}

/// Whether two byte strings of one length agree, without stopping early.
fn same_bytes(a: &[u8], b: &[u8]) -> (r: bool)
    requires
        a@.len() == b@.len(),
    ensures
        r == (a@ == b@),
{
    let mut diff: u8 = 0;
    let mut i: usize = 0;
    while i < a.len()
        invariant
            i <= a@.len(),
            a@.len() == b@.len(),
            (diff == 0) == (forall|k: int| 0 <= k < i ==> a@[k] == b@[k]),
        decreases a@.len() - i,
    {
        let x: u8 = a[i];
        let y: u8 = b[i];
        let d: u8 = diff;
        let e: u8 = x ^ y;
        let f: u8 = d | e;
        assert((e == 0) == (x == y)) by (bit_vector)
            requires
                e == x ^ y,
        ;
        assert((f == 0) == (d == 0 && e == 0)) by (bit_vector)
            requires
                f == d | e,
        ;
        diff = f;
        i = i + 1;
    }
    assert((diff == 0) == (a@ =~= b@));
    diff == 0
}

/// Two texts with the same bytes are the same.
proof fn lemma_bytes_tell(a: Seq<char>, b: Seq<char>)
    ensures
        (encode_utf8(a) == encode_utf8(b)) == (a == b),
{
    encode_utf8_decode_utf8(a);
    encode_utf8_decode_utf8(b);
}

/// How a token is answered where one is stored or none.
pub open spec fn token_answer(stored: Option<Seq<char>>, token: Seq<char>) -> TokenCheck {
    match stored {
        None => TokenCheck::Register,
        Some(s) => if s == token {
            TokenCheck::Accepted
        } else {
            TokenCheck::Refused
        },
    }
}

/// The first token owns a vault: it is registered, and from then on it is
/// accepted and no other is.
pub proof fn law_first_token_owns_the_vault(first: Seq<char>, later: Seq<char>)
    ensures
        token_answer(None, first) == TokenCheck::Register,
        token_answer(Some(first), later) == if later == first {
            TokenCheck::Accepted
        } else {
            TokenCheck::Refused
        },
{
}

/// Trust on first use: the first token is registered, later ones must be the
/// same as the one that is stored.
pub fn check_or_register_token(stored: Option<&str>, token: &str) -> (r: TokenCheck)
    ensures
        r == token_answer(
            match stored {
                Some(s) => Some(s@),
                None => None,
            },
            token@,
        ),
{
    match stored {
        None => TokenCheck::Register,
        Some(s) => {
            let a = s.as_bytes();
            let b = token.as_bytes();
            proof {
                lemma_bytes_tell(s@, token@);
            }
            if a.len() == b.len() && same_bytes(a, b) {
                TokenCheck::Accepted
            } else {
                TokenCheck::Refused
            }
        },
    }
}

impl VaultLog {
    /// Opens the storage of a vault: finds the last number from the log and the
    /// snapshot, and finishes a compaction that a crash interrupted.
    pub fn open(found: Found) -> (r: Opened)
        ensures
            r.log@ == opened(found),
            r.restore_log == (found.log is None && found.spare is Some),
            texts(r.sweep@) == stale_from(
                found.dirs@,
                covered(recovered(found.snapshot, found.dirs@)),
                0,
            ),
            match r.rewritten {
                Some(text) => overlaps(
                    found_state(found).lines,
                    covered(found_state(found).snapshot),
                ) && text@ == file_text(opened(found).lines, 0),
                None => !overlaps(
                    found_state(found).lines,
                    covered(found_state(found).snapshot),
                ),
            },
    {
        let ghost whole = found;
        let snapshot = recover(&found.snapshot, &found.dirs);
        let snapshot_seq: u64 = match &snapshot {
            Some(s) => s.seq,
            None => 0,
        };
        let sweep = stale_names(&found.dirs, snapshot_seq);
        let restore_log: bool = found.log.is_none() && found.spare.is_some();
        let file: LogFile = match found.log {
            Some(f) => f,
            None => match found.spare {
                Some(f) => f,
                None => {
                    let lines: Vec<StoredLine> = Vec::new();
                    assert(stored_view(lines@) =~= seq![]);
                    LogFile { size: 0, lines }
                },
            },
        };
        let log_last: u64 = last_of(&file.lines);
        let last_seq: u64 = if log_last > snapshot_seq {
            log_last
        } else {
            snapshot_seq
        };
        let mut log = VaultLog { size: file.size, lines: file.lines, last_seq, snapshot };
        assert(log@ =~= found_state(whole));
        let entries = log.read_since(0);
        if snapshot_seq > 0 && entries.len() > 0 && entries[0].0 <= snapshot_seq {
            assert(entries_view(entries@)[0] == (entries@[0].0, entries@[0].1@));
            let text = log.rewrite_tail(snapshot_seq);
            Opened { log, restore_log, sweep, rewritten: Some(text) }
        } else {
            proof {
                if entries@.len() > 0 {
                    assert(entries_view(entries@)[0] == (entries@[0].0, entries@[0].1@));
                }
            }
            Opened { log, restore_log, sweep, rewritten: None }
        }
    }

    pub fn last_seq(&self) -> (r: u64)
        ensures
            r == self@.last_seq,
    {
        self.last_seq
    }

    /// The size of the log file: what tells clients when to compact.
    pub fn log_bytes(&self) -> (r: u64)
        ensures
            r == self@.size,
    {
        self.size
    }

    /// How far the stored snapshot reaches.
    pub fn snapshot_seq(&self) -> (r: Option<u64>)
        ensures
            r == (match self@.snapshot {
                Some(s) => Some(s.seq),
                None => None,
            }),
    {
        match &self.snapshot {
            Some(s) => Some(s.seq),
            None => None,
        }
    }

    /// How many parts the stored snapshot has: 0 without one.
    pub fn snapshot_parts(&self) -> (r: u32)
        ensures
            r == snap_parts(self@.snapshot),
    {
        match &self.snapshot {
            Some(s) => match &s.store {
                SnapshotStore::Inline(_) => 1,
                SnapshotStore::Files(n) => *n,
            },
            None => 0,
        }
    }

    /// Where one part of the stored snapshot is; `None` where there is none.
    pub fn snapshot_part(&self, idx: u32) -> (r: Option<PartSource>)
        ensures
            match self@.snapshot {
                Some(s) => match s.store {
                    StoreView::Inline(bytes) => if idx == 0 {
                        r matches Some(PartSource::Inline(b)) && b@ == bytes
                    } else {
                        r is None
                    },
                    StoreView::Files(n) => if idx < n {
                        r matches Some(PartSource::File(dir, name)) && dir@ == parts_dir(s.seq)
                            && name@ == dec(idx as nat)
                    } else {
                        r is None
                    },
                },
                None => r is None,
            },
    {
        match &self.snapshot {
            Some(s) => match &s.store {
                SnapshotStore::Inline(bytes) => if idx == 0 {
                    Some(PartSource::Inline(copy_bytes(bytes)))
                } else {
                    None
                },
                SnapshotStore::Files(n) => if idx < *n {
                    Some(PartSource::File(parts_dir_name(s.seq), render_u64(idx as u64)))
                } else {
                    None
                },
            },
            None => None,
        }
    }

    fn check_compactable(&self, upto_seq: u64) -> (r: Result<(), Refusal>)
        ensures
            match compact_refused(self@, upto_seq) {
                Some(why) => r == Err::<(), Refusal>(why),
                None => r is Ok,
            },
    {
        let current: u64 = match &self.snapshot {
            Some(s) => s.seq,
            None => 0,
        };
        if upto_seq <= current {
            return Err(Refusal::Stale);
        }
        if upto_seq > self.last_seq {
            return Err(Refusal::Ahead);
        }
        Ok(())
    }

    /// Keeps only the entries above `upto_seq`, and returns the text of the new
    /// log file.
    fn rewrite_tail(&mut self, upto_seq: u64) -> (r: String)
        ensures
            final(self)@ == truncated(old(self)@, upto_seq),
            r@ == file_text(final(self)@.lines, 0),
    {
        let ghost st = self@;
        let kept = tail_of(&self.lines, upto_seq);
        let text = text_of_file(&kept);
        self.size = byte_len(text.as_str()) as u64;
        self.lines = kept;
        assert(self@ =~= truncated(st, upto_seq));
        text
    }

    fn publication(&self, seq: u64, store: SnapshotStore, ts: u64) -> (r: Publication)
        ensures
            publishes(r, self@, SnapView { seq, store: store@ }, ts),
    {
        let kept = tail_of(&self.lines, seq);
        Publication {
            seq,
            snapshot_json: snapshot_json(seq, &store, ts),
            log_text: text_of_file(&kept),
            store,
        }
    }

    /// What to write for a snapshot of one blob that is to cover the log up to
    /// `upto_seq`; it may be offered while the log is over its quota, but must
    /// itself fit it.
    pub fn plan_compact(&self, upto_seq: u64, blob: &Vec<u8>, ts: u64, quota: u64) -> (r: Result<
        Publication,
        Refusal,
    >)
        ensures
            match blob_refused(self@, upto_seq, blob@.len(), quota) {
                Some(why) => r == Err::<Publication, Refusal>(why),
                None => r matches Ok(p) && publishes(
                    p,
                    self@,
                    SnapView { seq: upto_seq, store: StoreView::Inline(blob@) },
                    ts,
                ),
            },
    {
        if blob.len() > SNAPSHOT_MAX {
            return Err(Refusal::SnapshotTooLarge);
        }
        if blob.len() as u64 > quota {
            return Err(Refusal::TooLarge);
        }
        match self.check_compactable(upto_seq) {
            Ok(()) => {},
            Err(why) => {
                return Err(why);
            },
        }
        Ok(self.publication(upto_seq, SnapshotStore::Inline(copy_bytes(blob)), ts))
    }

    /// Records that a snapshot was written.
    pub fn publish(&mut self, p: Publication)
        ensures
            final(self)@ == compacted(old(self)@, SnapView { seq: p.seq, store: p.store@ }),
    {
        let ghost st = self@;
        let _ = self.rewrite_tail(p.seq);
        self.snapshot = Some(SnapshotState { seq: p.seq, store: p.store });
        assert(self@ =~= compacted(st, SnapView { seq: p.seq, store: p.store@ }));
    }

    /// Accepts a snapshot that covers the log up to `upto_seq`, and drops every
    /// entry that it covers. Numbers are never given anew.
    pub fn compact(&mut self, upto_seq: u64, blob: &Vec<u8>, ts: u64) -> (r: Result<(), Refusal>)
        ensures
            match blob_refused(old(self)@, upto_seq, blob@.len(), SNAPSHOT_TOTAL_MAX) {
                Some(why) => r == Err::<(), Refusal>(why) && final(self)@ == old(self)@,
                None => r is Ok && final(self)@ == compacted(
                    old(self)@,
                    SnapView { seq: upto_seq, store: StoreView::Inline(blob@) },
                ),
            },
    {
        match self.plan_compact(upto_seq, blob, ts, SNAPSHOT_TOTAL_MAX) {
            Ok(p) => {
                self.publish(p);
                Ok(())
            },
            Err(why) => Err(why),
        }
    }

    /// Starts a chunked upload; an offer that could never be committed is
    /// refused at once.
    pub fn stage_parts_within(&self, upto_seq: u64, of: u32, quota: u64) -> (r: Result<
        PartStaging,
        Refusal,
    >)
        ensures
            match stage_refused(self@, upto_seq, of) {
                Some(why) => r == Err::<PartStaging, Refusal>(why),
                None => r matches Ok(up) && up@ == staged(upto_seq, of, quota),
            },
    {
        if of == 0 {
            return Err(Refusal::PartOrder);
        }
        match self.check_compactable(upto_seq) {
            Ok(()) => {},
            Err(why) => {
                return Err(why);
            },
        }
        Ok(
            PartStaging {
                upto_seq,
                of,
                next_idx: 0,
                total_bytes: 0,
                cap: if quota < SNAPSHOT_TOTAL_MAX {
                    quota
                } else {
                    SNAPSHOT_TOTAL_MAX
                },
            },
        )
    }

    /// Starts a chunked upload under no other cap than the relay's own.
    pub fn stage_parts(&self, upto_seq: u64, of: u32) -> (r: Result<PartStaging, Refusal>)
        ensures
            match stage_refused(self@, upto_seq, of) {
                Some(why) => r == Err::<PartStaging, Refusal>(why),
                None => r matches Ok(up) && up@ == staged(upto_seq, of, SNAPSHOT_TOTAL_MAX),
            },
    {
        self.stage_parts_within(upto_seq, of, SNAPSHOT_TOTAL_MAX)
    }

    /// What to write to commit a chunked upload, whose first part is `first`.
    pub fn plan_commit(&self, staging: &PartStaging, first: &Vec<u8>, ts: u64) -> (r: Result<
        Publication,
        Refusal,
    >)
        ensures
            match commit_refused(self@, staging@, first@) {
                Some(why) => r == Err::<Publication, Refusal>(why),
                None => r matches Ok(p) && publishes(
                    p,
                    self@,
                    committed_snap(staging@, first@),
                    ts,
                ),
            },
    {
        if staging.next_idx != staging.of {
            return Err(Refusal::PartOrder);
        }
        if staging.of == 1 {
            return self.plan_compact(staging.upto_seq, first, ts, SNAPSHOT_TOTAL_MAX);
        }
        match self.check_compactable(staging.upto_seq) {
            Ok(()) => {},
            Err(why) => {
                return Err(why);
            },
        }
        Ok(self.publication(staging.upto_seq, SnapshotStore::Files(staging.of), ts))
    }

    /// Commits a chunked upload. One part is stored as a single blob is; more
    /// stay in their files.
    pub fn commit_parts(&mut self, staging: PartStaging, first: &Vec<u8>, ts: u64) -> (r: Result<
        (),
        Refusal,
    >)
        ensures
            match commit_refused(old(self)@, staging@, first@) {
                Some(why) => r == Err::<(), Refusal>(why) && final(self)@ == old(self)@,
                None => r is Ok && final(self)@ == compacted(
                    old(self)@,
                    committed_snap(staging@, first@),
                ),
            },
    {
        match self.plan_commit(&staging, first, ts) {
            Ok(p) => {
                self.publish(p);
                Ok(())
            },
            Err(why) => Err(why),
        }
    }

    /// The entry that a blob becomes, unless the log is at its quota.
    pub fn plan_append(&self, blob: &Vec<u8>, ts: u64, quota: u64) -> (r: Result<LogLine, Refusal>)
        requires
            self@.last_seq < u64::MAX,
        ensures
            if self@.size >= quota {
                r == Err::<LogLine, Refusal>(Refusal::QuotaExceeded)
            } else {
                r matches Ok(l) && l@ == next_line(self@, blob@, ts) && b64_bytes(l@.blob) == Some(
                    blob@,
                )
            },
    {
        if self.size >= quota {
            return Err(Refusal::QuotaExceeded);
        }
        Ok(LogLine { seq: self.last_seq + 1, ts, blob: b64_encode(blob) })
    }

    /// Records that an entry was written.
    pub fn record(&mut self, line: LogLine)
        ensures
            final(self)@ == appended(old(self)@, line@),
    {
        let ghost st = self@;
        let ghost lv = line@;
        let text = line.to_json();
        let n: u64 = byte_len(text.as_str()) as u64;
        self.size = if self.size >= u64::MAX - n {
            u64::MAX
        } else {
            self.size + n + 1
        };
        self.last_seq = line.seq;
        let stored = StoredLine { text, line: Some(line) };
        let ghost sv = stored@;
        self.lines.push(stored);
        assert(stored_view(self.lines@) =~= st.lines.push(sv));
        assert(self@ =~= appended(st, lv));
    }

    /// Appends a blob under a quota, and returns its number.
    pub fn append_within(&mut self, blob: &Vec<u8>, ts: u64, quota: u64) -> (r: Result<u64, Refusal>)
        requires
            old(self)@.last_seq < u64::MAX,
        ensures
            if old(self)@.size >= quota {
                r == Err::<u64, Refusal>(Refusal::QuotaExceeded) && final(self)@ == old(self)@
            } else {
                r == Ok::<u64, Refusal>((old(self)@.last_seq + 1) as u64) && final(self)@
                    == appended(old(self)@, next_line(old(self)@, blob@, ts))
            },
            r is Ok ==> forall|since: u64|
                since <= old(self)@.last_seq ==> #[trigger] since_from(
                    final(self)@.lines,
                    since,
                    0,
                ) == since_from(old(self)@.lines, since, 0).push(
                    ((old(self)@.last_seq + 1) as u64, blob@),
                ),
    {
        match self.plan_append(blob, ts, quota) {
            Ok(line) => {
                let seq: u64 = line.seq;
                let ghost st = self@;
                let ghost lv = line@;
                self.record(line);
                proof {
                    let s = StoredView { text: line_text(lv), line: Some(lv) };
                    assert forall|since: u64| since <= st.last_seq implies #[trigger] since_from(
                        self@.lines,
                        since,
                        0,
                    ) == since_from(st.lines, since, 0).push((seq, blob@)) by {
                        lemma_since_push(st.lines, s, since);
                        assert(since_from(st.lines, since, 0) + seq![(seq, blob@)] =~= since_from(
                            st.lines,
                            since,
                            0,
                        ).push((seq, blob@)));
                    }
                }
                Ok(seq)
            },
            Err(why) => Err(why),
        }
    }

    /// Appends a blob, and returns its number.
    pub fn append(&mut self, blob: &Vec<u8>, ts: u64) -> (r: Result<u64, Refusal>)
        requires
            old(self)@.last_seq < u64::MAX,
        ensures
            if old(self)@.size >= LOG_CAP_BYTES {
                r == Err::<u64, Refusal>(Refusal::LogFull) && final(self)@ == old(self)@
            } else {
                r == Ok::<u64, Refusal>((old(self)@.last_seq + 1) as u64) && final(self)@
                    == appended(old(self)@, next_line(old(self)@, blob@, ts))
            },
            r is Ok ==> forall|since: u64|
                since <= old(self)@.last_seq ==> #[trigger] since_from(
                    final(self)@.lines,
                    since,
                    0,
                ) == since_from(old(self)@.lines, since, 0).push(
                    ((old(self)@.last_seq + 1) as u64, blob@),
                ),
    {
        match self.append_within(blob, ts, LOG_CAP_BYTES) {
            Ok(seq) => Ok(seq),
            Err(_) => Err(Refusal::LogFull),
        }
    }

    /// Everything after `since_seq`, in order.
    pub fn read_since(&self, since_seq: u64) -> (r: Vec<(u64, Vec<u8>)>)
        ensures
            entries_view(r@) == since_from(self@.lines, since_seq, 0),
    {
        let ghost all = stored_view(self.lines@);
        let mut out: Vec<(u64, Vec<u8>)> = Vec::new();
        let mut i: usize = 0;
        assert(entries_view(out@) =~= seq![]);
        while i < self.lines.len()
            invariant
                i <= self.lines@.len(),
                all == stored_view(self.lines@),
                since_from(all, since_seq, 0) == entries_view(out@) + since_from(
                    all,
                    since_seq,
                    i as int,
                ),
            decreases self.lines@.len() - i,
        {
            assert(all[i as int] == self.lines@[i as int]@);
            let ghost prev = entries_view(out@);
            let ghost one = entry_of(all[i as int], since_seq);
            let ghost rest = since_from(all, since_seq, i + 1);
            match &self.lines[i].line {
                Some(l) => {
                    if l.seq > since_seq {
                        match b64_decode(l.blob.as_str()) {
                            Some(bytes) => {
                                let ghost e = (l.seq, bytes@);
                                out.push((l.seq, bytes));
                                assert(entries_view(out@) =~= prev.push(e));
                            },
                            None => {},
                        }
                    }
                },
                None => {},
            }
            assert(entries_view(out@) =~= prev + one);
            assert(prev + (one + rest) =~= entries_view(out@) + rest);
            i = i + 1;
        }
        assert(entries_view(out@) + since_from(all, since_seq, i as int) =~= entries_view(out@));
        out
    }
}

/// How many parts a snapshot has.
pub open spec fn snap_parts(s: Option<SnapView>) -> u32 {
    match s {
        Some(x) => match x.store {
            StoreView::Inline(_) => 1,
            StoreView::Files(n) => n,
        },
        None => 0,
    }
}

fn last_of(ls: &Vec<StoredLine>) -> (r: u64)
    ensures
        r == last_number(stored_view(ls@), ls@.len() as int),
{
    let ghost all = stored_view(ls@);
    let mut n: usize = ls.len();
    while n > 0
        invariant
            n <= ls@.len(),
            all == stored_view(ls@),
            last_number(all, ls@.len() as int) == last_number(all, n as int),
        decreases n,
    {
        assert(all[n - 1] == ls@[n - 1]@);
        match &ls[n - 1].line {
            Some(l) => {
                return l.seq;
            },
            None => {},
        }
        n = n - 1;
    }
    0
}

// ---------------------------------------------------------------------------
// What holds of every log
// ---------------------------------------------------------------------------

/// A line whose entry a reader gets.
pub open spec fn readable(s: StoredView) -> bool {
    s.line is Some && b64_bytes(s.line->0.blob) is Some
}

/// The numbers of the entries ascend.
pub open spec fn numbers_ascend(ls: Seq<StoredView>) -> bool {
    forall|i: int, j: int|
        0 <= i < j < ls.len() ==> (#[trigger] ls[i]).line->0.seq < (#[trigger] ls[j]).line->0.seq
}

/// A log as appending and compacting leave it: every entry is readable, the
/// numbers ascend, none is covered by the snapshot, and the last one given is
/// the greatest there is.
pub open spec fn sound(st: LogState) -> bool {
    &&& forall|i: int|
        0 <= i < st.lines.len() ==> readable(#[trigger] st.lines[i]) && st.lines[i].line->0.seq
            > covered(st.snapshot)
    &&& numbers_ascend(st.lines)
    &&& st.last_seq == (if st.lines.len() > 0 {
        st.lines.last().line->0.seq
    } else {
        covered(st.snapshot)
    })
}

proof fn lemma_since_concat(a: Seq<StoredView>, b: Seq<StoredView>, since: u64)
    ensures
        since_from(a + b, since, 0) == since_from(a, since, 0) + since_from(b, since, 0),
{
    lemma_since_concat_from(a, b, since, 0);
    lemma_since_right(a, b, since, a.len() as int);
}

proof fn lemma_since_concat_from(a: Seq<StoredView>, b: Seq<StoredView>, since: u64, i: int)
    requires
        0 <= i <= a.len(),
    ensures
        since_from(a + b, since, i) == since_from(a, since, i) + since_from(
            a + b,
            since,
            a.len() as int,
        ),
    decreases a.len() - i,
{
    let c = a + b;
    if i < a.len() {
        lemma_since_concat_from(a, b, since, i + 1);
        assert(c[i] == a[i]);
        let one = entry_of(a[i], since);
        assert(one + (since_from(a, since, i + 1) + since_from(c, since, a.len() as int)) =~= (one
            + since_from(a, since, i + 1)) + since_from(c, since, a.len() as int));
    } else {
        assert(since_from(a, since, i) + since_from(c, since, i) =~= since_from(c, since, i));
    }
}

proof fn lemma_since_right(a: Seq<StoredView>, b: Seq<StoredView>, since: u64, i: int)
    requires
        a.len() <= i,
    ensures
        since_from(a + b, since, i) == since_from(b, since, i - a.len()),
    decreases a.len() + b.len() - i,
{
    if i < a.len() + b.len() {
        lemma_since_right(a, b, since, i + 1);
        assert((a + b)[i] == b[i - a.len()]);
    }
}

proof fn lemma_since_push(ls: Seq<StoredView>, s: StoredView, since: u64)
    ensures
        since_from(ls.push(s), since, 0) == since_from(ls, since, 0) + entry_of(s, since),
{
    lemma_since_concat(ls, seq![s], since);
    assert(ls.push(s) =~= ls + seq![s]);
    reveal_with_fuel(since_from, 2);
    assert(since_from(seq![s], since, 0) =~= entry_of(s, since));
}

proof fn lemma_since_tail(ls: Seq<StoredView>, upto: u64, since: u64, i: int)
    requires
        0 <= i <= ls.len(),
        upto <= since,
    ensures
        since_from(tail_from(ls, upto, i), since, 0) == since_from(ls, since, i),
    decreases ls.len() - i,
{
    if i < ls.len() {
        lemma_since_tail(ls, upto, since, i + 1);
        let rest = tail_from(ls, upto, i + 1);
        let kept = match ls[i].line {
            Some(l) => l.seq > upto,
            None => false,
        };
        if kept {
            lemma_since_concat(seq![ls[i]], rest, since);
            reveal_with_fuel(since_from, 2);
            assert(since_from(seq![ls[i]], since, 0) =~= entry_of(ls[i], since));
        } else {
            assert(Seq::<StoredView>::empty() + rest =~= rest);
            assert(entry_of(ls[i], since) + since_from(ls, since, i + 1) =~= since_from(
                ls,
                since,
                i + 1,
            ));
        }
    }
}

/// What a tail holds: lines of the log above `upto`.
proof fn lemma_tail_members(ls: Seq<StoredView>, upto: u64, i: int)
    requires
        0 <= i <= ls.len(),
        numbers_ascend(ls),
        forall|k: int| 0 <= k < ls.len() ==> (#[trigger] ls[k]).line is Some,
    ensures
        numbers_ascend(tail_from(ls, upto, i)),
        forall|k: int|
            0 <= k < tail_from(ls, upto, i).len() ==> (#[trigger] tail_from(
                ls,
                upto,
                i,
            )[k]).line->0.seq > upto && exists|j: int|
                i <= j < ls.len() && tail_from(ls, upto, i)[k] == #[trigger] ls[j],
        i < ls.len() && ls.last().line->0.seq > upto ==> tail_from(ls, upto, i).len() > 0
            && tail_from(ls, upto, i).last() == ls.last(),
    decreases ls.len() - i,
{
    if i < ls.len() {
        lemma_tail_members(ls, upto, i + 1);
        let all = tail_from(ls, upto, i);
        let rest = tail_from(ls, upto, i + 1);
        if ls[i].line->0.seq > upto {
            assert(all =~= seq![ls[i]] + rest);
            assert forall|k: int| 0 <= k < all.len() implies (#[trigger] all[k]).line->0.seq > upto
                && exists|j: int| i <= j < ls.len() && all[k] == #[trigger] ls[j] by {
                if k == 0 {
                    assert(all[0] == ls[i]);
                } else {
                    assert(all[k] == rest[k - 1]);
                    let j = choose|j: int| i + 1 <= j < ls.len() && rest[k - 1] == #[trigger] ls[j];
                    assert(all[k] == ls[j]);
                }
            }
            assert forall|a: int, b: int| 0 <= a < b < all.len() implies (
            #[trigger] all[a]).line->0.seq < (#[trigger] all[b]).line->0.seq by {
                assert(all[b] == rest[b - 1]);
                if a == 0 {
                    let j = choose|j: int| i + 1 <= j < ls.len() && rest[b - 1] == #[trigger] ls[j];
                    assert(ls[i].line->0.seq < ls[j].line->0.seq);
                } else {
                    assert(all[a] == rest[a - 1]);
                }
            }
            if i + 1 < ls.len() && ls.last().line->0.seq > upto {
                assert(all.last() == rest.last());
            }
        } else {
            assert(all =~= rest);
            assert forall|k: int| 0 <= k < all.len() implies (#[trigger] all[k]).line->0.seq > upto
                && exists|j: int| i <= j < ls.len() && all[k] == #[trigger] ls[j] by {
                assert(all[k] == rest[k]);
                let j = choose|j: int| i + 1 <= j < ls.len() && rest[k] == #[trigger] ls[j];
                assert(all[k] == ls[j]);
            }
        }
    }
}

/// A compaction loses nothing above it: a reader past the snapshot gets what
/// it would have got before, the numbers go on from the same last one, and
/// what the log still holds is what lies above the snapshot.
pub proof fn law_compact_keeps_the_tail(st: LogState, snap: SnapView, since: u64)
    ensures
        compacted(st, snap).last_seq == st.last_seq,
        compacted(st, snap).snapshot == Some(snap),
        since >= snap.seq ==> since_from(compacted(st, snap).lines, since, 0) == since_from(
            st.lines,
            since,
            0,
        ),
{
    if since >= snap.seq {
        lemma_since_tail(st.lines, snap.seq, since, 0);
    }
}

/// Appending and compacting keep a log sound: the numbers always ascend, and a
/// new entry gets one that was never given before.
pub proof fn law_logs_stay_sound(st: LogState, l: LineView, snap: SnapView)
    requires
        sound(st),
    ensures
        l.seq == st.last_seq + 1 && b64_bytes(l.blob) is Some ==> sound(appended(st, l)),
        l.seq == st.last_seq + 1 ==> forall|i: int|
            0 <= i < st.lines.len() ==> (#[trigger] st.lines[i]).line->0.seq < l.seq,
        compact_refused(st, snap.seq) is None ==> sound(compacted(st, snap)),
{
    assert forall|i: int| 0 <= i < st.lines.len() implies (#[trigger] st.lines[i]).line->0.seq
        <= st.last_seq by {
        assert(st.lines.last() == st.lines[st.lines.len() - 1]);
    }
    if l.seq == st.last_seq + 1 && b64_bytes(l.blob) is Some {
        let next = appended(st, l);
        assert(covered(st.snapshot) <= st.last_seq) by {
            if st.lines.len() > 0 {
                assert(readable(st.lines[st.lines.len() - 1]));
            }
        }
        assert forall|i: int| 0 <= i < next.lines.len() implies readable(#[trigger] next.lines[i])
            && next.lines[i].line->0.seq > covered(next.snapshot) by {
            if i < st.lines.len() {
                assert(next.lines[i] == st.lines[i]);
            }
        }
        assert forall|i: int, j: int| 0 <= i < j < next.lines.len() implies (
        #[trigger] next.lines[i]).line->0.seq < (#[trigger] next.lines[j]).line->0.seq by {
            assert(next.lines[i] == st.lines[i]);
            if j < st.lines.len() {
                assert(next.lines[j] == st.lines[j]);
            }
        }
    }
    if compact_refused(st, snap.seq) is None {
        let next = compacted(st, snap);
        assert forall|k: int| 0 <= k < st.lines.len() implies (#[trigger] st.lines[k]).line
            is Some by {
            assert(readable(st.lines[k]));
        }
        lemma_tail_members(st.lines, snap.seq, 0);
        assert forall|i: int| 0 <= i < next.lines.len() implies readable(#[trigger] next.lines[i])
            && next.lines[i].line->0.seq > covered(next.snapshot) by {
            let j = choose|j: int|
                0 <= j < st.lines.len() && next.lines[i] == #[trigger] st.lines[j];
            assert(readable(st.lines[j]));
        }
        if st.lines.len() > 0 && st.lines.last().line->0.seq > snap.seq {
            assert(next.lines.last() == st.lines.last());
        } else {
            if next.lines.len() > 0 {
                let j = choose|j: int|
                    0 <= j < st.lines.len() && next.lines[0] == #[trigger] st.lines[j];
                assert(st.lines[j].line->0.seq <= st.last_seq);
                assert(false);
            }
        }
    }
}

proof fn lemma_last_number(st: LogState)
    requires
        sound(st),
    ensures
        st.lines.len() > 0 ==> last_number(st.lines, st.lines.len() as int)
            == st.lines.last().line->0.seq,
{
    if st.lines.len() > 0 {
        assert(readable(st.lines[st.lines.len() - 1]));
    }
}

proof fn lemma_first_entry(ls: Seq<StoredView>)
    requires
        ls.len() > 0,
        readable(ls[0]),
        ls[0].line->0.seq > 0,
    ensures
        since_from(ls, 0, 0).len() > 0,
        since_from(ls, 0, 0)[0].0 == ls[0].line->0.seq,
{
}

/// Opening a vault again gives the state it was left in: the last number, the
/// entries and the snapshot come back from the files.
pub proof fn law_open_recovers(st: LogState, f: Found)
    requires
        sound(st),
        current_file(f) == (FileView { size: st.size, lines: st.lines }),
        recovered(f.snapshot, f.dirs@) == st.snapshot,
    ensures
        opened(f) == st,
{
    lemma_last_number(st);
    if st.lines.len() > 0 {
        assert(readable(st.lines[0]));
        assert(readable(st.lines[st.lines.len() - 1]));
        lemma_first_entry(st.lines);
    }
    assert(found_state(f) =~= st);
}

/// A crash after the snapshot was written and before the log was cut: opening
/// the vault finishes the compaction.
pub proof fn law_open_finishes_a_compaction(st: LogState, snap: SnapView, f: Found)
    requires
        sound(st),
        compact_refused(st, snap.seq) is None,
        current_file(f) == (FileView { size: st.size, lines: st.lines }),
        recovered(f.snapshot, f.dirs@) == Some(snap),
    ensures
        opened(f).lines == compacted(st, snap).lines,
        opened(f).last_seq == st.last_seq,
        opened(f).snapshot == Some(snap),
{
    lemma_last_number(st);
    if st.lines.len() > 0 {
        assert(readable(st.lines[0]));
        lemma_first_entry(st.lines);
        if st.lines[0].line->0.seq > snap.seq {
            lemma_whole_tail(st.lines, snap.seq, 0);
        }
    }
    assert(opened(f).lines =~= compacted(st, snap).lines);
}

proof fn lemma_whole_tail(ls: Seq<StoredView>, upto: u64, i: int)
    requires
        0 <= i <= ls.len(),
        numbers_ascend(ls),
        ls.len() > 0,
        ls[0].line->0.seq > upto,
        forall|k: int| 0 <= k < ls.len() ==> readable(#[trigger] ls[k]),
    ensures
        tail_from(ls, upto, i) == ls.skip(i),
    decreases ls.len() - i,
{
    if i < ls.len() {
        lemma_whole_tail(ls, upto, i + 1);
        assert(readable(ls[i]));
        assert(ls[i].line->0.seq > upto) by {
            if i > 0 {
                assert(ls[0].line->0.seq < ls[i].line->0.seq);
            }
        }
        assert(seq![ls[i]] + ls.skip(i + 1) =~= ls.skip(i));
    } else {
        assert(ls.skip(i) =~= seq![]);
    }
}

/// Compaction is the cure of a full log: whether a snapshot is accepted does
/// not depend on how large the log has grown.
pub proof fn law_a_full_log_can_be_compacted(
    st: LogState,
    size: u64,
    upto: u64,
    len: nat,
    quota: u64,
    of: u32,
)
    ensures
        blob_refused(LogState { size, ..st }, upto, len, quota) == blob_refused(
            st,
            upto,
            len,
            quota,
        ),
        stage_refused(LogState { size, ..st }, upto, of) == stage_refused(st, upto, of),
{
}

/// A log gives back what was written: a reader gets the bytes of a new entry
/// last, under its number, after all that the reader would have got before; one
/// who has that number already gets nothing more.
pub proof fn law_a_log_gives_back_what_was_written(
    st: LogState,
    l: LineView,
    bytes: Seq<u8>,
    since: u64,
)
    requires
        b64_bytes(l.blob) == Some(bytes),
    ensures
        since_from(appended(st, l).lines, since, 0) == if since < l.seq {
            since_from(st.lines, since, 0).push((l.seq, bytes))
        } else {
            since_from(st.lines, since, 0)
        },
{
    let s = StoredView { text: line_text(l), line: Some(l) };
    lemma_since_push(st.lines, s, since);
    assert(since_from(appended(st, l).lines, since, 0) =~= if since < l.seq {
        since_from(st.lines, since, 0).push((l.seq, bytes))
    } else {
        since_from(st.lines, since, 0)
    });
}

} // verus!

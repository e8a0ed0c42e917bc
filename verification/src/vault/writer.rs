//! Transactional write-back: propose, commit, revert.
//!
//! A changeset is validated and previewed without touching anything, applied
//! as a whole with a reversible snapshot, and undone by its version. A
//! read-only session forbids mutation. Every mutation is audited.
use crate::error::{error, ErrorView, TacitusError};
use crate::ids::{id_text, stable_id};
use crate::numbers::{dec, render_u64};
use crate::paths::{is_straight, join_path, key_of_note, note_key, path_join, without_md};
use crate::strmap::{ascending, StrMap};
use crate::memory::store::lemma_trimmed_holds_no_more;
use crate::text::{
    count_from,
    copy_opt, copy_strings, has_prefix, has_string, holds, lemma_next_match, lines, lines_of,
    matches_at, next_match, opt_text, split_on, str_holds, texts, trim_end, trim_end_str,
};
use crate::vault::index::{
    ids_ascend, lemma_upserted, lemma_without, note_at, upserted, without, VaultIndex,
};
use crate::vault::parse::{list_strings, parse_note, parsed, sections, strings_from};
use crate::vault::types::{Note, NoteView};
use crate::vault::value::{
    copy_entries, entries_view, entries_with, entry_from, items_view, lemma_entry_from,
    lemma_model, set_entry, yaml_get, yaml_text, Yaml, YamlView,
};
use crate::vault::write::{
    after_steps, apply_all, apply_steps, build_diff, change_id, change_id_of, commit_steps,
    diff_of, diff_outcome, diff_view, diffs_from, files_view, is_written, law_raw_lands_as_it_is,
    lemma_after_steps, lemma_diffs_before, lemma_raw_id, lemma_same_files, not_found,
    not_found_error, note_file, ops_view, opt_yaml, raw_of, steps_view, ChangeOp, Changeset,
    DiffEntry, DiffView, OpView, PermissionScope, Step, StepView,
};
use vstd::prelude::*;
use vstd::string::*;

verus! {

/// The result of a dry run: a stable id and the before/after diff.
#[derive(Debug)]
pub struct Proposal {
    pub change_id: String,
    pub diff: Vec<DiffEntry>,
}

/// The result of a commit: a reversible version.
#[derive(Debug)]
pub struct CommitResult {
    pub version_id: String,
}

/// The result of a revert.
#[derive(Debug)]
pub struct RevertResult {
    pub reverted: bool,
    pub version_id: String,
}

/// What a commit leaves behind: enough to undo it by restoring every affected
/// note's prior raw contents.
pub struct Snapshot {
    pub version_id: String,
    pub change_id: String,
    /// Note id to prior raw contents, or nothing where the note did not exist.
    pub before: StrMap<Option<String>>,
    /// Note id to new raw contents, or nothing where the note was deleted.
    pub after: StrMap<Option<String>>,
}

/// One entry of the audit log.
#[derive(Debug)]
pub struct AuditEntry {
    pub ts: String,
    pub action: String,
    pub version_id: String,
    pub change_id: Option<String>,
    pub notes: Vec<String>,
    pub scope: PermissionScope,
    /// Who started the write when it was no direct call, such as `sync`.
    pub origin: Option<String>,
}

/// One note's change inside a committed version.
#[derive(Debug)]
pub struct VersionNoteChange {
    pub note_id: String,
    /// `created`, `updated` or `deleted`.
    pub op: String,
    pub before: Option<String>,
    pub after: Option<String>,
}

/// A committed version, note by note.
#[derive(Debug)]
pub struct VersionDetail {
    pub version_id: String,
    pub change_id: String,
    pub notes: Vec<VersionNoteChange>,
}

/// Note states by id.
pub open spec fn states_view(m: Map<Seq<char>, Option<String>>) -> Map<
    Seq<char>,
    Option<Seq<char>>,
> {
    m.map_values(|s: Option<String>| opt_text(s))
}

/// The model of a snapshot.
#[verifier::ext_equal]
pub struct SnapshotView {
    pub version_id: Seq<char>,
    pub change_id: Seq<char>,
    pub before: Map<Seq<char>, Option<Seq<char>>>,
    pub after: Map<Seq<char>, Option<Seq<char>>>,
}

impl View for Snapshot {
    type V = SnapshotView;

    open spec fn view(&self) -> SnapshotView {
        SnapshotView {
            version_id: self.version_id@,
            change_id: self.change_id@,
            before: states_view(self.before@),
            after: states_view(self.after@),
        }
    }
}

/// The model of an audit entry.
#[verifier::ext_equal]
pub struct AuditView {
    pub ts: Seq<char>,
    pub action: Seq<char>,
    pub version_id: Seq<char>,
    pub change_id: Option<Seq<char>>,
    pub notes: Seq<Seq<char>>,
    pub scope: PermissionScope,
    pub origin: Option<Seq<char>>,
}

impl View for AuditEntry {
    type V = AuditView;

    open spec fn view(&self) -> AuditView {
        AuditView {
            ts: self.ts@,
            action: self.action@,
            version_id: self.version_id@,
            change_id: opt_text(self.change_id),
            notes: texts(self.notes@),
            scope: self.scope,
            origin: opt_text(self.origin),
        }
    }
}

pub open spec fn audit_view(v: Seq<AuditEntry>) -> Seq<AuditView> {
    v.map_values(|a: AuditEntry| a@)
}

impl Clone for AuditEntry {
    fn clone(&self) -> (r: Self)
        ensures
            r@ == self@,
    {
        AuditEntry {
            ts: self.ts.clone(),
            action: self.action.clone(),
            version_id: self.version_id.clone(),
            change_id: copy_opt(&self.change_id),
            notes: copy_strings(&self.notes),
            scope: self.scope,
            origin: copy_opt(&self.origin),
        }
    }
}

/// The model of one note's change.
#[verifier::ext_equal]
pub struct NoteChangeView {
    pub note_id: Seq<char>,
    pub op: Seq<char>,
    pub before: Option<Seq<char>>,
    pub after: Option<Seq<char>>,
}

impl View for VersionNoteChange {
    type V = NoteChangeView;

    open spec fn view(&self) -> NoteChangeView {
        NoteChangeView {
            note_id: self.note_id@,
            op: self.op@,
            before: opt_text(self.before),
            after: opt_text(self.after),
        }
    }
}

pub open spec fn changes_view(v: Seq<VersionNoteChange>) -> Seq<NoteChangeView> {
    v.map_values(|c: VersionNoteChange| c@)
}

// ---------------------------------------------------------------------------
// The records of a vault
// ---------------------------------------------------------------------------

/// The records of a vault: its note files by key, the snapshots of its versions,
/// its audit log, and the live index. Snapshots, audit log and index name a note
/// as the changeset did.
pub struct Vault {
    pub files: StrMap<String>,
    pub history: StrMap<Snapshot>,
    /// The versions whose snapshot cannot be read, and why.
    pub corrupt: StrMap<String>,
    pub audit: Vec<AuditEntry>,
    pub index: VaultIndex,
}

impl Vault {
    /// A vault without any record.
    pub fn new() -> (r: Self)
        ensures
            r.files@ == Map::<Seq<char>, String>::empty(),
            r.history@ == Map::<Seq<char>, Snapshot>::empty(),
            r.corrupt@ == Map::<Seq<char>, String>::empty(),
            r.audit@.len() == 0,
            r.index@.len() == 0,
    {
        Vault {
            files: StrMap::new(),
            history: StrMap::new(),
            corrupt: StrMap::new(),
            audit: Vec::new(),
            index: VaultIndex::new(),
        }
    }

    /// The files of the vault.
    pub open spec fn notes(self) -> Map<Seq<char>, Seq<char>> {
        files_view(self.files@)
    }
}

/// The states of the notes of a diff before it, by note id.
pub open spec fn before_states(ds: Seq<DiffView>, n: int) -> Map<Seq<char>, Option<Seq<char>>>
    decreases n,
{
    if n <= 0 {
        Map::empty()
    } else {
        before_states(ds, n - 1).insert(ds[n - 1].note_id, ds[n - 1].before)
    }
}

/// The states of the notes of a diff after it, by note id.
pub open spec fn after_states(ds: Seq<DiffView>, n: int) -> Map<Seq<char>, Option<Seq<char>>>
    decreases n,
{
    if n <= 0 {
        Map::empty()
    } else {
        after_states(ds, n - 1).insert(ds[n - 1].note_id, ds[n - 1].after)
    }
}

/// The steps that bring notes to given states, in the order of their ids `keys`.
pub open spec fn state_steps(
    keys: Seq<Seq<char>>,
    states: Map<Seq<char>, Option<Seq<char>>>,
) -> Seq<StepView> {
    keys.map_values(|k: Seq<char>| StepView { key: note_key(k), raw: states[k] })
}

/// The index after the states of the first `n` of `keys` are reflected in it.
pub open spec fn reflected(
    s: Seq<NoteView>,
    keys: Seq<Seq<char>>,
    states: Map<Seq<char>, Option<Seq<char>>>,
    n: int,
) -> Seq<NoteView>
    decreases n,
{
    if n <= 0 {
        s
    } else {
        let before = reflected(s, keys, states, n - 1);
        let id = keys[n - 1];
        match states[id] {
            Some(raw) => upserted(before, parsed(raw, id + ".md"@)),
            None => without(before, id),
        }
    }
}

/// `keys` are the keys of `states`, in order.
pub open spec fn keys_of_states(
    keys: Seq<Seq<char>>,
    states: Map<Seq<char>, Option<Seq<char>>>,
) -> bool {
    &&& ascending(keys)
    &&& forall|k: int| 0 <= k < keys.len() ==> states.contains_key(#[trigger] keys[k])
    &&& forall|id: Seq<char>| #[trigger] states.contains_key(id) ==> keys.contains(id)
}

proof fn lemma_keys_of_states(states: StrMap<Option<String>>)
    requires
        ascending(states.keys()),
        forall|i: int|
            0 <= i < states.keys().len() ==> states@.contains_key(#[trigger] states.keys()[i]),
        forall|k: Seq<char>| #[trigger] states@.contains_key(k) ==> states.keys().contains(k),
    ensures
        keys_of_states(states.keys(), states_view(states@)),
{
    let keys = states.keys();
    let sv = states_view(states@);
    assert forall|k: int| 0 <= k < keys.len() implies sv.contains_key(#[trigger] keys[k]) by {
        assert(states@.contains_key(keys[k]));
    }
    assert forall|id: Seq<char>| #[trigger] sv.contains_key(id) implies keys.contains(id) by {
        assert(states@.contains_key(id));
    }
}

fn state_list(states: &StrMap<Option<String>>) -> (r: Vec<Step>)
    ensures
        steps_view(r@) == state_steps(states.keys(), states_view(states@)),
        r@.len() == states.keys().len(),
        keys_of_states(states.keys(), states_view(states@)),
{
    let n: usize = states.len();
    let ghost keys = states.keys();
    let ghost sv = states_view(states@);
    let ghost want = state_steps(keys, sv);
    proof {
        lemma_keys_of_states(*states);
    }
    let mut out: Vec<Step> = Vec::new();
    let mut i: usize = 0;
    while i < n
        invariant
            i <= n,
            n == keys.len(),
            keys == states.keys(),
            sv == states_view(states@),
            want == state_steps(keys, sv),
            steps_view(out@) == want.take(i as int),
        decreases n - i,
    {
        let (k, v) = states.entry_at(i);
        let step = Step { key: key_of_note(k.as_str()), raw: copy_opt(v) };
        let ghost prev = steps_view(out@);
        assert(step@ == want[i as int]);
        out.push(step);
        assert(steps_view(out@) =~= prev.push(want[i as int]));
        assert(want.take(i + 1) =~= want.take(i as int).push(want[i as int]));
        i = i + 1;
    }
    assert(want.take(want.len() as int) =~= want);
    out
}

/// Reflects note states into a live index.
pub fn reflect(index: &mut VaultIndex, states: &StrMap<Option<String>>)
    ensures
        final(index)@ == reflected(
            old(index)@,
            states.keys(),
            states_view(states@),
            states.keys().len() as int,
        ),
{
    let n: usize = states.len();
    let ghost start = index@;
    let ghost keys = states.keys();
    let ghost sv = states_view(states@);
    let mut i: usize = 0;
    while i < n
        invariant
            i <= n,
            n == keys.len(),
            keys == states.keys(),
            sv == states_view(states@),
            index@ == reflected(start, keys, sv, i as int),
        decreases n - i,
    {
        let (k, v) = states.entry_at(i);
        match v {
            Some(raw) => {
                let mut path = k.clone();
                path.append(".md");
                index.upsert_raw(path.as_str(), raw.as_str());
            },
            None => index.remove_note(k.as_str()),
        }
        i = i + 1;
    }
}

fn collect_states(diff: &Vec<DiffEntry>) -> (r: (StrMap<Option<String>>, StrMap<Option<String>>))
    ensures
        states_view(r.0@) == before_states(diff_view(diff@), diff@.len() as int),
        states_view(r.1@) == after_states(diff_view(diff@), diff@.len() as int),
{
    let mut before: StrMap<Option<String>> = StrMap::new();
    let mut after: StrMap<Option<String>> = StrMap::new();
    let ghost ds = diff_view(diff@);
    let mut i: usize = 0;
    assert(states_view(before@) =~= Map::empty());
    assert(states_view(after@) =~= Map::empty());
    while i < diff.len()
        invariant
            i <= diff@.len(),
            ds == diff_view(diff@),
            states_view(before@) == before_states(ds, i as int),
            states_view(after@) == after_states(ds, i as int),
        decreases diff@.len() - i,
    {
        assert(ds[i as int] == diff@[i as int]@);
        let ghost b0 = states_view(before@);
        let ghost a0 = states_view(after@);
        before.insert(diff[i].note_id.clone(), copy_opt(&diff[i].before));
        after.insert(diff[i].note_id.clone(), copy_opt(&diff[i].after));
        assert(states_view(before@) =~= b0.insert(ds[i as int].note_id, ds[i as int].before));
        assert(states_view(after@) =~= a0.insert(ds[i as int].note_id, ds[i as int].after));
        i = i + 1;
    }
    (before, after)
}

fn key_list(states: &StrMap<Option<String>>) -> (r: Vec<String>)
    ensures
        texts(r@) == states.keys(),
        keys_of_states(states.keys(), states_view(states@)),
{
    let n: usize = states.len();
    let ghost keys = states.keys();
    proof {
        lemma_keys_of_states(*states);
    }
    let mut out: Vec<String> = Vec::new();
    let mut i: usize = 0;
    while i < n
        invariant
            i <= n,
            n == keys.len(),
            keys == states.keys(),
            texts(out@) == keys.take(i as int),
        decreases n - i,
    {
        let (k, _) = states.entry_at(i);
        let ghost prev = texts(out@);
        out.push(k.clone());
        assert(texts(out@) =~= prev.push(keys[i as int]));
        assert(keys.take(i + 1) =~= keys.take(i as int).push(keys[i as int]));
        i = i + 1;
    }
    assert(keys.take(keys.len() as int) =~= keys);
    out
}

// ---------------------------------------------------------------------------
// Errors
// ---------------------------------------------------------------------------

pub open spec fn read_only_error() -> ErrorView {
    error(
        "PERMISSION_DENIED"@,
        "This session is read-only; writes are not permitted."@,
        "Re-open the vault with a read-write scope to apply changes."@,
    )
}

pub open spec fn unknown_change(id: Seq<char>) -> ErrorView {
    error(
        "UNKNOWN_CHANGE"@,
        "No pending change with id \""@ + id + "\"."@,
        "Call propose_changes first and use the returned change_id."@,
    )
}

pub open spec fn unknown_version(id: Seq<char>, suggestion: Seq<char>) -> ErrorView {
    error("UNKNOWN_VERSION"@, "No version with id \""@ + id + "\"."@, suggestion)
}

fn no_version(id: &str, suggestion: &str) -> (e: TacitusError)
    ensures
        e@ == unknown_version(id@, suggestion@),
{
    let mut reason = "No version with id \"".to_owned();
    reason.append(id);
    reason.append("\".");
    TacitusError::new("UNKNOWN_VERSION", reason.as_str(), suggestion)
}

/// The error for a version whose snapshot cannot be read.
pub open spec fn corrupt_version(reason: Seq<char>) -> ErrorView {
    error("INTERNAL"@, reason, "The history snapshot is corrupt."@)
}

/// Why there is no snapshot of a version: it cannot be read, or there is none.
pub open spec fn no_record(vault: Vault, id: Seq<char>, suggestion: Seq<char>) -> Option<ErrorView> {
    if vault.corrupt@.contains_key(id) {
        Some(corrupt_version(vault.corrupt@[id]@))
    } else if !vault.history@.contains_key(id) {
        Some(unknown_version(id, suggestion))
    } else {
        None
    }
}

fn record_of<'a>(vault: &'a Vault, id: &str, suggestion: &str) -> (r: Result<
    &'a Snapshot,
    TacitusError,
>)
    ensures
        match r {
            Ok(s) => no_record(*vault, id@, suggestion@) is None && vault.history@[id@] == *s,
            Err(e) => no_record(*vault, id@, suggestion@) == Some(e@),
        },
{
    if let Some(reason) = vault.corrupt.get(id) {
        return Err(
            TacitusError::new("INTERNAL", reason.as_str(), "The history snapshot is corrupt."),
        );
    }
    match vault.history.get(id) {
        Some(s) => Ok(s),
        None => Err(no_version(id, suggestion)),
    }
}

// ---------------------------------------------------------------------------
// The writer
// ---------------------------------------------------------------------------

/// A session that writes to a vault.
pub struct NoteWriter {
    pub vault_dir: String,
    pub scope: PermissionScope,
    /// The proposed changesets by change id.
    pub pending: StrMap<Changeset>,
    pub origin: Option<String>,
}

/// The id of the version that a commit makes.
pub open spec fn version_of(change_id: Seq<char>, millis: u64) -> Seq<char> {
    id_text(change_id + ":"@ + dec(millis as nat), "v"@)
}

/// What a dry run answers.
pub open spec fn proposed(ops: Seq<OpView>, files: Map<Seq<char>, Seq<char>>) -> Result<
    (Seq<char>, Seq<DiffView>),
    ErrorView,
> {
    match diff_of(ops, files) {
        Err(e) => Err(e),
        Ok(ds) => match change_id_of(ops) {
            Err(e) => Err(e),
            Ok(id) => Ok((id, ds)),
        },
    }
}

/// What a commit checks before it writes: the session may write, the change is
/// pending, and it can still be done.
pub open spec fn commit_diff(
    scope: PermissionScope,
    pending: Map<Seq<char>, Changeset>,
    change_id: Seq<char>,
    files: Map<Seq<char>, Seq<char>>,
) -> Result<Seq<DiffView>, ErrorView> {
    if scope == PermissionScope::ReadOnly {
        Err(read_only_error())
    } else if !pending.contains_key(change_id) {
        Err(unknown_change(change_id))
    } else {
        diff_of(pending[change_id]@, files)
    }
}

/// A vault after a commit of `ds`.
pub open spec fn committed(
    old_vault: Vault,
    new_vault: Vault,
    ds: Seq<DiffView>,
    entry: AuditView,
    change_id: Seq<char>,
) -> bool {
    let n = ds.len() as int;
    let states = after_states(ds, n);
    let version = entry.version_id;
    &&& new_vault.notes() == after_steps(old_vault.notes(), apply_steps(ds), n)
    &&& new_vault.history@.contains_key(version)
    &&& new_vault.history@[version]@ == SnapshotView {
        version_id: version,
        change_id,
        before: before_states(ds, n),
        after: states,
    }
    &&& new_vault.history@.remove(version) == old_vault.history@.remove(version)
    &&& new_vault.corrupt@ == old_vault.corrupt@.remove(version)
    &&& audit_view(new_vault.audit@) == audit_view(old_vault.audit@).push(entry)
    &&& keys_of_states(entry.notes, states)
    &&& new_vault.index@ == reflected(
        old_vault.index@,
        entry.notes,
        states,
        entry.notes.len() as int,
    )
}

/// A vault after a commit of `ds`, with an audit entry that says what `entry`
/// says and lists the notes of the diff in the order of their ids.
pub open spec fn commit_made(
    old_vault: Vault,
    new_vault: Vault,
    ds: Seq<DiffView>,
    entry: AuditView,
    change_id: Seq<char>,
) -> bool {
    exists|notes: Seq<Seq<char>>|
        committed(old_vault, new_vault, ds, #[trigger] with_notes(entry, notes), change_id)
}

/// An audit entry with its list of notes filled in.
pub open spec fn with_notes(entry: AuditView, notes: Seq<Seq<char>>) -> AuditView {
    AuditView { notes, ..entry }
}

/// A vault after a revert to the states of a snapshot, audited as by
/// `commit_made`.
pub open spec fn revert_made(
    old_vault: Vault,
    new_vault: Vault,
    states: Map<Seq<char>, Option<Seq<char>>>,
    entry: AuditView,
) -> bool {
    exists|notes: Seq<Seq<char>>|
        reverted(old_vault, new_vault, states, #[trigger] with_notes(entry, notes))
}

/// A vault after a revert to the states of a snapshot.
pub open spec fn reverted(
    old_vault: Vault,
    new_vault: Vault,
    states: Map<Seq<char>, Option<Seq<char>>>,
    entry: AuditView,
) -> bool {
    &&& new_vault.notes() == after_steps(
        old_vault.notes(),
        state_steps(entry.notes, states),
        entry.notes.len() as int,
    )
    &&& new_vault.history@ == old_vault.history@
    &&& new_vault.corrupt@ == old_vault.corrupt@
    &&& audit_view(new_vault.audit@) == audit_view(old_vault.audit@).push(entry)
    &&& keys_of_states(entry.notes, states)
    &&& new_vault.index@ == reflected(
        old_vault.index@,
        entry.notes,
        states,
        entry.notes.len() as int,
    )
}

/// A session that proposed a changeset: it is pending under its id, or refused.
pub open spec fn propose_made(
    w0: NoteWriter,
    w1: NoteWriter,
    files: Map<Seq<char>, Seq<char>>,
    changeset: Changeset,
    r: Result<Proposal, TacitusError>,
) -> bool {
    &&& match r {
        Ok(p) => proposed(changeset@, files) == Ok::<(Seq<char>, Seq<DiffView>), ErrorView>(
            (p.change_id@, diff_view(p.diff@)),
        ) && w1.pending@ == w0.pending@.insert(p.change_id@, changeset),
        Err(e) => proposed(changeset@, files) == Err::<(Seq<char>, Seq<DiffView>), ErrorView>(e@)
            && w1.pending@ == w0.pending@,
    }
    &&& w1.vault_dir == w0.vault_dir
    &&& w1.scope == w0.scope
    &&& w1.origin == w0.origin
}

/// A session that committed a pending change: all of it is done, or nothing.
pub open spec fn commit_done(
    w0: NoteWriter,
    w1: NoteWriter,
    v0: Vault,
    v1: Vault,
    change_id: Seq<char>,
    millis: u64,
    now: Seq<char>,
    r: Result<CommitResult, TacitusError>,
) -> bool {
    let diff = commit_diff(w0.scope, w0.pending@, change_id, v0.notes());
    &&& match r {
        Ok(c) => diff is Ok && c.version_id@ == version_of(change_id, millis) && commit_made(
            v0,
            v1,
            diff->Ok_0,
            commit_entry(change_id, millis, now, w0.scope, opt_text(w0.origin)),
            change_id,
        ) && w1.pending@ == w0.pending@.remove(change_id),
        Err(e) => diff == Err::<Seq<DiffView>, ErrorView>(e@) && v1 == v0 && w1.pending@
            == w0.pending@,
    }
    &&& w1.vault_dir == w0.vault_dir
    &&& w1.scope == w0.scope
    &&& w1.origin == w0.origin
}

/// The audit entry of a revert, but for its notes.
pub open spec fn revert_entry(
    version_id: Seq<char>,
    now: Seq<char>,
    scope: PermissionScope,
    origin: Option<Seq<char>>,
) -> AuditView {
    AuditView {
        ts: now,
        action: "revert"@,
        version_id,
        change_id: None,
        notes: seq![],
        scope,
        origin,
    }
}

/// A session that reverted a version: every note has its prior contents, or
/// nothing was done.
pub open spec fn revert_done(
    w: NoteWriter,
    v0: Vault,
    v1: Vault,
    version_id: Seq<char>,
    now: Seq<char>,
    r: Result<RevertResult, TacitusError>,
) -> bool {
    match r {
        Ok(v) => w.scope == PermissionScope::ReadWrite && no_record(
            v0,
            version_id,
            "Use a version_id returned by commit_changes."@,
        ) is None && v.reverted && v.version_id@ == version_id && revert_made(
            v0,
            v1,
            v0.history@[version_id]@.before,
            revert_entry(version_id, now, w.scope, opt_text(w.origin)),
        ),
        Err(e) => v1 == v0 && if w.scope == PermissionScope::ReadOnly {
            e@ == read_only_error()
        } else {
            no_record(v0, version_id, "Use a version_id returned by commit_changes."@) == Some(e@)
        },
    }
}

/// A session that edited one note: what the note's file calls for is applied
/// at once; a note that is not there is refused without a trace.
pub open spec fn edit_done(
    w0: NoteWriter,
    w1: NoteWriter,
    v0: Vault,
    v1: Vault,
    id: Seq<char>,
    ops: spec_fn(Seq<char>) -> Seq<OpView>,
    millis: u64,
    now: Seq<char>,
    r: Result<CommitResult, TacitusError>,
) -> bool {
    match raw_of(v0.notes(), note_key(id)) {
        None => r matches Err(e) && e@ == not_found_error(id) && v1 == v0 && w1 == w0,
        Some(raw) => apply_made(w0, v0, v1, ops(raw), millis, now, r) && session_after(
            w0,
            w1,
            ops(raw),
            v0.notes(),
        ),
    }
}

impl NoteWriter {
    pub fn new(vault_dir: &str, scope: PermissionScope) -> (r: Self)
        ensures
            r.vault_dir@ == vault_dir@,
            r.scope == scope,
            r.pending@ == Map::<Seq<char>, Changeset>::empty(),
            r.origin is None,
    {
        NoteWriter {
            vault_dir: vault_dir.to_owned(),
            scope,
            pending: StrMap::new(),
            origin: None,
        }
    }

    /// Marks every later commit and revert in the audit log with an origin.
    pub fn set_origin(&mut self, origin: &str)
        ensures
            opt_text(final(self).origin) == Some(origin@),
            final(self).vault_dir == old(self).vault_dir,
            final(self).scope == old(self).scope,
            final(self).pending == old(self).pending,
    {
        self.origin = Some(origin.to_owned());
    }

    /// The file of a note.
    pub fn note_path(&self, note_id: &str) -> (r: String)
        ensures
            r@ == join_path(self.vault_dir@, note_id@ + ".md"@),
    {
        let mut name = note_id.to_owned();
        name.append(".md");
        path_join(self.vault_dir.as_str(), name.as_str())
    }

    /// The directory of the snapshots.
    pub fn history_dir(&self) -> (r: String)
        ensures
            r@ == join_path(join_path(self.vault_dir@, ".tacitus"@), "history"@),
    {
        let dir = path_join(self.vault_dir.as_str(), ".tacitus");
        path_join(dir.as_str(), "history")
    }

    /// The file of the audit log.
    pub fn audit_path(&self) -> (r: String)
        ensures
            r@ == join_path(join_path(self.vault_dir@, ".tacitus"@), "audit.log"@),
    {
        let dir = path_join(self.vault_dir.as_str(), ".tacitus");
        path_join(dir.as_str(), "audit.log")
    }

    pub(crate) fn assert_writable(&self) -> (r: Result<(), TacitusError>)
        ensures
            match r {
                Ok(_) => self.scope == PermissionScope::ReadWrite,
                Err(e) => self.scope == PermissionScope::ReadOnly && e@ == read_only_error(),
            },
    {
        match self.scope {
            PermissionScope::ReadOnly => Err(
                TacitusError::new(
                    "PERMISSION_DENIED",
                    "This session is read-only; writes are not permitted.",
                    "Re-open the vault with a read-write scope to apply changes.",
                ),
            ),
            PermissionScope::ReadWrite => Ok(()),
        }
    }

    /// Dry run: validates a changeset and answers with a before/after diff.
    /// Nothing is written; the changeset is pending under its id.
    pub fn propose(&mut self, vault: &Vault, changeset: Changeset) -> (r: Result<
        Proposal,
        TacitusError,
    >)
        ensures
            propose_made(*old(self), *final(self), vault.notes(), changeset, r),
    {
        let diff = match build_diff(&changeset, &vault.files) {
            Ok(d) => d,
            Err(e) => {
                return Err(e);
            },
        };
        let id = match change_id(&changeset) {
            Ok(s) => s,
            Err(e) => {
                return Err(e);
            },
        };
        self.pending.insert(id.clone(), changeset);
        Ok(Proposal { change_id: id, diff })
    }

    /// Checks a pending change against the files as they are now and answers
    /// with its diff. Nothing is written.
    pub fn prepare_commit(&self, files: &StrMap<String>, change_id: &str) -> (r: Result<
        Vec<DiffEntry>,
        TacitusError,
    >)
        ensures
            diff_outcome(r) == commit_diff(
                self.scope,
                self.pending@,
                change_id@,
                files_view(files@),
            ),
    {
        match self.assert_writable() {
            Ok(_) => {},
            Err(e) => {
                return Err(e);
            },
        }
        match self.pending.get(change_id) {
            Some(c) => build_diff(c, files),
            None => {
                let mut reason = "No pending change with id \"".to_owned();
                reason.append(change_id);
                reason.append("\".");
                Err(
                    TacitusError::new(
                        "UNKNOWN_CHANGE",
                        reason.as_str(),
                        "Call propose_changes first and use the returned change_id.",
                    ),
                )
            },
        }
    }

    /// The snapshot and the audit entry of a commit whose steps were applied.
    pub fn commit_record(
        &self,
        change_id: &str,
        diff: &Vec<DiffEntry>,
        millis: u64,
        now: &str,
    ) -> (r: (Snapshot, AuditEntry))
        ensures
            r.0@ == (SnapshotView {
                version_id: version_of(change_id@, millis),
                change_id: change_id@,
                before: before_states(diff_view(diff@), diff@.len() as int),
                after: after_states(diff_view(diff@), diff@.len() as int),
            }),
            r.1@ == (AuditView {
                ts: now@,
                action: "commit"@,
                version_id: version_of(change_id@, millis),
                change_id: Some(change_id@),
                notes: r.0.after.keys(),
                scope: self.scope,
                origin: opt_text(self.origin),
            }),
            keys_of_states(r.1@.notes, r.0@.after),
    {
        let mut seed = change_id.to_owned();
        seed.append(":");
        seed.append(render_u64(millis).as_str());
        let version_id = stable_id(seed.as_str(), "v");
        let (before, after) = collect_states(diff);
        let entry = AuditEntry {
            ts: now.to_owned(),
            action: "commit".to_owned(),
            version_id: version_id.clone(),
            change_id: Some(change_id.to_owned()),
            notes: key_list(&after),
            scope: self.scope,
            origin: copy_opt(&self.origin),
        };
        let snapshot = Snapshot { version_id, change_id: change_id.to_owned(), before, after };
        (snapshot, entry)
    }

    /// Commits a pending change at the time `now`: all of it, with a snapshot
    /// and an audit entry, or nothing.
    pub fn commit(&mut self, vault: &mut Vault, change_id: &str, millis: u64, now: &str) -> (r:
        Result<CommitResult, TacitusError>)
        ensures
            commit_done(
                *old(self),
                *final(self),
                *old(vault),
                *final(vault),
                change_id@,
                millis,
                now@,
                r,
            ),
    {
        let diff = match self.prepare_commit(&vault.files, change_id) {
            Ok(d) => d,
            Err(e) => {
                return Err(e);
            },
        };
        let ghost ds = diff_view(diff@);
        let steps = commit_steps(&diff);
        assert(steps_view(steps@).len() == ds.len());
        apply_all(&mut vault.files, &steps);
        let (snapshot, entry) = self.commit_record(change_id, &diff, millis, now);
        let version_id = snapshot.version_id.clone();
        let ghost ev = entry@;
        let ghost sv = snapshot@;
        reflect(&mut vault.index, &snapshot.after);
        let ghost audit0 = audit_view(vault.audit@);
        vault.history.insert(version_id.clone(), snapshot);
        let _ = vault.corrupt.remove(version_id.as_str());
        vault.audit.push(entry);
        let _ = self.pending.remove(change_id);
        proof {
            assert(audit_view(vault.audit@) =~= audit0.push(ev));
            assert(vault.history@.remove(version_id@) =~= old(vault).history@.remove(version_id@));
            let entry0 = AuditView { notes: seq![], ..ev };
            assert(with_notes(entry0, ev.notes) == ev);
            assert(committed(*old(vault), *vault, ds, ev, change_id@));
            assert(commit_made(*old(vault), *vault, ds, entry0, change_id@));
        }
        Ok(CommitResult { version_id })
    }

    /// The audit entry of a revert whose steps were applied.
    pub fn revert_record(&self, snapshot: &Snapshot, version_id: &str, now: &str) -> (r: AuditEntry)
        ensures
            r@ == (AuditView {
                ts: now@,
                action: "revert"@,
                version_id: version_id@,
                change_id: None,
                notes: snapshot.before.keys(),
                scope: self.scope,
                origin: opt_text(self.origin),
            }),
            keys_of_states(r@.notes, snapshot@.before),
    {
        AuditEntry {
            ts: now.to_owned(),
            action: "revert".to_owned(),
            version_id: version_id.to_owned(),
            change_id: None,
            notes: key_list(&snapshot.before),
            scope: self.scope,
            origin: copy_opt(&self.origin),
        }
    }

    /// The steps that restore what a version changed.
    pub fn prepare_revert(&self, vault: &Vault, version_id: &str) -> (r: Result<
        Vec<Step>,
        TacitusError,
    >)
        ensures
            match r {
                Ok(steps) => self.scope == PermissionScope::ReadWrite && no_record(
                    *vault,
                    version_id@,
                    "Use a version_id returned by commit_changes."@,
                ) is None && steps_view(steps@) == state_steps(
                    vault.history@[version_id@].before.keys(),
                    vault.history@[version_id@]@.before,
                ),
                Err(e) => if self.scope == PermissionScope::ReadOnly {
                    e@ == read_only_error()
                } else {
                    no_record(*vault, version_id@, "Use a version_id returned by commit_changes."@)
                        == Some(e@)
                },
            },
    {
        match self.assert_writable() {
            Ok(_) => {},
            Err(e) => {
                return Err(e);
            },
        }
        match record_of(vault, version_id, "Use a version_id returned by commit_changes.") {
            Ok(s) => Ok(state_list(&s.before)),
            Err(e) => Err(e),
        }
    }

    /// Undoes a version: every note that it changed gets its prior contents.
    pub fn revert(&self, vault: &mut Vault, version_id: &str, now: &str) -> (r: Result<
        RevertResult,
        TacitusError,
    >)
        ensures
            revert_done(*self, *old(vault), *final(vault), version_id@, now@, r),
    {
        let steps = match self.prepare_revert(&*vault, version_id) {
            Ok(s) => s,
            Err(e) => {
                return Err(e);
            },
        };
        assert(steps_view(steps@).len() == vault.history@[version_id@].before.keys().len());
        apply_all(&mut vault.files, &steps);
        let ghost audit0 = audit_view(vault.audit@);
        match vault.history.get(version_id) {
            Some(s) => {
                let entry = self.revert_record(s, version_id, now);
                let ghost ev = entry@;
                reflect(&mut vault.index, &s.before);
                vault.audit.push(entry);
                proof {
                    assert(audit_view(vault.audit@) =~= audit0.push(ev));
                    let entry0 = AuditView { notes: seq![], ..ev };
                    let states = old(vault).history@[version_id@]@.before;
                    assert(with_notes(entry0, ev.notes) == ev);
                    assert(reverted(*old(vault), *vault, states, ev));
                    assert(revert_made(*old(vault), *vault, states, entry0));
                }
            },
            None => {},
        }
        Ok(RevertResult { reverted: true, version_id: version_id.to_owned() })
    }
}

// ---------------------------------------------------------------------------
// Reading the records
// ---------------------------------------------------------------------------

/// The last `limit` entries of the audit log, the most recent first.
pub open spec fn newest(audit: Seq<AuditView>, limit: nat) -> Seq<AuditView> {
    Seq::new(
        if limit < audit.len() {
            limit
        } else {
            audit.len()
        },
        |i: int| audit[audit.len() - 1 - i],
    )
}

/// The lines from `i` on that are not empty.
pub open spec fn filled_lines_from(ls: Seq<Seq<char>>, i: int) -> Seq<Seq<char>>
    decreases ls.len() - i,
{
    if i < 0 || i >= ls.len() {
        seq![]
    } else if ls[i].len() > 0 {
        seq![ls[i]] + filled_lines_from(ls, i + 1)
    } else {
        filled_lines_from(ls, i + 1)
    }
}

/// The lines of an audit log file that hold an entry.
pub fn audit_lines(raw: &str) -> (r: Vec<String>)
    ensures
        texts(r@) == filled_lines_from(lines(raw@), 0),
{
    let ls = lines_of(raw);
    let ghost all = texts(ls@);
    let mut out: Vec<String> = Vec::new();
    let mut i: usize = 0;
    assert(texts(out@) =~= seq![]);
    while i < ls.len()
        invariant
            i <= ls@.len(),
            all == texts(ls@),
            filled_lines_from(all, 0) == texts(out@) + filled_lines_from(all, i as int),
        decreases ls@.len() - i,
    {
        if !ls[i].as_str().is_empty() {
            let ghost prev = texts(out@);
            out.push(ls[i].clone());
            assert(texts(out@) =~= prev.push(all[i as int]));
            assert(prev + (seq![all[i as int]] + filled_lines_from(all, i + 1)) =~= texts(out@)
                + filled_lines_from(all, i + 1));
        }
        i = i + 1;
    }
    assert(texts(out@) + filled_lines_from(all, i as int) =~= texts(out@));
    out
}

/// The name of a note's change by whether it existed before and after.
pub open spec fn change_name(before: bool, after: bool) -> Seq<char> {
    if !before && after {
        "created"@
    } else if before && !after {
        "deleted"@
    } else {
        "updated"@
    }
}

/// The state of a note among states, where nothing stands for a note that is
/// not there.
pub open spec fn state_or_none(states: Map<Seq<char>, Option<Seq<char>>>, id: Seq<char>) -> Option<
    Seq<char>,
> {
    if states.contains_key(id) {
        states[id]
    } else {
        None
    }
}

/// What a version changed, note by note in the order of `keys`.
pub open spec fn version_changes(keys: Seq<Seq<char>>, s: SnapshotView) -> Seq<NoteChangeView> {
    keys.map_values(
        |k: Seq<char>|
            NoteChangeView {
                note_id: k,
                op: change_name(s.before[k] is Some, state_or_none(s.after, k) is Some),
                before: s.before[k],
                after: state_or_none(s.after, k),
            },
    )
}

/// A snapshot expanded note by note.
pub fn expand_version(snapshot: &Snapshot) -> (r: VersionDetail)
    ensures
        r.version_id@ == snapshot@.version_id,
        r.change_id@ == snapshot@.change_id,
        changes_view(r.notes@) == version_changes(snapshot.before.keys(), snapshot@),
        keys_of_states(snapshot.before.keys(), snapshot@.before),
{
    let n: usize = snapshot.before.len();
    let ghost keys = snapshot.before.keys();
    let ghost sv = snapshot@;
    let ghost want = version_changes(keys, sv);
    proof {
        lemma_keys_of_states(snapshot.before);
    }
    let mut notes: Vec<VersionNoteChange> = Vec::new();
    let mut i: usize = 0;
    while i < n
        invariant
            i <= n,
            n == keys.len(),
            keys == snapshot.before.keys(),
            sv == snapshot@,
            want == version_changes(keys, sv),
            changes_view(notes@) == want.take(i as int),
        decreases n - i,
    {
        let (k, before) = snapshot.before.entry_at(i);
        let after: Option<String> = match snapshot.after.get(k.as_str()) {
            Some(a) => copy_opt(a),
            None => None,
        };
        let op: &str = if before.is_none() && after.is_some() {
            "created"
        } else if before.is_some() && after.is_none() {
            "deleted"
        } else {
            "updated"
        };
        let c = VersionNoteChange {
            note_id: k.clone(),
            op: op.to_owned(),
            before: copy_opt(before),
            after,
        };
        let ghost prev = changes_view(notes@);
        assert(c@ == want[i as int]);
        notes.push(c);
        assert(changes_view(notes@) =~= prev.push(want[i as int]));
        assert(want.take(i + 1) =~= want.take(i as int).push(want[i as int]));
        i = i + 1;
    }
    assert(want.take(want.len() as int) =~= want);
    VersionDetail {
        version_id: snapshot.version_id.clone(),
        change_id: snapshot.change_id.clone(),
        notes,
    }
}

impl NoteWriter {
    /// The audit log, most recent first.
    pub fn read_audit(&self, vault: &Vault, limit: usize) -> (r: Vec<AuditEntry>)
        ensures
            audit_view(r@) == newest(audit_view(vault.audit@), limit as nat),
    {
        let n: usize = vault.audit.len();
        let ghost av = audit_view(vault.audit@);
        let keep: usize = if limit < n {
            limit
        } else {
            n
        };
        let mut out: Vec<AuditEntry> = Vec::new();
        let mut i: usize = 0;
        while i < keep
            invariant
                i <= keep <= n,
                n == vault.audit@.len(),
                av == audit_view(vault.audit@),
                out@.len() == i,
                forall|k: int| 0 <= k < i ==> (#[trigger] out@[k])@ == av[n - 1 - k],
            decreases keep - i,
        {
            out.push(vault.audit[n - 1 - i].clone());
            i = i + 1;
        }
        assert(audit_view(out@) =~= newest(av, limit as nat));
        out
    }

    /// A committed version, expanded: per note before and after.
    pub fn get_version(&self, vault: &Vault, version_id: &str) -> (r: Result<
        VersionDetail,
        TacitusError,
    >)
        ensures
            match r {
                Ok(d) => no_record(*vault, version_id@, "Use a version_id from audit_log."@) is None
                    && d.version_id@ == vault.history@[version_id@]@.version_id && d.change_id@
                    == vault.history@[version_id@]@.change_id && changes_view(d.notes@)
                    == version_changes(
                    vault.history@[version_id@].before.keys(),
                    vault.history@[version_id@]@,
                ) && keys_of_states(
                    vault.history@[version_id@].before.keys(),
                    vault.history@[version_id@]@.before,
                ),
                Err(e) => no_record(*vault, version_id@, "Use a version_id from audit_log."@)
                    == Some(e@),
            },
    {
        match record_of(vault, version_id, "Use a version_id from audit_log.") {
            Ok(s) => Ok(expand_version(s)),
            Err(e) => Err(e),
        }
    }
}

// ---------------------------------------------------------------------------
// Convenience: propose and commit in one
// ---------------------------------------------------------------------------

/// What applying a changeset at once answers: its id and diff, or the error.
pub open spec fn applied(
    scope: PermissionScope,
    ops: Seq<OpView>,
    files: Map<Seq<char>, Seq<char>>,
) -> Result<(Seq<char>, Seq<DiffView>), ErrorView> {
    match proposed(ops, files) {
        Err(e) => Err(e),
        Ok(p) => if scope == PermissionScope::ReadOnly {
            Err(read_only_error())
        } else {
            Ok(p)
        },
    }
}

/// The audit entry of a commit, but for its notes.
pub open spec fn commit_entry(
    change_id: Seq<char>,
    millis: u64,
    now: Seq<char>,
    scope: PermissionScope,
    origin: Option<Seq<char>>,
) -> AuditView {
    AuditView {
        ts: now,
        action: "commit"@,
        version_id: version_of(change_id, millis),
        change_id: Some(change_id),
        notes: seq![],
        scope,
        origin,
    }
}

/// A changeset was applied at once, or refused without a trace in the vault.
pub open spec fn apply_made(
    w: NoteWriter,
    old_vault: Vault,
    new_vault: Vault,
    ops: Seq<OpView>,
    millis: u64,
    now: Seq<char>,
    r: Result<CommitResult, TacitusError>,
) -> bool {
    match r {
        Ok(c) => match applied(w.scope, ops, old_vault.notes()) {
            Ok(p) => c.version_id@ == version_of(p.0, millis) && commit_made(
                old_vault,
                new_vault,
                p.1,
                commit_entry(p.0, millis, now, w.scope, opt_text(w.origin)),
                p.0,
            ),
            Err(_) => false,
        },
        Err(e) => new_vault == old_vault && applied(w.scope, ops, old_vault.notes()) == Err::<
            (Seq<char>, Seq<DiffView>),
            ErrorView,
        >(e@),
    }
}

/// A session after a changeset was applied at once: nothing of it stays
/// pending, but for one that a read-only session could only propose.
pub open spec fn session_after(
    old_writer: NoteWriter,
    new_writer: NoteWriter,
    ops: Seq<OpView>,
    files: Map<Seq<char>, Seq<char>>,
) -> bool {
    &&& new_writer.vault_dir == old_writer.vault_dir
    &&& new_writer.scope == old_writer.scope
    &&& new_writer.origin == old_writer.origin
    &&& match proposed(ops, files) {
        Err(_) => new_writer.pending@ == old_writer.pending@,
        Ok(p) => if old_writer.scope == PermissionScope::ReadOnly {
            new_writer.pending@.contains_key(p.0) && new_writer.pending@[p.0]@ == ops
                && new_writer.pending@.remove(p.0) == old_writer.pending@.remove(p.0)
        } else {
            new_writer.pending@ == old_writer.pending@.remove(p.0)
        },
    }
}

/// The content of a note with a link put in.
pub open spec fn linked_content(content: Seq<char>, to: Seq<char>) -> Seq<char> {
    trim_end(content) + "\n\n"@ + ("[["@ + to + "]]"@) + "\n"@
}

/// The tags that a frontmatter lists as a sequence.
pub open spec fn listed_tags(fm: YamlView) -> Seq<Seq<char>> {
    match yaml_get(fm, "tags"@) {
        Some(YamlView::List(items)) => strings_from(items, 0),
        _ => seq![],
    }
}

/// Some tags as a YAML sequence.
pub open spec fn tag_list(tags: Seq<Seq<char>>) -> YamlView {
    YamlView::List(tags.map_values(|t: Seq<char>| YamlView::Text(t)))
}

/// A frontmatter with its tags set; one that is no mapping becomes one.
pub open spec fn with_tags(fm: YamlView, tags: Seq<Seq<char>>) -> YamlView {
    let e = match fm {
        YamlView::Table(e) => e,
        _ => seq![],
    };
    YamlView::Table(entries_with(e, "tags"@, tag_list(tags)))
}

/// Tags with one more, where it is not among them.
pub open spec fn tags_plus(tags: Seq<Seq<char>>, tag: Seq<char>) -> Seq<Seq<char>> {
    if tags.contains(tag) {
        tags
    } else {
        tags.push(tag)
    }
}

/// A frontmatter with a tag added.
pub open spec fn tagged_frontmatter(fm: YamlView, tag: Seq<char>) -> YamlView {
    with_tags(fm, tags_plus(listed_tags(fm), tag))
}

/// Whether a note with the file `raw` has a link.
pub open spec fn has_link(raw: Seq<char>, from: Seq<char>, to: Seq<char>) -> bool {
    holds(parsed(raw, from + ".md"@).content, "[["@ + to + "]]"@)
}

/// What linking does to a note with the file `raw`: where the link is there, the
/// file stays as it is.
pub open spec fn link_ops(raw: Seq<char>, from: Seq<char>, to: Seq<char>) -> Seq<OpView> {
    seq![
        if has_link(raw, from, to) {
            OpView::SetRaw { note_id: from, raw: Some(raw) }
        } else {
            OpView::Update {
                note_id: from,
                content: Some(linked_content(parsed(raw, from + ".md"@).content, to)),
                frontmatter: None,
            }
        },
    ]
}

/// What tagging does to a note with the file `raw`.
pub open spec fn tag_ops(raw: Seq<char>, id: Seq<char>, tag: Seq<char>) -> Seq<OpView> {
    seq![
        OpView::Update {
            note_id: id,
            content: None,
            frontmatter: Some(tagged_frontmatter(parsed(raw, id + ".md"@).frontmatter, tag)),
        },
    ]
}

fn link_marker(to: &str) -> (r: String)
    ensures
        r@ == "[["@ + to@ + "]]"@,
{
    let mut marker = "[[".to_owned();
    marker.append(to);
    marker.append("]]");
    marker
}

fn link_text(content: &str, marker: &str) -> (r: String)
    ensures
        r@ == trim_end(content@) + "\n\n"@ + marker@ + "\n"@,
{
    let mut out = trim_end_str(content);
    out.append("\n\n");
    out.append(marker);
    out.append("\n");
    out
}

fn tag_frontmatter(fm: &Yaml, tag: &str) -> (r: Yaml)
    ensures
        r@ == tagged_frontmatter(fm@, tag@),
{
    let mut tags: Vec<String> = match fm.get("tags") {
        Some(y) => {
            proof {
                lemma_model(*y);
            }
            match y {
                Yaml::List(items) => list_strings(items),
                _ => {
                    let none: Vec<String> = Vec::new();
                    assert(texts(none@) =~= seq![]);
                    none
                },
            }
        },
        None => {
            let none: Vec<String> = Vec::new();
            assert(texts(none@) =~= seq![]);
            none
        },
    };
    if !has_string(&tags, tag) {
        let ghost prev = texts(tags@);
        tags.push(tag.to_owned());
        assert(texts(tags@) =~= prev.push(tag@));
    }
    let ghost tv = texts(tags@);
    let mut items: Vec<Yaml> = Vec::new();
    let mut i: usize = 0;
    while i < tags.len()
        invariant
            i <= tags@.len(),
            tv == texts(tags@),
            items@.len() == i,
            forall|k: int| 0 <= k < i ==> (#[trigger] items@[k])@ == YamlView::Text(tv[k]),
        decreases tags@.len() - i,
    {
        let t = Yaml::Text(tags[i].clone());
        assert(t@ == YamlView::Text(tv[i as int]));
        items.push(t);
        i = i + 1;
    }
    let list = Yaml::List(items);
    proof {
        lemma_model(list);
        assert(items_view(items@) =~= tv.map_values(|t: Seq<char>| YamlView::Text(t)));
        lemma_model(*fm);
    }
    let entries: Vec<(Yaml, Yaml)> = match fm {
        Yaml::Table(e) => copy_entries(e),
        _ => {
            let none: Vec<(Yaml, Yaml)> = Vec::new();
            assert(entries_view(none@) =~= seq![]);
            none
        },
    };
    let table = Yaml::Table(set_entry(entries, "tags", list));
    proof {
        lemma_model(table);
    }
    table
}

impl NoteWriter {
    /// Proposes and commits a changeset.
    pub fn apply(&mut self, vault: &mut Vault, changeset: Changeset, millis: u64, now: &str) -> (r:
        Result<CommitResult, TacitusError>)
        ensures
            apply_made(*old(self), *old(vault), *final(vault), changeset@, millis, now@, r),
            session_after(*old(self), *final(self), changeset@, old(vault).notes()),
    {
        let ghost was = self.pending@;
        match self.propose(vault, changeset) {
            Ok(p) => {
                let ghost with = self.pending@;
                let r = self.commit(vault, p.change_id.as_str(), millis, now);
                assert(with.remove(p.change_id@) =~= was.remove(p.change_id@));
                r
            },
            Err(e) => Err(e),
        }
    }

    /// Creates a note.
    pub fn create_note(
        &mut self,
        vault: &mut Vault,
        note_id: &str,
        content: &str,
        frontmatter: Option<Yaml>,
        millis: u64,
        now: &str,
    ) -> (r: Result<CommitResult, TacitusError>)
        ensures
            apply_made(
                *old(self),
                *old(vault),
                *final(vault),
                seq![
                    OpView::Create {
                        note_id: note_id@,
                        content: content@,
                        frontmatter: opt_yaml(frontmatter),
                    },
                ],
                millis,
                now@,
                r,
            ),
            session_after(
                *old(self),
                *final(self),
                seq![
                    OpView::Create {
                        note_id: note_id@,
                        content: content@,
                        frontmatter: opt_yaml(frontmatter),
                    },
                ],
                old(vault).notes(),
            ),
    {
        let op = ChangeOp::Create {
            note_id: note_id.to_owned(),
            content: content.to_owned(),
            frontmatter,
        };
        self.apply_one(vault, op, millis, now)
    }

    fn apply_one(&mut self, vault: &mut Vault, op: ChangeOp, millis: u64, now: &str) -> (r: Result<
        CommitResult,
        TacitusError,
    >)
        ensures
            apply_made(*old(self), *old(vault), *final(vault), seq![op@], millis, now@, r),
            session_after(*old(self), *final(self), seq![op@], old(vault).notes()),
    {
        let mut ops: Vec<ChangeOp> = Vec::new();
        ops.push(op);
        assert(ops_view(ops@) =~= seq![op@]);
        self.apply(vault, Changeset { ops }, millis, now)
    }

    /// Updates the content or the frontmatter of a note; what is absent stays.
    pub fn update_note(
        &mut self,
        vault: &mut Vault,
        note_id: &str,
        content: Option<String>,
        frontmatter: Option<Yaml>,
        millis: u64,
        now: &str,
    ) -> (r: Result<CommitResult, TacitusError>)
        ensures
            apply_made(
                *old(self),
                *old(vault),
                *final(vault),
                seq![
                    OpView::Update {
                        note_id: note_id@,
                        content: opt_text(content),
                        frontmatter: opt_yaml(frontmatter),
                    },
                ],
                millis,
                now@,
                r,
            ),
            session_after(
                *old(self),
                *final(self),
                seq![
                    OpView::Update {
                        note_id: note_id@,
                        content: opt_text(content),
                        frontmatter: opt_yaml(frontmatter),
                    },
                ],
                old(vault).notes(),
            ),
    {
        let op = ChangeOp::Update { note_id: note_id.to_owned(), content, frontmatter };
        self.apply_one(vault, op, millis, now)
    }

    /// Deletes a note.
    pub fn delete_note(&mut self, vault: &mut Vault, note_id: &str, millis: u64, now: &str) -> (r:
        Result<CommitResult, TacitusError>)
        ensures
            apply_made(
                *old(self),
                *old(vault),
                *final(vault),
                seq![OpView::Delete { note_id: note_id@ }],
                millis,
                now@,
                r,
            ),
            session_after(
                *old(self),
                *final(self),
                seq![OpView::Delete { note_id: note_id@ }],
                old(vault).notes(),
            ),
    {
        let op = ChangeOp::Delete { note_id: note_id.to_owned() };
        self.apply_one(vault, op, millis, now)
    }

    fn current_note(&self, vault: &Vault, note_id: &str) -> (r: Option<Note>)
        ensures
            match r {
                Some(n) => raw_of(vault.notes(), note_key(note_id@)) matches Some(raw) && n@
                    == parsed(raw, note_id@ + ".md"@),
                None => raw_of(vault.notes(), note_key(note_id@)) is None,
            },
    {
        let key = key_of_note(note_id);
        match vault.files.get(key.as_str()) {
            Some(raw) => {
                let mut path = note_id.to_owned();
                path.append(".md");
                Some(parse_note(raw.as_str(), path.as_str()))
            },
            None => None,
        }
    }

    /// Appends a `[[to]]` wikilink to the source note where it is not there; else
    /// the note stays as it is.
    pub fn link(&mut self, vault: &mut Vault, from: &str, to: &str, millis: u64, now: &str) -> (r:
        Result<CommitResult, TacitusError>)
        ensures
            edit_done(
                *old(self),
                *final(self),
                *old(vault),
                *final(vault),
                from@,
                |raw: Seq<char>| link_ops(raw, from@, to@),
                millis,
                now@,
                r,
            ),
    {
        let note = match self.current_note(vault, from) {
            Some(n) => n,
            None => {
                return Err(not_found(from));
            },
        };
        let marker = link_marker(to);
        let op = if str_holds(note.content.as_str(), marker.as_str()) {
            let key = key_of_note(from);
            let raw: Option<String> = match vault.files.get(key.as_str()) {
                Some(s) => Some(s.clone()),
                None => None,
            };
            ChangeOp::SetRaw { note_id: from.to_owned(), raw }
        } else {
            ChangeOp::Update {
                note_id: from.to_owned(),
                content: Some(link_text(note.content.as_str(), marker.as_str())),
                frontmatter: None,
            }
        };
        self.apply_one(vault, op, millis, now)
    }

    /// Adds a tag to the note's frontmatter where it is not there.
    pub fn tag(&mut self, vault: &mut Vault, note_id: &str, tag: &str, millis: u64, now: &str) -> (r:
        Result<CommitResult, TacitusError>)
        ensures
            edit_done(
                *old(self),
                *final(self),
                *old(vault),
                *final(vault),
                note_id@,
                |raw: Seq<char>| tag_ops(raw, note_id@, tag@),
                millis,
                now@,
                r,
            ),
    {
        let note = match self.current_note(vault, note_id) {
            Some(n) => n,
            None => {
                return Err(not_found(note_id));
            },
        };
        let fm = tag_frontmatter(&note.frontmatter, tag);
        let op = ChangeOp::Update {
            note_id: note_id.to_owned(),
            content: None,
            frontmatter: Some(fm),
        };
        self.apply_one(vault, op, millis, now)
    }
}

// ---------------------------------------------------------------------------
// Laws
// ---------------------------------------------------------------------------

proof fn lemma_before_states(ds: Seq<DiffView>, n: int, files: Map<Seq<char>, Seq<char>>)
    requires
        0 <= n <= ds.len(),
        forall|k: int| 0 <= k < ds.len() ==> (#[trigger] ds[k]).before == raw_of(
            files,
            note_key(ds[k].note_id),
        ),
    ensures
        forall|id: Seq<char>| #[trigger]
            before_states(ds, n).contains_key(id) <==> exists|k: int|
                0 <= k < n && (#[trigger] ds[k]).note_id == id,
        forall|id: Seq<char>| #[trigger]
            before_states(ds, n).contains_key(id) ==> before_states(ds, n)[id] == raw_of(
                files,
                note_key(id),
            ),
    decreases n,
{
    if n > 0 {
        lemma_before_states(ds, n - 1, files);
        let last = ds[n - 1];
        assert forall|id: Seq<char>| #[trigger]
            before_states(ds, n).contains_key(id) <==> exists|k: int|
                0 <= k < n && (#[trigger] ds[k]).note_id == id by {
            if before_states(ds, n - 1).contains_key(id) {
                let k = choose|k: int| 0 <= k < n - 1 && (#[trigger] ds[k]).note_id == id;
                assert(ds[k].note_id == id);
            }
            if last.note_id == id {
                assert(ds[n - 1].note_id == id);
            }
            if exists|k: int| 0 <= k < n && (#[trigger] ds[k]).note_id == id {
                let k = choose|k: int| 0 <= k < n && (#[trigger] ds[k]).note_id == id;
                if k < n - 1 {
                    assert(before_states(ds, n - 1).contains_key(id));
                }
            }
        }
    }
}

/// Whether one of some notes has its file under a key.
pub open spec fn names_file(ids: Seq<Seq<char>>, key: Seq<char>) -> bool {
    exists|i: int| 0 <= i < ids.len() && note_key(#[trigger] ids[i]) == key
}

/// A revert to the states before a changeset brings back what the changeset
/// touched, from wherever the files have got to since, and nothing else.
proof fn lemma_brought_back(
    ops: Seq<OpView>,
    files: Map<Seq<char>, Seq<char>>,
    later: Map<Seq<char>, Seq<char>>,
    ids: Seq<Seq<char>>,
    key: Seq<char>,
)
    requires
        diff_of(ops, files) is Ok,
        keys_of_states(
            ids,
            before_states(diff_of(ops, files)->Ok_0, diff_of(ops, files)->Ok_0.len() as int),
        ),
    ensures
        ({
            let ds = diff_of(ops, files)->Ok_0;
            let states = before_states(ds, ds.len() as int);
            let back = after_steps(later, state_steps(ids, states), ids.len() as int);
            raw_of(back, key) == if names_file(ids, key) {
                raw_of(files, key)
            } else {
                raw_of(later, key)
            }
        }),
{
    let ds = diff_of(ops, files)->Ok_0;
    let n = ds.len() as int;
    let states = before_states(ds, n);
    let undo = state_steps(ids, states);
    lemma_diffs_before(ops, files, 0);
    lemma_before_states(ds, n, files);
    assert forall|k: int| 0 <= k < ids.len() && (#[trigger] undo[k]).key == key implies undo[k].raw
        == raw_of(files, key) by {
        assert(states.contains_key(ids[k]));
    }
    lemma_after_steps(later, undo, ids.len() as int, key, raw_of(files, key));
    if names_file(ids, key) {
        let k = choose|k: int| 0 <= k < ids.len() && note_key(#[trigger] ids[k]) == key;
        assert(undo[k].key == key);
    } else {
        assert forall|k: int| 0 <= k < ids.len() implies (#[trigger] undo[k]).key != key by {
            assert(note_key(ids[k]) != key);
        }
    }
}

/// Reverting a commit restores the files: whatever a changeset did, bringing
/// its notes back to the states of its snapshot leaves every file as it was
/// before the commit.
pub proof fn law_revert_restores(
    ops: Seq<OpView>,
    files: Map<Seq<char>, Seq<char>>,
    ids: Seq<Seq<char>>,
)
    requires
        diff_of(ops, files) is Ok,
        keys_of_states(
            ids,
            before_states(diff_of(ops, files)->Ok_0, diff_of(ops, files)->Ok_0.len() as int),
        ),
    ensures
        ({
            let ds = diff_of(ops, files)->Ok_0;
            let n = ds.len() as int;
            let after = after_steps(files, apply_steps(ds), n);
            after_steps(after, state_steps(ids, before_states(ds, n)), ids.len() as int) == files
        }),
{
    let ds = diff_of(ops, files)->Ok_0;
    let n = ds.len() as int;
    let states = before_states(ds, n);
    let after = after_steps(files, apply_steps(ds), n);
    let back = after_steps(after, state_steps(ids, states), ids.len() as int);
    lemma_diffs_before(ops, files, 0);
    lemma_before_states(ds, n, files);
    assert forall|key: Seq<char>| #[trigger] raw_of(back, key) == raw_of(files, key) by {
        lemma_brought_back(ops, files, after, ids, key);
        if !names_file(ids, key) {
            assert forall|k: int| 0 <= k < n implies (#[trigger] apply_steps(ds)[k]).key != key by {
                assert(states.contains_key(ds[k].note_id));
                let i = choose|i: int| 0 <= i < ids.len() && ids[i] == ds[k].note_id;
                assert(note_key(ids[i]) != key);
            }
            lemma_after_steps(files, apply_steps(ds), n, key, None);
        }
    }
    lemma_same_files(back, files);
}

/// A revert of a version right after the commit that made it restores the files.
proof fn lemma_revert_after_commit(
    v0: Vault,
    v1: Vault,
    v2: Vault,
    ops: Seq<OpView>,
    entry: AuditView,
    change_id: Seq<char>,
    back: AuditView,
)
    requires
        diff_of(ops, v0.notes()) is Ok,
        commit_made(v0, v1, diff_of(ops, v0.notes())->Ok_0, entry, change_id),
        revert_made(v1, v2, v1.history@[entry.version_id]@.before, back),
    ensures
        v2.notes() == v0.notes(),
{
    let states = v1.history@[entry.version_id]@.before;
    let notes = choose|notes: Seq<Seq<char>>|
        reverted(v1, v2, states, #[trigger] with_notes(back, notes));
    law_revert_restores(ops, v0.notes(), notes);
}

/// Reverting a version undoes its commit: right after a commit a revert of its
/// version succeeds, and leaves every file as it was before the commit.
pub proof fn law_revert_undoes_a_commit(
    w0: NoteWriter,
    w1: NoteWriter,
    v0: Vault,
    v1: Vault,
    v2: Vault,
    change_id: Seq<char>,
    millis: u64,
    now: Seq<char>,
    c: CommitResult,
    later: Seq<char>,
    r: Result<RevertResult, TacitusError>,
)
    requires
        commit_done(w0, w1, v0, v1, change_id, millis, now, Ok(c)),
        revert_done(w1, v1, v2, c.version_id@, later, r),
    ensures
        r is Ok,
        v2.notes() == v0.notes(),
{
    lemma_revert_after_commit(
        v0,
        v1,
        v2,
        w0.pending@[change_id]@,
        commit_entry(change_id, millis, now, w0.scope, opt_text(w0.origin)),
        change_id,
        revert_entry(c.version_id@, later, w1.scope, opt_text(w1.origin)),
    );
}

/// A version can be reverted as long as its record stands, whatever was written
/// since: each note of the record reads as before the commit, byte for byte, every
/// other file is as it was just before the revert, and the audit log has one entry
/// more, for the revert.
pub proof fn law_a_version_can_be_reverted(
    w0: NoteWriter,
    w1: NoteWriter,
    v0: Vault,
    v1: Vault,
    change_id: Seq<char>,
    millis: u64,
    now: Seq<char>,
    c: CommitResult,
    w: NoteWriter,
    v2: Vault,
    v3: Vault,
    later: Seq<char>,
    r: Result<RevertResult, TacitusError>,
    key: Seq<char>,
)
    requires
        commit_done(w0, w1, v0, v1, change_id, millis, now, Ok(c)),
        v2.history@.contains_key(c.version_id@),
        v2.history@[c.version_id@]@ == v1.history@[c.version_id@]@,
        !v2.corrupt@.contains_key(c.version_id@),
        w.scope == PermissionScope::ReadWrite,
        revert_done(w, v2, v3, c.version_id@, later, r),
    ensures
        r matches Ok(v) && v.reverted && v.version_id@ == c.version_id@,
        exists|ids: Seq<Seq<char>>|
            {
                &&& keys_of_states(ids, v1.history@[c.version_id@]@.before)
                &&& audit_view(v3.audit@) == audit_view(v2.audit@).push(
                    #[trigger] with_notes(
                        revert_entry(c.version_id@, later, w.scope, opt_text(w.origin)),
                        ids,
                    ),
                )
                &&& raw_of(v3.notes(), key) == if names_file(ids, key) {
                    raw_of(v0.notes(), key)
                } else {
                    raw_of(v2.notes(), key)
                }
            },
{
    let states = v2.history@[c.version_id@]@.before;
    let back = revert_entry(c.version_id@, later, w.scope, opt_text(w.origin));
    let ids = choose|ids: Seq<Seq<char>>|
        reverted(v2, v3, states, #[trigger] with_notes(back, ids));
    lemma_brought_back(w0.pending@[change_id]@, v0.notes(), v2.notes(), ids, key);
}

/// One revert undoes a changeset that was applied at once, whatever it did: a
/// created, updated or deleted note, or a whole rename.
pub proof fn law_revert_undoes_a_write(
    w: NoteWriter,
    v0: Vault,
    v1: Vault,
    v2: Vault,
    ops: Seq<OpView>,
    millis: u64,
    now: Seq<char>,
    c: CommitResult,
    later: Seq<char>,
    r: Result<RevertResult, TacitusError>,
)
    requires
        apply_made(w, v0, v1, ops, millis, now, Ok(c)),
        revert_done(w, v1, v2, c.version_id@, later, r),
    ensures
        r is Ok,
        v2.notes() == v0.notes(),
{
    let id = applied(w.scope, ops, v0.notes())->Ok_0.0;
    lemma_revert_after_commit(
        v0,
        v1,
        v2,
        ops,
        commit_entry(id, millis, now, w.scope, opt_text(w.origin)),
        id,
        revert_entry(c.version_id@, later, w.scope, opt_text(w.origin)),
    );
}

/// What a proposal previews is what its commit does, where the files did not
/// change in between: the commit checks the same diff, and is refused only in a
/// read-only session.
pub proof fn law_preview_is_what_is_committed(
    w0: NoteWriter,
    w1: NoteWriter,
    files: Map<Seq<char>, Seq<char>>,
    changeset: Changeset,
    p: Proposal,
)
    requires
        propose_made(w0, w1, files, changeset, Ok(p)),
    ensures
        commit_diff(w1.scope, w1.pending@, p.change_id@, files) == if w0.scope
            == PermissionScope::ReadOnly {
            Err::<Seq<DiffView>, ErrorView>(read_only_error())
        } else {
            Ok(diff_view(p.diff@))
        },
{
}

/// The note that a file of a vault holds.
pub open spec fn filed(files: Map<Seq<char>, Seq<char>>, id: Seq<char>) -> Option<NoteView> {
    match raw_of(files, id) {
        Some(raw) => Some(parsed(raw, id + ".md"@)),
        None => None,
    }
}

/// Whether a file is one that an index of the vault takes in: it lies in the
/// vault, and not in the directory of its records.
pub open spec fn is_walked(id: Seq<char>) -> bool {
    let parts = split_on(id, '/');
    is_straight(id) && forall|k: int| 0 <= k < parts.len() - 1 ==> #[trigger] parts[k] != ".tacitus"@
}

/// The index of a vault holds what its files hold: each note as its file reads,
/// and no other. Of a file that no index takes in there may be no note.
pub open spec fn in_step(v: Vault) -> bool {
    &&& ids_ascend(v.index@)
    &&& forall|id: Seq<char>|
        #[trigger] note_at(v.index@, id) == filed(v.notes(), id) || !is_walked(id) && note_at(
            v.index@,
            id,
        ) is None
}

/// From `v0` to `v1` either nothing happened, or the audit log has one entry
/// more, which names every note whose file is another.
pub open spec fn audited(v0: Vault, v1: Vault) -> bool {
    v1 == v0 || exists|e: AuditView|
        audit_view(v1.audit@) == #[trigger] audit_view(v0.audit@).push(e) && forall|key: Seq<char>|
            #[trigger] raw_of(v1.notes(), key) != raw_of(v0.notes(), key) ==> names_file(e.notes, key)
}

/// Whether every note is named by the key of its file.
pub open spec fn by_key(ids: Seq<Seq<char>>) -> bool {
    forall|i: int| 0 <= i < ids.len() ==> note_key(#[trigger] ids[i]) == ids[i]
}

/// The notes that the newest audit entry names.
pub open spec fn last_named(v: Vault) -> Seq<Seq<char>> {
    audit_view(v.audit@).last().notes
}

proof fn lemma_after_states(
    files: Map<Seq<char>, Seq<char>>,
    ds: Seq<DiffView>,
    n: int,
    id: Seq<char>,
)
    requires
        0 <= n <= ds.len(),
        forall|k: int| 0 <= k < n ==> note_key((#[trigger] ds[k]).note_id) == ds[k].note_id,
    ensures
        raw_of(after_steps(files, apply_steps(ds), n), id) == if after_states(ds, n).contains_key(id) {
            after_states(ds, n)[id]
        } else {
            raw_of(files, id)
        },
    decreases n,
{
    if n > 0 {
        lemma_after_states(files, ds, n - 1, id);
        assert(note_key(ds[n - 1].note_id) == ds[n - 1].note_id);
    }
}

proof fn lemma_states_named(ds: Seq<DiffView>, n: int)
    requires
        0 <= n <= ds.len(),
    ensures
        forall|k: int|
            0 <= k < n ==> after_states(ds, n).contains_key((#[trigger] ds[k]).note_id),
    decreases n,
{
    if n > 0 {
        lemma_states_named(ds, n - 1);
    }
}

proof fn lemma_state_steps(
    files: Map<Seq<char>, Seq<char>>,
    ids: Seq<Seq<char>>,
    states: Map<Seq<char>, Option<Seq<char>>>,
    id: Seq<char>,
)
    requires
        keys_of_states(ids, states),
        by_key(ids),
    ensures
        raw_of(after_steps(files, state_steps(ids, states), ids.len() as int), id)
            == if states.contains_key(id) {
            states[id]
        } else {
            raw_of(files, id)
        },
{
    let steps = state_steps(ids, states);
    assert forall|k: int| 0 <= k < ids.len() implies (#[trigger] steps[k]).key == ids[k] by {
        assert(note_key(ids[k]) == ids[k]);
    }
    lemma_after_steps(files, steps, ids.len() as int, id, states[id]);
    if states.contains_key(id) {
        let k = choose|k: int| 0 <= k < ids.len() && ids[k] == id;
        assert(steps[k].key == id);
    } else {
        assert forall|k: int| 0 <= k < ids.len() implies (#[trigger] steps[k]).key != id by {
            assert(states.contains_key(ids[k]));
        }
    }
}

proof fn lemma_brought(
    v0: Vault,
    v1: Vault,
    keys: Seq<Seq<char>>,
    states: Map<Seq<char>, Option<Seq<char>>>,
)
    requires
        keys_of_states(keys, states),
        v1.index@ == reflected(v0.index@, keys, states, keys.len() as int),
        forall|id: Seq<char>| #[trigger]
            raw_of(v1.notes(), id) == if states.contains_key(id) {
                states[id]
            } else {
                raw_of(v0.notes(), id)
            },
    ensures
        in_step(v0) ==> in_step(v1),
{
    if in_step(v0) {
        law_index_follows_the_files(v0.index@, keys, states, seq![]);
        assert forall|id: Seq<char>|
            #[trigger] note_at(v1.index@, id) == filed(v1.notes(), id) || !is_walked(id) && note_at(
                v1.index@,
                id,
            ) is None by {
            law_index_follows_the_files(v0.index@, keys, states, id);
            assert(note_at(v0.index@, id) == filed(v0.notes(), id) || !is_walked(id) && note_at(
                v0.index@,
                id,
            ) is None);
            assert(raw_of(v1.notes(), id) == if states.contains_key(id) {
                states[id]
            } else {
                raw_of(v0.notes(), id)
            });
        }
    }
}

/// A commit is audited. It keeps the index in step with the files, where every
/// note is named by the key of its file.
pub proof fn law_commits_are_audited(
    v0: Vault,
    v1: Vault,
    ds: Seq<DiffView>,
    entry: AuditView,
    change_id: Seq<char>,
)
    requires
        commit_made(v0, v1, ds, entry, change_id),
    ensures
        audited(v0, v1),
        in_step(v0) && by_key(last_named(v1)) ==> in_step(v1),
{
    let ids = choose|ids: Seq<Seq<char>>|
        committed(v0, v1, ds, #[trigger] with_notes(entry, ids), change_id);
    let e = with_notes(entry, ids);
    let n = ds.len() as int;
    let states = after_states(ds, n);
    lemma_states_named(ds, n);
    assert(audit_view(v1.audit@) == audit_view(v0.audit@).push(e));
    assert forall|k: int| 0 <= k < n implies ids.contains((#[trigger] ds[k]).note_id) by {
        assert(states.contains_key(ds[k].note_id));
    }
    assert forall|key: Seq<char>| #[trigger]
        raw_of(v1.notes(), key) != raw_of(v0.notes(), key) implies names_file(e.notes, key) by {
        if !names_file(ids, key) {
            let steps = apply_steps(ds);
            assert forall|k: int| 0 <= k < n implies (#[trigger] steps[k]).key != key by {
                assert(ids.contains(ds[k].note_id));
                let i = choose|i: int| 0 <= i < ids.len() && ids[i] == ds[k].note_id;
                assert(note_key(ids[i]) != key);
            }
            lemma_after_steps(v0.notes(), steps, n, key, None);
        }
    }
    if by_key(last_named(v1)) {
        assert(last_named(v1) == ids);
        assert forall|k: int| 0 <= k < n implies note_key((#[trigger] ds[k]).note_id)
            == ds[k].note_id by {
            assert(ids.contains(ds[k].note_id));
            let i = choose|i: int| 0 <= i < ids.len() && ids[i] == ds[k].note_id;
            assert(note_key(ids[i]) == ids[i]);
        }
        assert forall|id: Seq<char>| #[trigger]
            raw_of(v1.notes(), id) == if states.contains_key(id) {
                states[id]
            } else {
                raw_of(v0.notes(), id)
            } by {
            lemma_after_states(v0.notes(), ds, n, id);
        }
        lemma_brought(v0, v1, ids, states);
    }
}

/// A revert is audited. It keeps the index in step with the files, where every
/// note is named by the key of its file.
pub proof fn law_reverts_are_audited(
    v0: Vault,
    v1: Vault,
    states: Map<Seq<char>, Option<Seq<char>>>,
    entry: AuditView,
)
    requires
        revert_made(v0, v1, states, entry),
    ensures
        audited(v0, v1),
        in_step(v0) && by_key(last_named(v1)) ==> in_step(v1),
{
    let ids = choose|ids: Seq<Seq<char>>|
        reverted(v0, v1, states, #[trigger] with_notes(entry, ids));
    let e = with_notes(entry, ids);
    assert(audit_view(v1.audit@) == audit_view(v0.audit@).push(e));
    assert forall|key: Seq<char>| #[trigger]
        raw_of(v1.notes(), key) != raw_of(v0.notes(), key) implies names_file(e.notes, key) by {
        if !names_file(ids, key) {
            let steps = state_steps(ids, states);
            assert forall|k: int| 0 <= k < ids.len() implies (#[trigger] steps[k]).key != key by {
                assert(note_key(ids[k]) != key);
            }
            lemma_after_steps(v0.notes(), steps, ids.len() as int, key, None);
        }
    }
    if by_key(last_named(v1)) {
        assert(last_named(v1) == ids);
        assert forall|id: Seq<char>| #[trigger]
            raw_of(v1.notes(), id) == if states.contains_key(id) {
                states[id]
            } else {
                raw_of(v0.notes(), id)
            } by {
            lemma_state_steps(v0.notes(), ids, states, id);
        }
        lemma_brought(v0, v1, ids, states);
    }
}

/// A read-only session can propose, and can neither commit nor apply: the
/// answer is a refusal, whatever the change.
pub proof fn law_read_only_never_writes(
    pending: Map<Seq<char>, Changeset>,
    change_id: Seq<char>,
    ops: Seq<OpView>,
    files: Map<Seq<char>, Seq<char>>,
)
    ensures
        commit_diff(PermissionScope::ReadOnly, pending, change_id, files) == Err::<
            Seq<DiffView>,
            ErrorView,
        >(read_only_error()),
        applied(PermissionScope::ReadOnly, ops, files) is Err,
        proposed(ops, files) is Ok ==> applied(PermissionScope::ReadOnly, ops, files) == Err::<
            (Seq<char>, Seq<DiffView>),
            ErrorView,
        >(read_only_error()),
{
}

proof fn lemma_reflected(
    s: Seq<NoteView>,
    keys: Seq<Seq<char>>,
    states: Map<Seq<char>, Option<Seq<char>>>,
    n: int,
    id: Seq<char>,
)
    requires
        ids_ascend(s),
        ascending(keys),
        0 <= n <= keys.len(),
    ensures
        ids_ascend(reflected(s, keys, states, n)),
        keys.take(n).contains(id) ==> note_at(reflected(s, keys, states, n), id) == match states[id] {
            Some(raw) => Some(parsed(raw, id + ".md"@)),
            None => None,
        },
        !keys.take(n).contains(id) ==> note_at(reflected(s, keys, states, n), id) == note_at(s, id),
    decreases n,
{
    if n > 0 {
        lemma_reflected(s, keys, states, n - 1, id);
        let prev = reflected(s, keys, states, n - 1);
        let key = keys[n - 1];
        lemma_without(prev, key);
        match states[key] {
            Some(raw) => {
                let note = parsed(raw, key + ".md"@);
                lemma_note_id(key);
                lemma_upserted(prev, note);
            },
            None => {},
        }
        let fewer = keys.take(n - 1);
        let more = keys.take(n);
        assert(more =~= fewer.push(key));
        assert(more.contains(id) <==> fewer.contains(id) || id == key) by {
            assert(more[n - 1] == key);
            if fewer.contains(id) {
                let m = choose|m: int| 0 <= m < fewer.len() && fewer[m] == id;
                assert(more[m] == id);
            }
            if more.contains(id) && id != key {
                let m = choose|m: int| 0 <= m < more.len() && more[m] == id;
                assert(fewer[m] == id);
            }
        }
    } else {
        assert(keys.take(0) =~= seq![]);
    }
}

proof fn lemma_note_id(id: Seq<char>)
    ensures
        without_md(id + ".md"@) == id,
{
    reveal_strlit(".md");
    let path = id + ".md"@;
    assert(path.subrange(path.len() - 3, path.len() as int) =~= ".md"@);
    assert(path.take(path.len() - 3) =~= id);
}

/// The live index follows the files: after a commit or a revert each note of
/// the change reads as its file does, a deleted one is gone, and all others
/// are as they were.
pub proof fn law_index_follows_the_files(
    s: Seq<NoteView>,
    keys: Seq<Seq<char>>,
    states: Map<Seq<char>, Option<Seq<char>>>,
    id: Seq<char>,
)
    requires
        ids_ascend(s),
        keys_of_states(keys, states),
    ensures
        ({
            let out = reflected(s, keys, states, keys.len() as int);
            &&& ids_ascend(out)
            &&& note_at(out, id) == if states.contains_key(id) {
                match states[id] {
                    Some(raw) => Some(parsed(raw, id + ".md"@)),
                    None => None,
                }
            } else {
                note_at(s, id)
            }
        }),
{
    lemma_reflected(s, keys, states, keys.len() as int, id);
    assert(keys.take(keys.len() as int) =~= keys);
    if keys.contains(id) {
        let k = choose|k: int| 0 <= k < keys.len() && keys[k] == id;
        assert(states.contains_key(keys[k]));
    }
}

/// Linking a note that has the link leaves every file as it is.
pub proof fn law_link_leaves_a_linked_note(
    w0: NoteWriter,
    w1: NoteWriter,
    v0: Vault,
    v1: Vault,
    from: Seq<char>,
    to: Seq<char>,
    millis: u64,
    now: Seq<char>,
    r: Result<CommitResult, TacitusError>,
)
    requires
        edit_done(
            w0,
            w1,
            v0,
            v1,
            from,
            |raw: Seq<char>| link_ops(raw, from, to),
            millis,
            now,
            r,
        ),
        raw_of(v0.notes(), note_key(from)) matches Some(raw) && has_link(raw, from, to),
    ensures
        v1.notes() == v0.notes(),
        w0.scope == PermissionScope::ReadWrite ==> r is Ok,
{
    let key = note_key(from);
    let raw = raw_of(v0.notes(), key)->0;
    let ops = link_ops(raw, from, to);
    let op = OpView::SetRaw { note_id: from, raw: Some(raw) };
    assert(ops =~= seq![op]);
    assert forall|id: Seq<char>| #[trigger]
        raw_of(
            after_steps(v0.notes(), apply_steps(diff_of(ops, v0.notes())->Ok_0), 1),
            id,
        ) == raw_of(v0.notes(), id) by {
        law_raw_lands_as_it_is(from, Some(raw), v0.notes(), id);
    }
    law_raw_lands_as_it_is(from, Some(raw), v0.notes(), key);
    lemma_same_files(
        after_steps(v0.notes(), apply_steps(diff_of(ops, v0.notes())->Ok_0), 1),
        v0.notes(),
    );
    lemma_raw_id(from, Some(raw));
    assert(diffs_from(ops, v0.notes(), 1) == Ok::<Seq<DiffView>, ErrorView>(seq![]));
    assert(diff_of(ops, v0.notes())->Ok_0.len() == 1);
}

/// The body of a file that ends with a link holds the link.
proof fn lemma_body_keeps_link(raw: Seq<char>, to: Seq<char>, closed: Option<int>)
    requires
        match closed {
            Some(p) => 0 <= p <= raw.len() - to.len() - 14 && matches_at(raw.skip(4), "\n---"@, p),
            None => !has_prefix(raw, "---\n"@) || !holds(to, "\n---"@),
        },
        raw.len() >= to.len() + 6,
        raw.subrange(raw.len() - to.len() - 6, raw.len() as int) == "[["@ + to + "]]"@ + "\n"@
            + "\n"@,
    ensures
        holds(sections(raw).1, "[["@ + to + "]]"@),
{
    reveal_strlit("\n");
    reveal_strlit("\n---");
    reveal_strlit("---\n");
    reveal_strlit("[[");
    reveal_strlit("]]");
    let marker = "[["@ + to + "]]"@;
    let n = to.len() as int;
    let at = raw.len() - n - 6;
    let m = raw.subrange(at, raw.len() as int);
    assert forall|k: int| 0 <= k < n + 6 implies #[trigger] m[k] == raw[at + k] by {}
    assert(m[0] == '[' && m[1] == '[');
    assert(m[n + 2] == ']' && m[n + 3] == ']' && m[n + 4] == '\n' && m[n + 5] == '\n');
    assert forall|k: int| 0 <= k < n implies #[trigger] to[k] == m[k + 2] by {}
    let body = sections(raw).1;
    let cut = raw.len() - body.len();
    if has_prefix(raw, "---\n"@) && next_match(raw.skip(4), "\n---"@, 0) is Some {
        let rest = raw.skip(4);
        lemma_next_match(rest, "\n---"@, 0);
        let p = next_match(rest, "\n---"@, 0)->0;
        let w = rest.subrange(p, p + 4);
        let q = p + 4;
        assert(w[0] == raw[q] && w[1] == raw[q + 1] && w[2] == raw[q + 2] && w[3] == raw[q + 3]);
        if closed is None {
            lemma_no_dashes(raw, to, at, q);
        }
        assert(q + 4 <= at);
        assert(cut <= at);
    }
    let b = at - cut;
    assert(body =~= raw.skip(cut));
    assert(body.subrange(b, b + marker.len()) =~= marker);
    assert(matches_at(body, marker, b));
    lemma_next_match(body, marker, 0);
}

/// Three dashes at the start of a line stand before a link at the end of a text.
proof fn lemma_no_dashes(raw: Seq<char>, to: Seq<char>, at: int, q: int)
    requires
        !holds(to, "\n---"@),
        0 <= at,
        raw.len() == at + to.len() + 6,
        forall|k: int| 0 <= k < to.len() ==> #[trigger] to[k] == raw[at + k + 2],
        raw[at] == '[',
        raw[at + 1] == '[',
        raw[at + to.len() + 2] == ']',
        raw[at + to.len() + 3] == ']',
        raw[at + to.len() + 4] == '\n',
        raw[at + to.len() + 5] == '\n',
        0 <= q,
        q + 4 <= raw.len(),
        raw[q] == '\n',
        raw[q + 1] == '-',
        raw[q + 2] == '-',
        raw[q + 3] == '-',
    ensures
        q + 4 <= at,
{
    reveal_strlit("\n---");
    let k = q - at - 2;
    let n = to.len() as int;
    if q + 4 > at {
        assert(q != at && q + 1 != at && q + 2 != at && q + 3 != at);
        assert(k >= 0);
        assert(k + 4 <= n) by {
            if k + 4 > n {
                assert(q + 1 != at + n + 2 && q + 2 != at + n + 2 && q + 3 != at + n + 2);
                assert(q != at + n + 2);
            }
        }
        assert(to[k] == raw[q] && to[k + 1] == raw[q + 1] && to[k + 2] == raw[q + 2] && to[k + 3]
            == raw[q + 3]);
        assert(to.subrange(k, k + 4) =~= "\n---"@);
        assert(matches_at(to, "\n---"@, k));
        lemma_next_match(to, "\n---"@, 0);
    }
}

/// The file of a note to which a link was put in ends with the link.
proof fn lemma_file_ends_with_link(fm: YamlView, content: Seq<char>, to: Seq<char>)
    ensures
        ({
            let raw = note_file(Some(fm), linked_content(content, to));
            &&& raw.len() >= to.len() + 6
            &&& raw.subrange(raw.len() - to.len() - 6, raw.len() as int) == "[["@ + to + "]]"@
                + "\n"@ + "\n"@
        }),
{
    reveal_strlit("\n");
    reveal_strlit("[[");
    reveal_strlit("]]");
    let tail = "[["@ + to + "]]"@ + "\n"@ + "\n"@;
    let head = trim_end(content) + "\n\n"@;
    let text = linked_content(content, to);
    let raw = note_file(Some(fm), text);
    if is_written(fm) {
        let front = "---\n"@ + trim_end(yaml_text(fm)) + "\n---\n"@;
        assert(raw =~= front + head + tail);
    } else {
        assert(raw =~= head + tail);
    }
    assert(raw.subrange(raw.len() - tail.len(), raw.len() as int) =~= tail);
}

/// Where a text that ends in no line feed stands between line feeds, it stands
/// nowhere but there, or reaches over into it from the front.
proof fn lemma_between_line_feeds(s: Seq<char>, marker: Seq<char>, h: int, k: int)
    requires
        0 <= h,
        marker.len() > 0,
        marker.last() != '\n',
        h + 2 + marker.len() <= s.len(),
        s[h] == '\n',
        s[h + 1] == '\n',
        forall|i: int| h + 2 + marker.len() <= i < s.len() ==> #[trigger] s[i] == '\n',
        matches_at(s, marker, k),
    ensures
        k <= h + 2,
        k + marker.len() <= h || k + marker.len() > h + 2,
{
    let m = marker.len() as int;
    let w = s.subrange(k, k + m);
    assert(w[m - 1] == s[k + m - 1]);
    assert(w[m - 1] == marker.last());
    assert(k + m - 1 != h && k + m - 1 != h + 1);
}

proof fn lemma_stands_once(s: Seq<char>, marker: Seq<char>, h: int)
    requires
        0 <= h,
        marker.len() > 0,
        marker.last() != '\n',
        matches_at(s, marker, h + 2),
        !holds(s.take(h), marker),
        s[h] == '\n',
        s[h + 1] == '\n',
        forall|i: int| h + 2 + marker.len() <= i < s.len() ==> #[trigger] s[i] == '\n',
    ensures
        count_from(s, marker, 0) == 1,
{
    let m = marker.len() as int;
    lemma_next_match(s, marker, 0);
    lemma_next_match(s.take(h), marker, 0);
    let q = next_match(s, marker, 0)->0;
    assert(q <= h + 2);
    lemma_between_line_feeds(s, marker, h, q);
    if q + m <= h {
        assert(s.take(h).subrange(q, q + m) =~= s.subrange(q, q + m));
        assert(matches_at(s.take(h), marker, q));
    }
    let next = q + m;
    lemma_next_match(s, marker, next);
    if let Some(k) = next_match(s, marker, next) {
        lemma_between_line_feeds(s, marker, h, k);
    }
    assert(count_from(s, marker, next) == 0);
}

/// A link that is put behind a text without it, with an empty line in between,
/// stands there once.
proof fn lemma_put_in_once(head: Seq<char>, to: Seq<char>, tail: Seq<char>)
    requires
        !holds(head, "[["@ + to + "]]"@),
        tail == "\n"@ || tail == "\n"@ + "\n"@,
    ensures
        count_from(
            head + "\n\n"@ + ("[["@ + to + "]]"@) + tail,
            "[["@ + to + "]]"@,
            0,
        ) == 1,
{
    reveal_strlit("\n");
    reveal_strlit("\n\n");
    reveal_strlit("]]");
    let marker = "[["@ + to + "]]"@;
    let s = head + "\n\n"@ + marker + tail;
    let h = head.len() as int;
    assert(s.subrange(h + 2, h + 2 + marker.len()) =~= marker);
    assert(s.take(h) =~= head);
    assert forall|i: int| h + 2 + marker.len() <= i < s.len() implies #[trigger] s[i] == '\n' by {
        assert(s[i] == tail[i - h - 2 - marker.len()]);
    }
    lemma_stands_once(s, marker, h);
}

/// A link is put in once: the content of a note without it holds it exactly once
/// after the call, behind all that was there, and so does the file, where the
/// frontmatter in front of the content does not show it too.
pub proof fn law_a_link_is_put_in_once(
    w0: NoteWriter,
    w1: NoteWriter,
    v0: Vault,
    v1: Vault,
    from: Seq<char>,
    to: Seq<char>,
    millis: u64,
    now: Seq<char>,
    c: CommitResult,
)
    requires
        edit_done(
            w0,
            w1,
            v0,
            v1,
            from,
            |raw: Seq<char>| link_ops(raw, from, to),
            millis,
            now,
            Ok(c),
        ),
        !has_link(raw_of(v0.notes(), note_key(from))->0, from, to),
    ensures
        ({
            let note = parsed(raw_of(v0.notes(), note_key(from))->0, from + ".md"@);
            let text = linked_content(note.content, to);
            let file = note_file(Some(note.frontmatter), text);
            let marker = "[["@ + to + "]]"@;
            &&& raw_of(v1.notes(), note_key(from)) == Some(file)
            &&& count_from(text, marker, 0) == 1
            &&& !is_written(note.frontmatter) ==> count_from(file, marker, 0) == 1
            &&& is_written(note.frontmatter) && !holds(
                "---\n"@ + trim_end(yaml_text(note.frontmatter)) + "\n---\n"@ + trim_end(
                    note.content,
                ),
                marker,
            ) ==> count_from(file, marker, 0) == 1
        }),
{
    let key = note_key(from);
    let raw = raw_of(v0.notes(), key)->0;
    let note = parsed(raw, from + ".md"@);
    let marker = "[["@ + to + "]]"@;
    let text = linked_content(note.content, to);
    let file = note_file(Some(note.frontmatter), text);
    lemma_link_lands(w0, w1, v0, v1, from, to, millis, now, c);
    let head = trim_end(note.content);
    lemma_trimmed_holds_no_more(note.content, marker);
    lemma_put_in_once(head, to, "\n"@);
    if is_written(note.frontmatter) {
        let front = "---\n"@ + trim_end(yaml_text(note.frontmatter)) + "\n---\n"@;
        if !holds(front + head, marker) {
            lemma_put_in_once(front + head, to, "\n"@ + "\n"@);
            assert(file =~= front + head + "\n\n"@ + marker + ("\n"@ + "\n"@));
        }
    } else {
        lemma_put_in_once(head, to, "\n"@ + "\n"@);
        assert(file =~= head + "\n\n"@ + marker + ("\n"@ + "\n"@));
    }
}

/// The file of a note without the link once it was put in.
proof fn lemma_link_lands(
    w0: NoteWriter,
    w1: NoteWriter,
    v0: Vault,
    v1: Vault,
    from: Seq<char>,
    to: Seq<char>,
    millis: u64,
    now: Seq<char>,
    c: CommitResult,
)
    requires
        edit_done(
            w0,
            w1,
            v0,
            v1,
            from,
            |raw: Seq<char>| link_ops(raw, from, to),
            millis,
            now,
            Ok(c),
        ),
        !has_link(raw_of(v0.notes(), note_key(from))->0, from, to),
    ensures
        ({
            let note = parsed(raw_of(v0.notes(), note_key(from))->0, from + ".md"@);
            raw_of(v1.notes(), note_key(from)) == Some(
                note_file(Some(note.frontmatter), linked_content(note.content, to)),
            )
        }),
{
    let key = note_key(from);
    let raw = raw_of(v0.notes(), key)->0;
    let note = parsed(raw, from + ".md"@);
    let text = linked_content(note.content, to);
    let op = OpView::Update { note_id: from, content: Some(text), frontmatter: None };
    let ops = link_ops(raw, from, to);
    assert(ops =~= seq![op]);
    let ds = diff_of(ops, v0.notes())->Ok_0;
    assert(diffs_from(ops, v0.notes(), 1) == Ok::<Seq<DiffView>, ErrorView>(seq![]));
    let after = note_file(Some(note.frontmatter), text);
    assert(ds.len() == 1 && ds[0].note_id == from && ds[0].after == Some(after));
    let steps = apply_steps(ds);
    lemma_after_steps(v0.notes(), steps, 1, key, Some(after));
    assert(steps[0].key == key);
}

/// Whether the text of a note, with a link behind it, begins with a line of three
/// dashes that nothing before the link closes.
pub open spec fn left_open(raw: Seq<char>, from: Seq<char>) -> bool {
    let note = parsed(raw, from + ".md"@);
    let head = trim_end(note.content) + "\n\n"@;
    !is_written(note.frontmatter) && has_prefix(head, "---\n"@) && !holds(head.skip(4), "\n---"@)
}

/// Where the frontmatter of a file ends before the link at its end, if it has one.
proof fn lemma_closed_before_link(fm: YamlView, content: Seq<char>, to: Seq<char>) -> (closed:
    Option<int>)
    ensures
        ({
            let raw = note_file(Some(fm), linked_content(content, to));
            let head = trim_end(content) + "\n\n"@;
            match closed {
                Some(p) => 0 <= p <= raw.len() - to.len() - 14 && matches_at(
                    raw.skip(4),
                    "\n---"@,
                    p,
                ),
                None => !has_prefix(raw, "---\n"@) || (!is_written(fm) && has_prefix(
                    head,
                    "---\n"@,
                ) && !holds(head.skip(4), "\n---"@)),
            }
        }),
{
    reveal_strlit("\n");
    reveal_strlit("\n\n");
    reveal_strlit("\n---");
    reveal_strlit("---\n");
    reveal_strlit("\n---\n");
    reveal_strlit("[[");
    reveal_strlit("]]");
    let tail = "[["@ + to + "]]"@ + "\n"@ + "\n"@;
    let head = trim_end(content) + "\n\n"@;
    let raw = note_file(Some(fm), linked_content(content, to));
    if is_written(fm) {
        let yaml = trim_end(yaml_text(fm));
        assert(raw =~= "---\n"@ + yaml + "\n---\n"@ + head + tail);
        let p = yaml.len() as int;
        assert(raw.skip(4).subrange(p, p + 4) =~= "\n---"@);
        Some(p)
    } else {
        assert(raw =~= head + tail);
        if has_prefix(head, "---\n"@) && holds(head.skip(4), "\n---"@) {
            lemma_next_match(head.skip(4), "\n---"@, 0);
            let p = next_match(head.skip(4), "\n---"@, 0)->0;
            assert(raw.skip(4).subrange(p, p + 4) =~= head.skip(4).subrange(p, p + 4));
            Some(p)
        } else {
            if has_prefix(raw, "---\n"@) {
                assert(head.len() >= 4) by {
                    if head.len() < 4 {
                        assert(raw.subrange(0, 4)[head.len() as int] == '[');
                    }
                }
                assert(raw.subrange(0, 4) =~= head.subrange(0, 4));
            }
            None
        }
    }
}

/// Linking is idempotent: after a link was put in, the note has it, and a second
/// call succeeds and leaves every file as it is. The one exception is a target
/// with a line that begins with three dashes, in a note whose text begins with a
/// line of three dashes that nothing closes: there the link itself would close it.
pub proof fn law_link_is_idempotent(
    w0: NoteWriter,
    w1: NoteWriter,
    w2: NoteWriter,
    v0: Vault,
    v1: Vault,
    v2: Vault,
    from: Seq<char>,
    to: Seq<char>,
    millis: u64,
    now: Seq<char>,
    c: CommitResult,
    later_millis: u64,
    later: Seq<char>,
    r: Result<CommitResult, TacitusError>,
)
    requires
        edit_done(
            w0,
            w1,
            v0,
            v1,
            from,
            |raw: Seq<char>| link_ops(raw, from, to),
            millis,
            now,
            Ok(c),
        ),
        edit_done(
            w1,
            w2,
            v1,
            v2,
            from,
            |raw: Seq<char>| link_ops(raw, from, to),
            later_millis,
            later,
            r,
        ),
        ({
            let raw = raw_of(v0.notes(), note_key(from))->0;
            !has_link(raw, from, to) && left_open(raw, from) ==> !holds(to, "\n---"@)
        }),
    ensures
        raw_of(v1.notes(), note_key(from)) matches Some(raw) && has_link(raw, from, to),
        r is Ok,
        v2.notes() == v1.notes(),
{
    let key = note_key(from);
    let raw = raw_of(v0.notes(), key)->0;
    if has_link(raw, from, to) {
        law_link_leaves_a_linked_note(w0, w1, v0, v1, from, to, millis, now, Ok(c));
    } else {
        let note = parsed(raw, from + ".md"@);
        let after = note_file(Some(note.frontmatter), linked_content(note.content, to));
        lemma_link_lands(w0, w1, v0, v1, from, to, millis, now, c);
        lemma_file_ends_with_link(note.frontmatter, note.content, to);
        let closed = lemma_closed_before_link(note.frontmatter, note.content, to);
        lemma_body_keeps_link(after, to, closed);
    }
    law_link_leaves_a_linked_note(w1, w2, v1, v2, from, to, later_millis, later, r);
}

proof fn lemma_strings_of_texts(tags: Seq<Seq<char>>, i: int)
    requires
        0 <= i <= tags.len(),
    ensures
        strings_from(tags.map_values(|t: Seq<char>| YamlView::Text(t)), i) == tags.skip(i),
    decreases tags.len() - i,
{
    let items = tags.map_values(|t: Seq<char>| YamlView::Text(t));
    if i < tags.len() {
        lemma_strings_of_texts(tags, i + 1);
        assert(items[i] == YamlView::Text(tags[i]));
        assert(seq![tags[i]] + tags.skip(i + 1) =~= tags.skip(i));
    } else {
        assert(tags.skip(i) =~= seq![]);
    }
}

proof fn lemma_with_tags(fm: YamlView, tags: Seq<Seq<char>>)
    ensures
        listed_tags(with_tags(fm, tags)) == tags,
        with_tags(with_tags(fm, tags), tags) == with_tags(fm, tags),
{
    let e = match fm {
        YamlView::Table(e) => e,
        _ => seq![],
    };
    let key = "tags"@;
    let value = tag_list(tags);
    let f = entries_with(e, key, value);
    lemma_entry_from(e, key, 0);
    lemma_entry_from(f, key, 0);
    let at = match entry_from(e, key, 0) {
        Some(i) => i,
        None => e.len() as int,
    };
    assert(f[at] == (YamlView::Text(key), value));
    assert forall|j: int| 0 <= j < at implies (#[trigger] f[j]).0 != YamlView::Text(key) by {
        assert(f[j] == e[j]);
    }
    assert(entry_from(f, key, 0) == Some(at));
    lemma_strings_of_texts(tags, 0);
    assert(tags.skip(0) =~= tags);
    assert(f.update(at, (YamlView::Text(key), value)) =~= f);
}

/// Tagging adds a tag once: the frontmatter then lists the tag and all that it
/// listed before, and tagging again leaves the frontmatter as it is.
pub proof fn law_tag_is_idempotent(fm: YamlView, tag: Seq<char>)
    ensures
        listed_tags(tagged_frontmatter(fm, tag)) == tags_plus(listed_tags(fm), tag),
        listed_tags(tagged_frontmatter(fm, tag)).contains(tag),
        tagged_frontmatter(tagged_frontmatter(fm, tag), tag) == tagged_frontmatter(fm, tag),
{
    let tags = tags_plus(listed_tags(fm), tag);
    lemma_with_tags(fm, tags);
    if !listed_tags(fm).contains(tag) {
        assert(tags[listed_tags(fm).len() as int] == tag);
    }
    assert(tags.contains(tag));
    assert(tags_plus(tags, tag) == tags);
}

} // verus!

//! Changesets: what they do to a vault, checked before anything is written.
//!
//! A changeset is validated against the files of a vault into a diff. The diff
//! is the whole plan: the steps that apply it, the steps that undo any part of
//! it that was applied, and the snapshot that makes it reversible.
use crate::error::{error, ErrorView, TacitusError};
use crate::ids::{id_text, stable_id};
use crate::memory::store::{frame_memory, framed, lemma_framed};
use crate::paths::{key_of_note, note_key};
use crate::strmap::StrMap;
use crate::text::{
    copy_opt, has_prefix, holds, join, join_strings, opt_text, texts, trim_end,
};
use crate::vault::get::{missing_note, no_such_note};
use crate::vault::parse::{frontmatter_of, parse_note, parsed, sections};
use crate::vault::value::{
    lemma_model, render_yaml, render_yaml_json, yaml_as_json_text, yaml_text, Yaml, YamlView,
};
use vstd::prelude::*;
use vstd::string::*;

verus! {

/// The permission of a session. A read-only session can dry-run but never
/// mutate.
#[derive(Clone, Copy, Debug, PartialEq, Eq, Structural)]
pub enum PermissionScope {
    ReadOnly,
    ReadWrite,
}

/// One operation of a changeset.
#[derive(Debug)]
#[allow(inconsistent_fields)]
pub enum ChangeOp {
    Create { note_id: String, content: String, frontmatter: Option<Yaml> },
    Update { note_id: String, content: Option<String>, frontmatter: Option<Yaml> },
    Delete { note_id: String },
    /// Sets the raw file of a note as it is (`None` deletes it). No distinction
    /// of create and update, no conflict on existence.
    SetRaw { note_id: String, raw: Option<String> },
}

/// The model of an operation.
#[verifier::ext_equal]
#[allow(inconsistent_fields)]
pub enum OpView {
    Create { note_id: Seq<char>, content: Seq<char>, frontmatter: Option<YamlView> },
    Update { note_id: Seq<char>, content: Option<Seq<char>>, frontmatter: Option<YamlView> },
    Delete { note_id: Seq<char> },
    SetRaw { note_id: Seq<char>, raw: Option<Seq<char>> },
}

/// The model of an optional frontmatter.
pub open spec fn opt_yaml(y: Option<Yaml>) -> Option<YamlView> {
    match y {
        Some(v) => Some(v@),
        None => None,
    }
}

impl View for ChangeOp {
    type V = OpView;

    open spec fn view(&self) -> OpView {
        match *self {
            ChangeOp::Create { note_id, content, frontmatter } => OpView::Create {
                note_id: note_id@,
                content: content@,
                frontmatter: opt_yaml(frontmatter),
            },
            ChangeOp::Update { note_id, content, frontmatter } => OpView::Update {
                note_id: note_id@,
                content: opt_text(content),
                frontmatter: opt_yaml(frontmatter),
            },
            ChangeOp::Delete { note_id } => OpView::Delete { note_id: note_id@ },
            ChangeOp::SetRaw { note_id, raw } => OpView::SetRaw {
                note_id: note_id@,
                raw: opt_text(raw),
            },
        }
    }
}

/// A batch of operations, applied atomically.
#[derive(Debug)]
pub struct Changeset {
    pub ops: Vec<ChangeOp>,
}

pub open spec fn ops_view(v: Seq<ChangeOp>) -> Seq<OpView> {
    v.map_values(|o: ChangeOp| o@)
}

impl View for Changeset {
    type V = Seq<OpView>;

    open spec fn view(&self) -> Seq<OpView> {
        ops_view(self.ops@)
    }
}

/// One note before and after.
#[derive(Debug)]
pub struct DiffEntry {
    pub note_id: String,
    pub op: String,
    pub before: Option<String>,
    pub after: Option<String>,
}

/// The model of one note before and after.
#[verifier::ext_equal]
pub struct DiffView {
    pub note_id: Seq<char>,
    pub op: Seq<char>,
    pub before: Option<Seq<char>>,
    pub after: Option<Seq<char>>,
}

impl View for DiffEntry {
    type V = DiffView;

    open spec fn view(&self) -> DiffView {
        DiffView {
            note_id: self.note_id@,
            op: self.op@,
            before: opt_text(self.before),
            after: opt_text(self.after),
        }
    }
}

pub open spec fn diff_view(v: Seq<DiffEntry>) -> Seq<DiffView> {
    v.map_values(|d: DiffEntry| d@)
}

/// The raw contents of files by the keys of their notes.
pub open spec fn files_view(m: Map<Seq<char>, String>) -> Map<Seq<char>, Seq<char>> {
    m.map_values(|s: String| s@)
}

/// The raw contents of the file under a key, where there is one.
pub open spec fn raw_of(files: Map<Seq<char>, Seq<char>>, id: Seq<char>) -> Option<Seq<char>> {
    if files.contains_key(id) {
        Some(files[id])
    } else {
        None
    }
}

// ---------------------------------------------------------------------------
// The text of a note file
// ---------------------------------------------------------------------------

/// Whether a frontmatter is written at all.
pub open spec fn is_written(fm: YamlView) -> bool {
    match fm {
        YamlView::Table(e) => e.len() > 0,
        YamlView::Null => false,
        _ => true,
    }
}

/// The file of a note: the frontmatter block only where there is something in
/// it, the body, a line feed.
pub open spec fn note_file(fm: Option<YamlView>, content: Seq<char>) -> Seq<char> {
    match fm {
        Some(y) => if is_written(y) {
            framed(yaml_text(y), content)
        } else {
            content + "\n"@
        },
        None => content + "\n"@,
    }
}

/// The file of a note with the given frontmatter and content.
pub fn serialize_note(frontmatter: Option<&Yaml>, content: &str) -> (r: String)
    ensures
        r@ == note_file(
            match frontmatter {
                Some(y) => Some(y@),
                None => None,
            },
            content@,
        ),
{
    if let Some(y) = frontmatter {
        proof {
            lemma_model(*y);
        }
        let written: bool = match y {
            Yaml::Table(e) => e.len() > 0,
            Yaml::Null => false,
            _ => true,
        };
        assert(written == is_written(y@));
        if written {
            let text = render_yaml(y);
            return frame_memory(text.as_str(), content);
        }
    }
    let mut out = content.to_owned();
    out.append("\n");
    out
}

/// A note file reads back as it was written: its body is the content and a line
/// feed, and its frontmatter text is that of the frontmatter, where there is
/// something in it. This asks that no line of the frontmatter begins with three
/// dashes, and that a content without frontmatter does not open a block of its
/// own.
pub proof fn law_note_file_reads_back(fm: Option<YamlView>, content: Seq<char>)
    requires
        match fm {
            Some(y) if is_written(y) => !holds(trim_end(yaml_text(y)), "\n---"@),
            _ => !has_prefix(content + "\n"@, "---\n"@) || !holds(
                (content + "\n"@).skip(4),
                "\n---"@,
            ),
        },
    ensures
        sections(note_file(fm, content)) == (
            match fm {
                Some(y) if is_written(y) => Some(trim_end(yaml_text(y))),
                _ => None,
            },
            content + "\n"@,
        ),
{
    if let Some(y) = fm {
        if is_written(y) {
            reveal_strlit("\n");
            lemma_framed(yaml_text(y), content);
            assert(("\n"@ + content + "\n"@).skip(1) =~= content + "\n"@);
        }
    }
}

// ---------------------------------------------------------------------------
// Diffs
// ---------------------------------------------------------------------------

/// The error for an operation on a note that does not exist.
pub open spec fn not_found_error(id: Seq<char>) -> ErrorView {
    no_such_note(id, "Create it first, or check the id with list_notes."@)
}

/// The error for an operation on a note that does not exist.
pub(crate) fn not_found(note_id: &str) -> (e: TacitusError)
    ensures
        e@ == not_found_error(note_id@),
{
    missing_note(note_id, "Create it first, or check the id with list_notes.")
}

/// The name of the change from one state of a file to another.
pub open spec fn raw_change(before: bool, after: bool) -> Seq<char> {
    if !before && after {
        "create"@
    } else if before && !after {
        "delete"@
    } else {
        "update"@
    }
}

/// What one operation does to the files, or why it cannot. The diff names a note
/// as the operation does; its file is found by the key.
pub open spec fn op_diff(op: OpView, files: Map<Seq<char>, Seq<char>>) -> Result<
    DiffView,
    ErrorView,
> {
    match op {
        OpView::Create { note_id, content, frontmatter } => if raw_of(files, note_key(note_id)) is Some {
            Err(
                error(
                    "CONFLICT"@,
                    "Note \""@ + note_id + "\" already exists."@,
                    "Use an update op, or choose a different note_id."@,
                ),
            )
        } else {
            Ok(
                DiffView {
                    note_id,
                    op: "create"@,
                    before: None,
                    after: Some(note_file(frontmatter, content)),
                },
            )
        },
        OpView::Update { note_id, content, frontmatter } => match raw_of(files, note_key(note_id)) {
            None => Err(not_found_error(note_id)),
            Some(raw) => {
                let existing = parsed(raw, note_id + ".md"@);
                let fm = match frontmatter {
                    Some(y) => y,
                    None => existing.frontmatter,
                };
                let body = match content {
                    Some(c) => c,
                    None => existing.content,
                };
                Ok(
                    DiffView {
                        note_id,
                        op: "update"@,
                        before: Some(raw),
                        after: Some(note_file(Some(fm), body)),
                    },
                )
            },
        },
        OpView::SetRaw { note_id, raw } => Ok(
            DiffView {
                note_id,
                op: raw_change(raw_of(files, note_key(note_id)) is Some, raw is Some),
                before: raw_of(files, note_key(note_id)),
                after: raw,
            },
        ),
        OpView::Delete { note_id } => match raw_of(files, note_key(note_id)) {
            None => Err(not_found_error(note_id)),
            Some(raw) => Ok(
                DiffView {
                    note_id,
                    op: "delete"@,
                    before: Some(raw),
                    after: None,
                },
            ),
        },
    }
}

/// The diffs of the operations from `i` on, or the error of the first that
/// cannot be done.
pub open spec fn diffs_from(ops: Seq<OpView>, files: Map<Seq<char>, Seq<char>>, i: int) -> Result<
    Seq<DiffView>,
    ErrorView,
>
    decreases ops.len() - i,
{
    if i < 0 || i >= ops.len() {
        Ok(seq![])
    } else {
        match op_diff(ops[i], files) {
            Err(e) => Err(e),
            Ok(d) => behind(seq![d], diffs_from(ops, files, i + 1)),
        }
    }
}

/// A diff put behind others, where it came about.
pub open spec fn behind(ds: Seq<DiffView>, r: Result<Seq<DiffView>, ErrorView>) -> Result<
    Seq<DiffView>,
    ErrorView,
> {
    match r {
        Ok(more) => Ok(ds + more),
        Err(e) => Err(e),
    }
}

/// What a changeset does to the files, or why it cannot be done.
pub open spec fn diff_of(ops: Seq<OpView>, files: Map<Seq<char>, Seq<char>>) -> Result<
    Seq<DiffView>,
    ErrorView,
> {
    diffs_from(ops, files, 0)
}

/// The model of what `build_diff` returns.
pub open spec fn diff_outcome(r: Result<Vec<DiffEntry>, TacitusError>) -> Result<
    Seq<DiffView>,
    ErrorView,
> {
    match r {
        Ok(v) => Ok(diff_view(v@)),
        Err(e) => Err(e@),
    }
}

fn read_raw(files: &StrMap<String>, id: &str) -> (r: Option<String>)
    ensures
        opt_text(r) == raw_of(files_view(files@), id@),
{
    match files.get(id) {
        Some(s) => Some(s.clone()),
        None => None,
    }
}

fn build_entry(op: &ChangeOp, files: &StrMap<String>) -> (r: Result<DiffEntry, TacitusError>)
    ensures
        match r {
            Ok(d) => op_diff(op@, files_view(files@)) == Ok::<DiffView, ErrorView>(d@),
            Err(e) => op_diff(op@, files_view(files@)) == Err::<DiffView, ErrorView>(e@),
        },
{
    match op {
        ChangeOp::Create { note_id, content, frontmatter } => {
            let key = key_of_note(note_id.as_str());
            let before = read_raw(files, key.as_str());
            if before.is_some() {
                let mut reason = "Note \"".to_owned();
                reason.append(note_id.as_str());
                reason.append("\" already exists.");
                return Err(
                    TacitusError::new(
                        "CONFLICT",
                        reason.as_str(),
                        "Use an update op, or choose a different note_id.",
                    ),
                );
            }
            let after = serialize_note(frontmatter.as_ref(), content.as_str());
            Ok(
                DiffEntry {
                    note_id: note_id.clone(),
                    op: "create".to_owned(),
                    before: None,
                    after: Some(after),
                },
            )
        },
        ChangeOp::Update { note_id, content, frontmatter } => {
            let key = key_of_note(note_id.as_str());
            let raw = match read_raw(files, key.as_str()) {
                Some(raw) => raw,
                None => {
                    return Err(not_found(note_id.as_str()));
                },
            };
            let mut path = note_id.clone();
            path.append(".md");
            let existing = parse_note(raw.as_str(), path.as_str());
            let body = match content {
                Some(c) => c.clone(),
                None => existing.content,
            };
            let after = match frontmatter {
                Some(y) => serialize_note(Some(y), body.as_str()),
                None => serialize_note(Some(&existing.frontmatter), body.as_str()),
            };
            Ok(
                DiffEntry {
                    note_id: note_id.clone(),
                    op: "update".to_owned(),
                    before: Some(raw),
                    after: Some(after),
                },
            )
        },
        ChangeOp::SetRaw { note_id, raw } => {
            let key = key_of_note(note_id.as_str());
            let before = read_raw(files, key.as_str());
            let name: &str = if before.is_none() && raw.is_some() {
                "create"
            } else if before.is_some() && raw.is_none() {
                "delete"
            } else {
                "update"
            };
            Ok(
                DiffEntry {
                    note_id: note_id.clone(),
                    op: name.to_owned(),
                    before,
                    after: copy_opt(raw),
                },
            )
        },
        ChangeOp::Delete { note_id } => {
            let key = key_of_note(note_id.as_str());
            match read_raw(files, key.as_str()) {
                Some(raw) => Ok(
                    DiffEntry {
                        note_id: note_id.clone(),
                        op: "delete".to_owned(),
                        before: Some(raw),
                        after: None,
                    },
                ),
                None => Err(not_found(note_id.as_str())),
            }
        },
    }
}

/// Validates a changeset against the files of a vault: a before/after entry
/// for each operation, or the error of the first that cannot be done.
pub fn build_diff(changeset: &Changeset, files: &StrMap<String>) -> (r: Result<
    Vec<DiffEntry>,
    TacitusError,
>)
    ensures
        diff_outcome(r) == diff_of(changeset@, files_view(files@)),
{
    let ghost ops = changeset@;
    let ghost f = files_view(files@);
    let mut out: Vec<DiffEntry> = Vec::new();
    let mut i: usize = 0;
    assert(diff_view(out@) =~= seq![]);
    proof {
        match diff_of(ops, f) {
            Ok(ds) => {
                assert(seq![] + ds =~= ds);
            },
            Err(_) => {},
        }
    }
    while i < changeset.ops.len()
        invariant
            i <= changeset.ops@.len(),
            ops == ops_view(changeset.ops@),
            f == files_view(files@),
            diff_of(ops, f) == behind(diff_view(out@), diffs_from(ops, f, i as int)),
        decreases changeset.ops@.len() - i,
    {
        assert(ops[i as int] == changeset.ops@[i as int]@);
        match build_entry(&changeset.ops[i], files) {
            Ok(d) => {
                let ghost prev = diff_view(out@);
                let ghost dv = d@;
                out.push(d);
                assert(diff_view(out@) =~= prev.push(dv));
                proof {
                    match diffs_from(ops, f, i + 1) {
                        Ok(more) => {
                            assert(prev + (seq![dv] + more) =~= diff_view(out@) + more);
                        },
                        Err(_) => {},
                    }
                }
            },
            Err(e) => {
                return Err(e);
            },
        }
        i = i + 1;
    }
    assert(diff_view(out@) + seq![] =~= diff_view(out@));
    Ok(out)
}

pub proof fn lemma_diffs_before(ops: Seq<OpView>, files: Map<Seq<char>, Seq<char>>, i: int)
    requires
        0 <= i,
    ensures
        diffs_from(ops, files, i) matches Ok(ds) ==> forall|k: int|
            0 <= k < ds.len() ==> (#[trigger] ds[k]).before == raw_of(
                files,
                note_key(ds[k].note_id),
            ),
    decreases ops.len() - i,
{
    if i < ops.len() {
        lemma_diffs_before(ops, files, i + 1);
        match op_diff(ops[i], files) {
            Ok(d) => {
                match diffs_from(ops, files, i + 1) {
                    Ok(more) => {
                        let ds = seq![d] + more;
                        assert forall|k: int| 0 <= k < ds.len() implies (#[trigger] ds[k]).before
                            == raw_of(files, note_key(ds[k].note_id)) by {
                            if k > 0 {
                                assert(ds[k] == more[k - 1]);
                            }
                        }
                    },
                    Err(_) => {},
                }
            },
            Err(_) => {},
        }
    }
}

// ---------------------------------------------------------------------------
// Steps
// ---------------------------------------------------------------------------

/// A step on the files of a vault: the file of a note gets a raw content, or goes.
#[derive(Debug)]
pub struct Step {
    /// The key of the note.
    pub key: String,
    pub raw: Option<String>,
}

/// The model of a step.
#[verifier::ext_equal]
pub struct StepView {
    pub key: Seq<char>,
    pub raw: Option<Seq<char>>,
}

impl View for Step {
    type V = StepView;

    open spec fn view(&self) -> StepView {
        StepView { key: self.key@, raw: opt_text(self.raw) }
    }
}

pub open spec fn steps_view(v: Seq<Step>) -> Seq<StepView> {
    v.map_values(|s: Step| s@)
}

/// The files after a step.
pub open spec fn stepped(files: Map<Seq<char>, Seq<char>>, s: StepView) -> Map<
    Seq<char>,
    Seq<char>,
> {
    match s.raw {
        Some(raw) => files.insert(s.key, raw),
        None => files.remove(s.key),
    }
}

/// The files after the first `n` of some steps.
pub open spec fn after_steps(
    files: Map<Seq<char>, Seq<char>>,
    steps: Seq<StepView>,
    n: int,
) -> Map<Seq<char>, Seq<char>>
    decreases n,
{
    if n <= 0 {
        files
    } else {
        stepped(after_steps(files, steps, n - 1), steps[n - 1])
    }
}

/// The steps that apply a diff.
pub open spec fn apply_steps(ds: Seq<DiffView>) -> Seq<StepView> {
    ds.map_values(|d: DiffView| StepView { key: note_key(d.note_id), raw: d.after })
}

/// The steps that undo the first `done` steps of a diff.
pub open spec fn undo_steps(ds: Seq<DiffView>, done: int) -> Seq<StepView> {
    ds.take(done).map_values(
        |d: DiffView| StepView { key: note_key(d.note_id), raw: d.before },
    )
}

/// The steps that apply a diff, in order.
pub fn commit_steps(diff: &Vec<DiffEntry>) -> (r: Vec<Step>)
    ensures
        steps_view(r@) == apply_steps(diff_view(diff@)),
{
    let ghost want = apply_steps(diff_view(diff@));
    let mut out: Vec<Step> = Vec::new();
    let mut i: usize = 0;
    while i < diff.len()
        invariant
            i <= diff@.len(),
            want == apply_steps(diff_view(diff@)),
            steps_view(out@) == want.take(i as int),
        decreases diff@.len() - i,
    {
        let ghost prev = steps_view(out@);
        out.push(Step { key: key_of_note(diff[i].note_id.as_str()), raw: copy_opt(&diff[i].after) });
        assert(steps_view(out@) =~= prev.push(want[i as int]));
        assert(want.take(i + 1) =~= want.take(i as int).push(want[i as int]));
        i = i + 1;
    }
    assert(want.take(want.len() as int) =~= want);
    out
}

/// The steps that bring the files back to where they were, once the first
/// `done` steps of a diff were applied and the next failed.
pub fn rollback_steps(diff: &Vec<DiffEntry>, done: usize) -> (r: Vec<Step>)
    requires
        done <= diff@.len(),
    ensures
        steps_view(r@) == undo_steps(diff_view(diff@), done as int),
{
    let ghost want = undo_steps(diff_view(diff@), done as int);
    let mut out: Vec<Step> = Vec::new();
    let mut i: usize = 0;
    while i < done
        invariant
            i <= done <= diff@.len(),
            want == undo_steps(diff_view(diff@), done as int),
            steps_view(out@) == want.take(i as int),
        decreases done - i,
    {
        let ghost prev = steps_view(out@);
        out.push(Step { key: key_of_note(diff[i].note_id.as_str()), raw: copy_opt(&diff[i].before) });
        assert(steps_view(out@) =~= prev.push(want[i as int]));
        assert(want.take(i + 1) =~= want.take(i as int).push(want[i as int]));
        i = i + 1;
    }
    assert(want.take(want.len() as int) =~= want);
    out
}

/// Brings a note file to the given state.
pub fn apply_step(files: &mut StrMap<String>, step: &Step)
    ensures
        files_view(final(files)@) == stepped(files_view(old(files)@), step@),
{
    match &step.raw {
        Some(raw) => {
            files.insert(step.key.clone(), raw.clone());
            assert(files_view(files@) =~= files_view(old(files)@).insert(
                step.key@,
                raw@,
            ));
        },
        None => {
            let _ = files.remove(step.key.as_str());
            assert(files_view(files@) =~= files_view(old(files)@).remove(step.key@));
        },
    }
}

/// Applies all steps in order.
pub fn apply_all(files: &mut StrMap<String>, steps: &Vec<Step>)
    ensures
        files_view(final(files)@) == after_steps(
            files_view(old(files)@),
            steps_view(steps@),
            steps@.len() as int,
        ),
{
    let ghost start = files_view(files@);
    let ghost all = steps_view(steps@);
    let mut i: usize = 0;
    while i < steps.len()
        invariant
            i <= steps@.len(),
            all == steps_view(steps@),
            files_view(files@) == after_steps(start, all, i as int),
        decreases steps@.len() - i,
    {
        apply_step(files, &steps[i]);
        assert(all[i as int] == steps@[i as int]@);
        i = i + 1;
    }
}

/// A note that no step names keeps its file; one that the steps bring to one
/// state and no other is in that state.
pub proof fn lemma_after_steps(
    files: Map<Seq<char>, Seq<char>>,
    steps: Seq<StepView>,
    n: int,
    id: Seq<char>,
    state: Option<Seq<char>>,
)
    requires
        0 <= n <= steps.len(),
        forall|k: int| 0 <= k < n && (#[trigger] steps[k]).key == id ==> steps[k].raw == state,
    ensures
        raw_of(after_steps(files, steps, n), id) == if exists|k: int|
            0 <= k < n && (#[trigger] steps[k]).key == id {
            state
        } else {
            raw_of(files, id)
        },
    decreases n,
{
    if n > 0 {
        lemma_after_steps(files, steps, n - 1, id, state);
        let last = steps[n - 1];
        if last.key == id {
            assert(last.raw == state);
            assert(exists|k: int| 0 <= k < n && (#[trigger] steps[k]).key == id);
        } else {
            assert((exists|k: int| 0 <= k < n && (#[trigger] steps[k]).key == id) <==> (exists|
                k: int,
            | 0 <= k < n - 1 && (#[trigger] steps[k]).key == id)) by {
                if exists|k: int| 0 <= k < n && (#[trigger] steps[k]).key == id {
                    let k = choose|k: int| 0 <= k < n && (#[trigger] steps[k]).key == id;
                    assert(k < n - 1);
                }
            }
        }
    }
}

pub proof fn lemma_same_files(a: Map<Seq<char>, Seq<char>>, b: Map<Seq<char>, Seq<char>>)
    requires
        forall|id: Seq<char>| #[trigger] raw_of(a, id) == raw_of(b, id),
    ensures
        a == b,
{
    assert forall|id: Seq<char>| a.contains_key(id) <==> b.contains_key(id) by {
        assert(raw_of(a, id) == raw_of(b, id));
    }
    assert forall|id: Seq<char>| a.contains_key(id) implies a[id] == b[id] by {
        assert(raw_of(a, id) == raw_of(b, id));
    }
    assert(a =~= b);
}

/// The note that an operation is on.
pub open spec fn target_of(op: OpView) -> Seq<char> {
    match op {
        OpView::Create { note_id, .. } => note_id,
        OpView::Update { note_id, .. } => note_id,
        OpView::Delete { note_id } => note_id,
        OpView::SetRaw { note_id, .. } => note_id,
    }
}

/// Whether an operation cannot be done: it creates a note that is there, or
/// updates or deletes one that is not.
pub open spec fn is_blocked(op: OpView, files: Map<Seq<char>, Seq<char>>) -> bool {
    let there = raw_of(files, note_key(target_of(op))) is Some;
    match op {
        OpView::Create { .. } => there,
        OpView::Update { .. } => !there,
        OpView::Delete { .. } => !there,
        OpView::SetRaw { .. } => false,
    }
}

/// Whether an entry of a diff is that of an operation: it names the note as the
/// operation does and shows its file as it is. A deleted note has no file after,
/// a raw one the given text, and a new one its frontmatter and content. An updated
/// one has what the operation gives of the two, each for itself, and what the file
/// had of the rest.
pub open spec fn follows(d: DiffView, op: OpView, files: Map<Seq<char>, Seq<char>>) -> bool {
    &&& d.note_id == target_of(op)
    &&& d.before == raw_of(files, note_key(target_of(op)))
    &&& op is Delete ==> d.after is None && d.op == "delete"@
    &&& op matches OpView::Create { content, frontmatter, .. } ==> d.op == "create"@ && d.after
        == Some(note_file(frontmatter, content))
    &&& op is Update ==> d.op == "update"@
    &&& op matches OpView::Update { content: Some(c), frontmatter: Some(y), .. } ==> d.after == Some(
        note_file(Some(y), c),
    )
    &&& op matches OpView::Update { content: Some(c), frontmatter: None, .. } ==> d.after == Some(
        note_file(Some(frontmatter_of(d.before->0)), c),
    )
    &&& op matches OpView::Update { content: None, frontmatter: Some(y), .. } ==> d.after == Some(
        note_file(Some(y), sections(d.before->0).1),
    )
    &&& op matches OpView::Update { content: None, frontmatter: None, .. } ==> d.after == Some(
        note_file(Some(frontmatter_of(d.before->0)), sections(d.before->0).1),
    )
    &&& op matches OpView::SetRaw { raw, .. } ==> d.after == raw && (d.before is None && raw is Some
        ==> d.op == "create"@) && (d.before is Some && raw is None ==> d.op == "delete"@) && (
    d.before is Some == raw is Some ==> d.op == "update"@)
}

proof fn lemma_op_diff(op: OpView, files: Map<Seq<char>, Seq<char>>)
    ensures
        match op_diff(op, files) {
            Ok(d) => !is_blocked(op, files) && follows(d, op, files),
            Err(_) => is_blocked(op, files),
        },
{
}

proof fn lemma_diffs_from(ops: Seq<OpView>, files: Map<Seq<char>, Seq<char>>, i: int)
    requires
        0 <= i <= ops.len(),
    ensures
        match diffs_from(ops, files, i) {
            Ok(ds) => ds.len() == ops.len() - i && forall|k: int|
                i <= k < ops.len() ==> op_diff(#[trigger] ops[k], files) == Ok::<
                    DiffView,
                    ErrorView,
                >(ds[k - i]),
            Err(e) => exists|k: int|
                i <= k < ops.len() && op_diff(#[trigger] ops[k], files) == Err::<
                    DiffView,
                    ErrorView,
                >(e) && forall|j: int| i <= j < k ==> op_diff(#[trigger] ops[j], files) is Ok,
        },
    decreases ops.len() - i,
{
    if i < ops.len() {
        lemma_diffs_from(ops, files, i + 1);
        match op_diff(ops[i], files) {
            Ok(d) => match diffs_from(ops, files, i + 1) {
                Ok(more) => {
                    let ds = seq![d] + more;
                    assert forall|k: int| i <= k < ops.len() implies op_diff(#[trigger] ops[k], files)
                        == Ok::<DiffView, ErrorView>(ds[k - i]) by {
                        if k > i {
                            assert(ds[k - i] == more[k - i - 1]);
                        }
                    }
                },
                Err(e) => {
                    let k = choose|k: int|
                        i + 1 <= k < ops.len() && op_diff(#[trigger] ops[k], files) == Err::<
                            DiffView,
                            ErrorView,
                        >(e) && forall|j: int|
                            i + 1 <= j < k ==> op_diff(#[trigger] ops[j], files) is Ok;
                    assert(op_diff(ops[k], files) == Err::<DiffView, ErrorView>(e));
                },
            },
            Err(_) => {},
        }
    }
}

/// A diff follows its changeset: one entry for each operation, which names the
/// note as the operation does and shows its file as it is. There is none only
/// where an operation cannot be done, and the error is that of the first such.
pub proof fn law_a_diff_follows_its_changeset(ops: Seq<OpView>, files: Map<Seq<char>, Seq<char>>)
    ensures
        diff_of(ops, files) is Err <==> exists|i: int|
            0 <= i < ops.len() && is_blocked(#[trigger] ops[i], files),
        match diff_of(ops, files) {
            Ok(ds) => ds.len() == ops.len() && forall|i: int|
                #![trigger ds[i]]
                0 <= i < ds.len() ==> follows(ds[i], ops[i], files),
            Err(e) => exists|i: int|
                0 <= i < ops.len() && is_blocked(#[trigger] ops[i], files) && op_diff(ops[i], files)
                    == Err::<DiffView, ErrorView>(e) && forall|j: int|
                    0 <= j < i ==> !is_blocked(#[trigger] ops[j], files),
        },
{
    lemma_diffs_from(ops, files, 0);
    assert forall|i: int| 0 <= i < ops.len() implies is_blocked(#[trigger] ops[i], files) == (
    op_diff(ops[i], files) is Err) by {
        lemma_op_diff(ops[i], files);
    }
    match diff_of(ops, files) {
        Ok(ds) => {
            assert forall|i: int|
                #![trigger ds[i]]
                0 <= i < ds.len() implies follows(ds[i], ops[i], files) by {
                lemma_op_diff(ops[i], files);
                assert(op_diff(ops[i], files) == Ok::<DiffView, ErrorView>(ds[i - 0]));
            }
            assert forall|i: int| 0 <= i < ops.len() implies !is_blocked(#[trigger] ops[i], files) by {
                assert(op_diff(ops[i], files) is Ok);
            }
        },
        Err(e) => {
            let k = choose|k: int|
                0 <= k < ops.len() && op_diff(#[trigger] ops[k], files) == Err::<
                    DiffView,
                    ErrorView,
                >(e) && forall|j: int| 0 <= j < k ==> op_diff(#[trigger] ops[j], files) is Ok;
            assert(is_blocked(ops[k], files));
            assert forall|j: int| 0 <= j < k implies !is_blocked(#[trigger] ops[j], files) by {
                assert(op_diff(ops[j], files) is Ok);
            }
        },
    }
}

/// A commit is all or nothing: wherever applying it stops, undoing the steps
/// that were applied leaves every file as it was.
pub proof fn law_commit_is_all_or_nothing(
    ops: Seq<OpView>,
    files: Map<Seq<char>, Seq<char>>,
    done: int,
)
    requires
        diff_of(ops, files) is Ok,
        0 <= done <= diff_of(ops, files)->Ok_0.len(),
    ensures
        ({
            let ds = diff_of(ops, files)->Ok_0;
            let part = after_steps(files, apply_steps(ds), done);
            after_steps(part, undo_steps(ds, done), done) == files
        }),
{
    let ds = diff_of(ops, files)->Ok_0;
    let part = after_steps(files, apply_steps(ds), done);
    let undo = undo_steps(ds, done);
    let back = after_steps(part, undo, done);
    lemma_diffs_before(ops, files, 0);
    assert forall|id: Seq<char>| #[trigger] raw_of(back, id) == raw_of(files, id) by {
        assert forall|k: int| 0 <= k < done && (#[trigger] undo[k]).key == id implies undo[k].raw
            == raw_of(files, id) by {
            assert(ds[k].before == raw_of(files, note_key(ds[k].note_id)));
        }
        lemma_after_steps(part, undo, done, id, raw_of(files, id));
        if !(exists|k: int| 0 <= k < done && (#[trigger] undo[k]).key == id) {
            let steps = apply_steps(ds);
            assert forall|k: int| 0 <= k < done implies (#[trigger] steps[k]).key != id by {
                assert(undo[k].key == steps[k].key);
            }
            lemma_after_steps(files, steps, done, id, None);
        }
    }
    lemma_same_files(back, files);
}

/// After a commit the file of each note that the diff names is as the last
/// operation on it says, and every other file is as it was.
pub proof fn law_commit_brings_the_diff(
    ds: Seq<DiffView>,
    files: Map<Seq<char>, Seq<char>>,
    key: Seq<char>,
)
    ensures
        ({
            let out = after_steps(files, apply_steps(ds), ds.len() as int);
            &&& (forall|k: int| 0 <= k < ds.len() ==> note_key((#[trigger] ds[k]).note_id) != key)
                ==> raw_of(out, key) == raw_of(files, key)
            &&& forall|k: int|
                0 <= k < ds.len() && (forall|j: int|
                    k < j < ds.len() ==> note_key((#[trigger] ds[j]).note_id) != note_key(
                        (#[trigger] ds[k]).note_id,
                    )) ==> raw_of(out, note_key(ds[k].note_id)) == ds[k].after
        }),
{
    let steps = apply_steps(ds);
    let n = ds.len() as int;
    let out = after_steps(files, steps, n);
    if forall|k: int| 0 <= k < ds.len() ==> note_key((#[trigger] ds[k]).note_id) != key {
        assert forall|k: int| 0 <= k < n implies (#[trigger] steps[k]).key != key by {
            assert(note_key(ds[k].note_id) != key);
        }
        lemma_after_steps(files, steps, n, key, None);
    }
    assert forall|k: int|
        0 <= k < ds.len() && (forall|j: int|
            k < j < ds.len() ==> note_key((#[trigger] ds[j]).note_id) != note_key(
                (#[trigger] ds[k]).note_id,
            )) implies raw_of(out, note_key(ds[k].note_id)) == ds[k].after by {
        assert forall|j: int| k < j < n implies (#[trigger] steps[j]).key != steps[k].key by {
            assert(note_key(ds[j].note_id) != note_key(ds[k].note_id));
        }
        lemma_last_step_stands(files, steps, n, k);
    }
}

/// A raw operation lands as it is: the file of the note then holds that text to
/// the last character, or is gone, and no other file is touched.
pub proof fn law_raw_lands_as_it_is(
    note_id: Seq<char>,
    raw: Option<Seq<char>>,
    files: Map<Seq<char>, Seq<char>>,
    id: Seq<char>,
)
    ensures
        ({
            let ops = seq![OpView::SetRaw { note_id, raw }];
            &&& diff_of(ops, files) is Ok
            &&& raw_of(after_steps(files, apply_steps(diff_of(ops, files)->Ok_0), 1), id) == if id
                == note_key(note_id) {
                raw
            } else {
                raw_of(files, id)
            }
        }),
{
    let ops = seq![OpView::SetRaw { note_id, raw }];
    let ds = diff_of(ops, files)->Ok_0;
    assert(diffs_from(ops, files, 1) == Ok::<Seq<DiffView>, ErrorView>(seq![]));
    let steps = apply_steps(ds);
    assert(steps[0] == (StepView { key: note_key(note_id), raw }));
    lemma_after_steps(files, steps, 1, id, raw);
}

proof fn lemma_last_step_stands(
    files: Map<Seq<char>, Seq<char>>,
    steps: Seq<StepView>,
    n: int,
    k: int,
)
    requires
        0 <= k < n <= steps.len(),
        forall|j: int| k < j < n ==> (#[trigger] steps[j]).key != steps[k].key,
    ensures
        raw_of(after_steps(files, steps, n), steps[k].key) == steps[k].raw,
    decreases n,
{
    if n - 1 > k {
        lemma_last_step_stands(files, steps, n - 1, k);
        assert(steps[n - 1].key != steps[k].key);
    }
}

// ---------------------------------------------------------------------------
// The identity of a changeset
// ---------------------------------------------------------------------------

/// The JSON text of a string, as `serde_json::to_string` writes it: quoted,
/// with escapes.
pub uninterp spec fn json_quoted(s: Seq<char>) -> Seq<char>;

/// `serde_json::to_string` of a string.
#[verifier::external_body]
pub(crate) fn json_quote(s: &str) -> (r: String)
    ensures
        r@ == json_quoted(s@),
{
    serde_json::to_string(s).unwrap_or_default()
}

/// The optional last part of an operation's JSON: a frontmatter.
pub open spec fn frontmatter_part(fm: Option<YamlView>) -> Result<Seq<char>, Seq<char>> {
    match fm {
        Some(y) => match yaml_as_json_text(y) {
            Ok(t) => Ok(",\"frontmatter\":"@ + t),
            Err(e) => Err(e),
        },
        None => Ok(seq![]),
    }
}

/// The JSON text of an operation, or the message of why there is none.
pub open spec fn op_json(op: OpView) -> Result<Seq<char>, Seq<char>> {
    match op {
        OpView::Create { note_id, content, frontmatter } => match frontmatter_part(frontmatter) {
            Ok(part) => Ok(
                "{\"op\":\"create\",\"note_id\":"@ + json_quoted(note_id) + ",\"content\":"@
                    + json_quoted(content) + part + "}"@,
            ),
            Err(e) => Err(e),
        },
        OpView::Update { note_id, content, frontmatter } => match frontmatter_part(frontmatter) {
            Ok(part) => Ok(
                "{\"op\":\"update\",\"note_id\":"@ + json_quoted(note_id) + (match content {
                    Some(c) => ",\"content\":"@ + json_quoted(c),
                    None => seq![],
                }) + part + "}"@,
            ),
            Err(e) => Err(e),
        },
        OpView::Delete { note_id } => Ok(
            "{\"op\":\"delete\",\"note_id\":"@ + json_quoted(note_id) + "}"@,
        ),
        OpView::SetRaw { note_id, raw } => Ok(
            "{\"op\":\"setraw\",\"note_id\":"@ + json_quoted(note_id) + ",\"raw\":"@ + (match raw {
                Some(r) => json_quoted(r),
                None => "null"@,
            }) + "}"@,
        ),
    }
}

/// The JSON texts of the operations from `i` on, or the first message.
pub open spec fn ops_json_from(ops: Seq<OpView>, i: int) -> Result<Seq<Seq<char>>, Seq<char>>
    decreases ops.len() - i,
{
    if i < 0 || i >= ops.len() {
        Ok(seq![])
    } else {
        match op_json(ops[i]) {
            Err(e) => Err(e),
            Ok(t) => ahead(seq![t], ops_json_from(ops, i + 1)),
        }
    }
}

/// Texts put ahead of others, where those came about.
pub open spec fn ahead(ts: Seq<Seq<char>>, r: Result<Seq<Seq<char>>, Seq<char>>) -> Result<
    Seq<Seq<char>>,
    Seq<char>,
> {
    match r {
        Ok(more) => Ok(ts + more),
        Err(e) => Err(e),
    }
}

/// The JSON text of a changeset: what it is identified by.
pub open spec fn changeset_json(ops: Seq<OpView>) -> Result<Seq<char>, Seq<char>> {
    match ops_json_from(ops, 0) {
        Ok(ts) => Ok("{\"ops\":["@ + join(ts, ","@) + "]}"@),
        Err(e) => Err(e),
    }
}

/// The id of a changeset, or why it has none.
pub open spec fn change_id_of(ops: Seq<OpView>) -> Result<Seq<char>, ErrorView> {
    match changeset_json(ops) {
        Ok(seed) => Ok(id_text(seed, "chg"@)),
        Err(m) => Err(error("INTERNAL"@, m, "This is a bug; please report it."@)),
    }
}

fn render_op(op: &ChangeOp) -> (r: Result<String, String>)
    ensures
        match r {
            Ok(s) => op_json(op@) == Ok::<Seq<char>, Seq<char>>(s@),
            Err(e) => op_json(op@) == Err::<Seq<char>, Seq<char>>(e@),
        },
{
    match op {
        ChangeOp::Create { note_id, content, frontmatter } => {
            let part = match render_frontmatter(frontmatter) {
                Ok(p) => p,
                Err(e) => {
                    return Err(e);
                },
            };
            let mut s = "{\"op\":\"create\",\"note_id\":".to_owned();
            s.append(json_quote(note_id.as_str()).as_str());
            s.append(",\"content\":");
            s.append(json_quote(content.as_str()).as_str());
            s.append(part.as_str());
            s.append("}");
            Ok(s)
        },
        ChangeOp::Update { note_id, content, frontmatter } => {
            let part = match render_frontmatter(frontmatter) {
                Ok(p) => p,
                Err(e) => {
                    return Err(e);
                },
            };
            let mut s = "{\"op\":\"update\",\"note_id\":".to_owned();
            s.append(json_quote(note_id.as_str()).as_str());
            let ghost head = s@;
            match content {
                Some(c) => {
                    s.append(",\"content\":");
                    s.append(json_quote(c.as_str()).as_str());
                    assert(s@ =~= head + (",\"content\":"@ + json_quoted(c@)));
                },
                None => {
                    assert(s@ =~= head + seq![]);
                },
            }
            s.append(part.as_str());
            s.append("}");
            Ok(s)
        },
        ChangeOp::Delete { note_id } => {
            let mut s = "{\"op\":\"delete\",\"note_id\":".to_owned();
            s.append(json_quote(note_id.as_str()).as_str());
            s.append("}");
            Ok(s)
        },
        ChangeOp::SetRaw { note_id, raw } => {
            let mut s = "{\"op\":\"setraw\",\"note_id\":".to_owned();
            s.append(json_quote(note_id.as_str()).as_str());
            s.append(",\"raw\":");
            match raw {
                Some(t) => s.append(json_quote(t.as_str()).as_str()),
                None => s.append("null"),
            }
            s.append("}");
            Ok(s)
        },
    }
}

fn render_frontmatter(fm: &Option<Yaml>) -> (r: Result<String, String>)
    ensures
        match r {
            Ok(s) => frontmatter_part(opt_yaml(*fm)) == Ok::<Seq<char>, Seq<char>>(s@),
            Err(e) => frontmatter_part(opt_yaml(*fm)) == Err::<Seq<char>, Seq<char>>(e@),
        },
{
    match fm {
        Some(y) => match render_yaml_json(y) {
            Ok(t) => {
                let mut s = ",\"frontmatter\":".to_owned();
                s.append(t.as_str());
                Ok(s)
            },
            Err(e) => Err(e),
        },
        None => Ok(String::new()),
    }
}

/// The id of a changeset: the same changeset has the same id.
pub fn change_id(changeset: &Changeset) -> (r: Result<String, TacitusError>)
    ensures
        match r {
            Ok(s) => change_id_of(changeset@) == Ok::<Seq<char>, ErrorView>(s@),
            Err(e) => change_id_of(changeset@) == Err::<Seq<char>, ErrorView>(e@),
        },
{
    let ghost ops = changeset@;
    let mut parts: Vec<String> = Vec::new();
    let mut i: usize = 0;
    assert(texts(parts@) =~= seq![]);
    proof {
        match ops_json_from(ops, 0) {
            Ok(ts) => {
                assert(seq![] + ts =~= ts);
            },
            Err(_) => {},
        }
    }
    while i < changeset.ops.len()
        invariant
            i <= changeset.ops@.len(),
            ops == ops_view(changeset.ops@),
            ops == changeset@,
            ops_json_from(ops, 0) == ahead(texts(parts@), ops_json_from(ops, i as int)),
        decreases changeset.ops@.len() - i,
    {
        assert(ops[i as int] == changeset.ops@[i as int]@);
        match render_op(&changeset.ops[i]) {
            Ok(t) => {
                let ghost prev = texts(parts@);
                let ghost tv = t@;
                parts.push(t);
                assert(texts(parts@) =~= prev.push(tv));
                proof {
                    match ops_json_from(ops, i + 1) {
                        Ok(more) => {
                            assert(prev + (seq![tv] + more) =~= texts(parts@) + more);
                        },
                        Err(_) => {},
                    }
                }
            },
            Err(m) => {
                return Err(
                    TacitusError::new("INTERNAL", m.as_str(), "This is a bug; please report it."),
                );
            },
        }
        i = i + 1;
    }
    assert(texts(parts@) + seq![] =~= texts(parts@));
    let mut seed = "{\"ops\":[".to_owned();
    seed.append(join_strings(&parts, ",").as_str());
    seed.append("]}");
    Ok(stable_id(seed.as_str(), "chg"))
}

/// A raw operation always has an id.
pub proof fn lemma_raw_id(note_id: Seq<char>, raw: Option<Seq<char>>)
    ensures
        change_id_of(seq![OpView::SetRaw { note_id, raw }]) is Ok,
{
    let ops = seq![OpView::SetRaw { note_id, raw }];
    assert(ops_json_from(ops, 1) is Ok);
    assert(ops_json_from(ops, 0) is Ok);
}

} // verus!

//! The notes of a vault and their link graph.
use crate::order::{
    ascends, before, has_position, lemma_ascends_front, lemma_before_asym, lemma_before_total,
    lemma_before_trans, positions, str_before,
};
use crate::paths::{base_name, base_of, markdown_name, is_markdown_name};
use crate::text::{lower, lowercase, replace_all, replace_str, str_eq};
use crate::vault::parse::{lemma_links_have_text, parse_note, parsed};
use crate::vault::types::{notes_view, LinkView, Note, NoteView, WikiLink};
use vstd::prelude::*;
use vstd::string::*;

verus! {

/// The ids of the notes ascend, so each occurs once.
pub open spec fn ids_ascend(s: Seq<NoteView>) -> bool {
    forall|i: int, j: int|
        0 <= i < j < s.len() ==> before((#[trigger] s[i]).id, (#[trigger] s[j]).id)
}

/// The headings of a note have levels from one on, and its links have a text.
pub open spec fn is_sound(n: NoteView) -> bool {
    &&& forall|k: int| 0 <= k < n.headings.len() ==> (#[trigger] n.headings[k]).level >= 1
    &&& forall|k: int| 0 <= k < n.links.len() ==> (#[trigger] n.links[k]).raw.len() > 0
}

/// The position from `i` on of the note with the given id.
pub open spec fn find_from(s: Seq<NoteView>, id: Seq<char>, i: int) -> Option<int>
    decreases s.len() - i,
{
    if i < 0 || i >= s.len() {
        None
    } else if s[i].id == id {
        Some(i)
    } else {
        find_from(s, id, i + 1)
    }
}

/// The position of the note with the given id.
pub open spec fn find(s: Seq<NoteView>, id: Seq<char>) -> Option<int> {
    find_from(s, id, 0)
}

/// The note with the given id.
pub open spec fn note_at(s: Seq<NoteView>, id: Seq<char>) -> Option<NoteView> {
    match find(s, id) {
        Some(i) => Some(s[i]),
        None => None,
    }
}

pub proof fn lemma_find_from(s: Seq<NoteView>, id: Seq<char>, i: int)
    requires
        0 <= i,
    ensures
        match find_from(s, id, i) {
            Some(k) => i <= k < s.len() && s[k].id == id,
            None => forall|k: int| i <= k < s.len() ==> (#[trigger] s[k]).id != id,
        },
    decreases s.len() - i,
{
    if i < s.len() && s[i].id != id {
        lemma_find_from(s, id, i + 1);
    }
}

/// With ascending ids the note at a position is the one found by its id.
pub proof fn lemma_find_is(s: Seq<NoteView>, k: int)
    requires
        ids_ascend(s),
        0 <= k < s.len(),
    ensures
        find(s, s[k].id) == Some(k),
{
    lemma_find_from(s, s[k].id, 0);
    let f = find(s, s[k].id);
    if f is Some && f->0 < k {
        lemma_before_asym(s[f->0].id, s[k].id);
    } else if f is Some && f->0 > k {
        lemma_before_asym(s[k].id, s[f->0].id);
    } else if f is None {
        assert(s[k].id != s[k].id);
    }
}

/// Where a note with the given id belongs: behind those whose ids come before.
pub open spec fn slot_from(s: Seq<NoteView>, id: Seq<char>, i: int) -> int
    decreases s.len() - i,
{
    if 0 <= i < s.len() && before(s[i].id, id) {
        slot_from(s, id, i + 1)
    } else {
        i
    }
}

/// The notes with `n` put in, in place of the one with its id.
pub open spec fn upserted(s: Seq<NoteView>, n: NoteView) -> Seq<NoteView> {
    let p = slot_from(s, n.id, 0);
    if p < s.len() && s[p].id == n.id {
        s.update(p, n)
    } else {
        s.insert(p, n)
    }
}

/// The notes without the one with the given id.
pub open spec fn without(s: Seq<NoteView>, id: Seq<char>) -> Seq<NoteView> {
    match find(s, id) {
        Some(i) => s.remove(i),
        None => s,
    }
}

proof fn lemma_slot_from(s: Seq<NoteView>, id: Seq<char>, i: int)
    requires
        ids_ascend(s),
        0 <= i <= s.len(),
        forall|k: int| 0 <= k < i ==> before((#[trigger] s[k]).id, id),
    ensures
        i <= slot_from(s, id, i) <= s.len(),
        forall|k: int| 0 <= k < slot_from(s, id, i) ==> before((#[trigger] s[k]).id, id),
        forall|k: int|
            slot_from(s, id, i) <= k < s.len() && (#[trigger] s[k]).id != id ==> before(id, s[k].id),
        forall|k: int| slot_from(s, id, i) < k < s.len() ==> before(id, (#[trigger] s[k]).id),
    decreases s.len() - i,
{
    if i < s.len() && before(s[i].id, id) {
        lemma_slot_from(s, id, i + 1);
    } else {
        assert forall|k: int| i <= k < s.len() && (#[trigger] s[k]).id != id implies before(
            id,
            s[k].id,
        ) by {
            if k > i {
                assert(before(s[i].id, s[k].id));
                if before(s[k].id, id) {
                    lemma_before_trans(s[i].id, s[k].id, id);
                }
            }
            if !before(id, s[k].id) {
                lemma_before_total(id, s[k].id);
            }
        }
        assert forall|k: int| i < k < s.len() implies before(id, (#[trigger] s[k]).id) by {
            assert(before(s[i].id, s[k].id));
            if s[i].id != id {
                lemma_before_trans(id, s[i].id, s[k].id);
            }
        }
    }
}

pub proof fn lemma_upserted(s: Seq<NoteView>, n: NoteView)
    requires
        ids_ascend(s),
    ensures
        ids_ascend(upserted(s, n)),
        note_at(upserted(s, n), n.id) == Some(n),
        forall|other: Seq<char>|
            other != n.id ==> #[trigger] note_at(upserted(s, n), other) == note_at(s, other),
        forall|m: NoteView| #[trigger] upserted(s, n).contains(m) ==> m == n || s.contains(m),
{
    let p = slot_from(s, n.id, 0);
    lemma_slot_from(s, n.id, 0);
    let t = upserted(s, n);
    let hit = p < s.len() && s[p].id == n.id;
    assert forall|i: int, j: int| 0 <= i < j < t.len() implies before(
        (#[trigger] t[i]).id,
        (#[trigger] t[j]).id,
    ) by {
        let oi = if i < p || hit { i } else { i - 1 };
        let oj = if j < p || hit { j } else { j - 1 };
        if i == p {
            assert(t[i] == n);
            assert(t[j] == s[oj]);
        } else if j == p {
            assert(t[j] == n);
            assert(t[i] == s[oi]);
        } else {
            assert(t[i] == s[oi] && t[j] == s[oj]);
        }
    }
    assert(t[p] == n);
    lemma_find_is(t, p);
    assert forall|other: Seq<char>| other != n.id implies #[trigger] note_at(t, other) == note_at(
        s,
        other,
    ) by {
        lemma_find_from(s, other, 0);
        lemma_find_from(t, other, 0);
        match find(s, other) {
            Some(k) => {
                let tk = if k < p || hit { k } else { k + 1 };
                assert(t[tk] == s[k]);
                lemma_find_is(t, tk);
            },
            None => {
                match find(t, other) {
                    Some(k) => {
                        let sk = if k < p || hit { k } else { k - 1 };
                        if k != p {
                            assert(t[k] == s[sk]);
                            assert(s[sk].id != other);
                        }
                    },
                    None => {},
                }
            },
        }
    }
    assert forall|m: NoteView| #[trigger] t.contains(m) implies m == n || s.contains(m) by {
        let k = choose|k: int| 0 <= k < t.len() && t[k] == m;
        if k != p {
            let sk = if k < p || hit { k } else { k - 1 };
            assert(t[k] == s[sk]);
        }
    }
}

pub proof fn lemma_without(s: Seq<NoteView>, id: Seq<char>)
    requires
        ids_ascend(s),
    ensures
        ids_ascend(without(s, id)),
        note_at(without(s, id), id) is None,
        forall|other: Seq<char>|
            other != id ==> #[trigger] note_at(without(s, id), other) == note_at(s, other),
        forall|m: NoteView| #[trigger] without(s, id).contains(m) ==> s.contains(m),
{
    lemma_find_from(s, id, 0);
    let t = without(s, id);
    match find(s, id) {
        Some(p) => {
            assert forall|i: int, j: int| 0 <= i < j < t.len() implies before(
                (#[trigger] t[i]).id,
                (#[trigger] t[j]).id,
            ) by {
                let oi = if i < p { i } else { i + 1 };
                let oj = if j < p { j } else { j + 1 };
                assert(t[i] == s[oi] && t[j] == s[oj]);
            }
            lemma_find_from(t, id, 0);
            match find(t, id) {
                Some(k) => {
                    let sk = if k < p { k } else { k + 1 };
                    assert(t[k] == s[sk]);
                    lemma_find_is(s, sk);
                },
                None => {},
            }
            assert forall|other: Seq<char>| other != id implies #[trigger] note_at(t, other)
                == note_at(s, other) by {
                lemma_find_from(s, other, 0);
                lemma_find_from(t, other, 0);
                match find(s, other) {
                    Some(k) => {
                        let tk = if k < p { k } else { k - 1 };
                        assert(t[tk] == s[k]);
                        lemma_find_is(t, tk);
                    },
                    None => {
                        match find(t, other) {
                            Some(k) => {
                                let sk = if k < p { k } else { k + 1 };
                                assert(t[k] == s[sk]);
                            },
                            None => {},
                        }
                    },
                }
            }
            assert forall|m: NoteView| #[trigger] t.contains(m) implies s.contains(m) by {
                let k = choose|k: int| 0 <= k < t.len() && t[k] == m;
                let sk = if k < p { k } else { k + 1 };
                assert(t[k] == s[sk]);
            }
        },
        None => {},
    }
}

/// An index reads back what was put in: the new note under its id, every
/// other note as it was, and nothing under an id that was removed.
pub proof fn law_index_reads_back(s: Seq<NoteView>, n: NoteView, id: Seq<char>)
    requires
        ids_ascend(s),
    ensures
        note_at(upserted(s, n), n.id) == Some(n),
        id != n.id ==> note_at(upserted(s, n), id) == note_at(s, id),
        note_at(without(s, n.id), n.id) is None,
        id != n.id ==> note_at(without(s, n.id), id) == note_at(s, id),
        ids_ascend(upserted(s, n)),
        ids_ascend(without(s, n.id)),
{
    lemma_upserted(s, n);
    lemma_without(s, n.id);
}

// ---------------------------------------------------------------------------
// Links
// ---------------------------------------------------------------------------

/// The position from `i` on of the note whose name, whatever its case, is
/// `wanted`.
pub open spec fn named_from(s: Seq<NoteView>, wanted: Seq<char>, i: int) -> Option<int>
    decreases s.len() - i,
{
    if i < 0 || i >= s.len() {
        None
    } else if lowercase(base_name(s[i].id)) == wanted {
        Some(i)
    } else {
        named_from(s, wanted, i + 1)
    }
}

/// The position of the note that a link target means: the one with that id,
/// else the first in the order of ids whose name is the target, whatever the
/// case.
pub open spec fn resolved(s: Seq<NoteView>, target: Seq<char>) -> Option<int> {
    match find(s, target) {
        Some(i) => Some(i),
        None => named_from(s, lowercase(target), 0),
    }
}

pub proof fn lemma_named_from(s: Seq<NoteView>, wanted: Seq<char>, i: int)
    requires
        0 <= i,
    ensures
        named_from(s, wanted, i) matches Some(k) ==> i <= k < s.len(),
    decreases s.len() - i,
{
    if i < s.len() {
        lemma_named_from(s, wanted, i + 1);
    }
}

pub proof fn lemma_resolved(s: Seq<NoteView>, target: Seq<char>)
    ensures
        resolved(s, target) matches Some(k) ==> 0 <= k < s.len(),
{
    lemma_find_from(s, target, 0);
    lemma_named_from(s, lowercase(target), 0);
}

/// The notes that the links from `k` on lead to, other than the one with the
/// id `from`, added to `acc` where they are not in it.
pub open spec fn targets_from(
    s: Seq<NoteView>,
    links: Seq<LinkView>,
    from: Seq<char>,
    acc: Seq<int>,
    k: int,
) -> Seq<int>
    decreases links.len() - k,
{
    if k < 0 || k >= links.len() {
        acc
    } else {
        match resolved(s, links[k].target) {
            Some(p) => if s[p].id != from && !acc.contains(p) {
                targets_from(s, links, from, acc.push(p), k + 1)
            } else {
                targets_from(s, links, from, acc, k + 1)
            },
            None => targets_from(s, links, from, acc, k + 1),
        }
    }
}

/// The positions of the notes that the note `id` links to, in link order, each
/// once and never itself.
pub open spec fn outgoing_of(s: Seq<NoteView>, id: Seq<char>) -> Seq<int> {
    match find(s, id) {
        Some(i) => targets_from(s, s[i].links, id, seq![], 0),
        None => seq![],
    }
}

/// A link of `n` leads to the note `id`.
pub open spec fn links_to(s: Seq<NoteView>, n: NoteView, id: Seq<char>) -> bool {
    exists|k: int| 0 <= k < n.links.len() && #[trigger] leads_to(s, n.links[k].target, id)
}

/// A link target means the note `id`.
pub open spec fn leads_to(s: Seq<NoteView>, target: Seq<char>, id: Seq<char>) -> bool {
    match resolved(s, target) {
        Some(p) => s[p].id == id,
        None => false,
    }
}

/// The positions from `i` on of other notes that link to the note `id`.
pub open spec fn linkers_from(s: Seq<NoteView>, id: Seq<char>, i: int) -> Seq<int>
    decreases s.len() - i,
{
    if i < 0 || i >= s.len() {
        seq![]
    } else if s[i].id != id && links_to(s, s[i], id) {
        seq![i] + linkers_from(s, id, i + 1)
    } else {
        linkers_from(s, id, i + 1)
    }
}

/// The positions of the notes that link to the note `id`, in the order of ids.
pub open spec fn backlinks_of(s: Seq<NoteView>, id: Seq<char>) -> Seq<int> {
    match find(s, id) {
        Some(_) => linkers_from(s, id, 0),
        None => seq![],
    }
}

/// Borrowed notes stand for the positions `at`.
pub open spec fn stand_for(r: Seq<&Note>, s: Seq<NoteView>, at: Seq<int>) -> bool {
    &&& r.len() == at.len()
    &&& forall|k: int|
        0 <= k < r.len() ==> 0 <= #[trigger] at[k] < s.len() && r[k]@ == s[at[k]]
}

/// An in-memory snapshot of a vault's notes plus its wikilink graph. The notes
/// stand in the order of their ids, each id once.
pub struct VaultIndex {
    notes: Vec<Note>,
}

impl View for VaultIndex {
    type V = Seq<NoteView>;

    closed spec fn view(&self) -> Seq<NoteView> {
        notes_view(self.notes@)
    }
}

/// Whether the walk of a vault enters a directory of the given name: all but
/// the one where the vault keeps its own records.
pub fn walks_into(dir_name: &str) -> (r: bool)
    ensures
        r == (dir_name@ != ".tacitus"@),
{
    !str_eq(dir_name, ".tacitus")
}

/// Whether a file of the given name is a note.
pub fn is_note_file(file_name: &str) -> (r: bool)
    ensures
        r == is_markdown_name(file_name@),
{
    markdown_name(file_name)
}

/// A relative path with `/` between its parts, whatever the system writes.
pub fn unix_path(rel_path: &str) -> (r: String)
    ensures
        r@ == replace_all(rel_path@, "\\"@, "/"@),
{
    proof {
        reveal_strlit("\\");
    }
    replace_str(rel_path, "\\", "/")
}

/// The index of the first `n` files, each given by its path and its text.
pub open spec fn built(files: Seq<(String, String)>, n: int) -> Seq<NoteView>
    decreases n,
{
    if n <= 0 {
        seq![]
    } else {
        upserted(built(files, n - 1), note_in(files[n - 1]))
    }
}

/// The note that a file given by its path and its text holds.
pub open spec fn note_in(file: (String, String)) -> NoteView {
    parsed(file.1@, replace_all(file.0@, "\\"@, "/"@))
}

/// The last of the first `n` files whose note has the given id.
pub open spec fn last_file(files: Seq<(String, String)>, n: int, id: Seq<char>) -> Option<int>
    decreases n,
{
    if n <= 0 {
        None
    } else if note_in(files[n - 1]).id == id {
        Some(n - 1)
    } else {
        last_file(files, n - 1, id)
    }
}

/// An index is what the files say: under each id stands the note of the last
/// file with that id, and nothing under an id that no file has.
pub proof fn law_built_index_reads_the_files(files: Seq<(String, String)>, n: int, id: Seq<char>)
    requires
        0 <= n <= files.len(),
    ensures
        ids_ascend(built(files, n)),
        note_at(built(files, n), id) == match last_file(files, n, id) {
            Some(k) => Some(note_in(files[k])),
            None => None,
        },
    decreases n,
{
    if n > 0 {
        law_built_index_reads_the_files(files, n - 1, id);
        law_index_reads_back(built(files, n - 1), note_in(files[n - 1]), id);
    }
}

impl VaultIndex {
    #[verifier::type_invariant]
    spec fn well_formed(self) -> bool {
        &&& ids_ascend(notes_view(self.notes@))
        &&& forall|k: int|
            0 <= k < self.notes@.len() ==> is_sound(#[trigger] notes_view(self.notes@)[k])
    }

    /// The index of a vault without notes.
    pub fn new() -> (r: Self)
        ensures
            r@ == Seq::<NoteView>::empty(),
    {
        let notes: Vec<Note> = Vec::new();
        assert(notes_view(notes@) =~= seq![]);
        VaultIndex { notes }
    }

    /// The index of the notes that were found, each with its path below the
    /// vault and its text. Of two with the same id the later one counts.
    pub fn build(files: &Vec<(String, String)>) -> (r: Self)
        ensures
            r@ == built(files@, files@.len() as int),
    {
        let mut index = VaultIndex::new();
        let mut i: usize = 0;
        while i < files.len()
            invariant
                i <= files@.len(),
                index@ == built(files@, i as int),
            decreases files@.len() - i,
        {
            let path = unix_path(files[i].0.as_str());
            index.upsert_raw(path.as_str(), files[i].1.as_str());
            i = i + 1;
        }
        index
    }

    /// All notes, in the order of their ids.
    pub fn all(&self) -> (r: Vec<&Note>)
        ensures
            r@.len() == self@.len(),
            forall|k: int| 0 <= k < r@.len() ==> (#[trigger] r@[k])@ == self@[k],
            ids_ascend(self@),
            forall|k: int| 0 <= k < self@.len() ==> is_sound(#[trigger] self@[k]),
    {
        proof {
            use_type_invariant(self);
        }
        let mut out: Vec<&Note> = Vec::new();
        let mut i: usize = 0;
        while i < self.notes.len()
            invariant
                i <= self.notes@.len(),
                out@.len() == i,
                forall|k: int| 0 <= k < i ==> (#[trigger] out@[k])@ == self@[k],
            decreases self.notes@.len() - i,
        {
            out.push(&self.notes[i]);
            i = i + 1;
        }
        out
    }

    /// The position of the note with the given id.
    pub(crate) fn position(&self, id: &str) -> (r: Option<usize>)
        ensures
            match r {
                Some(i) => find(self@, id@) == Some(i as int) && i < self@.len(),
                None => find(self@, id@) is None,
            },
    {
        let mut i: usize = 0;
        while i < self.notes.len()
            invariant
                i <= self.notes@.len(),
                find(self@, id@) == find_from(self@, id@, i as int),
            decreases self.notes@.len() - i,
        {
            assert(self@[i as int] == self.notes@[i as int]@);
            if str_eq(self.notes[i].id.as_str(), id) {
                return Some(i);
            }
            i = i + 1;
        }
        None
    }

    /// The note with the given id.
    pub fn get(&self, id: &str) -> (r: Option<&Note>)
        ensures
            match r {
                Some(n) => note_at(self@, id@) == Some(n@) && is_sound(n@) && n@.id == id@,
                None => note_at(self@, id@) is None,
            },
    {
        proof {
            use_type_invariant(self);
            lemma_find_from(self@, id@, 0);
        }
        match self.position(id) {
            Some(i) => {
                assert(self@[i as int] == self.notes@[i as int]@);
                Some(&self.notes[i])
            },
            None => None,
        }
    }

    fn upsert(&mut self, note: Note)
        requires
            is_sound(note@),
        ensures
            final(self)@ == upserted(old(self)@, note@),
    {
        proof {
            use_type_invariant(&*self);
        }
        let ghost s = self@;
        let ghost n = note@;
        let mut notes: Vec<Note> = Vec::new();
        std::mem::swap(&mut notes, &mut self.notes);
        let mut p: usize = 0;
        while p < notes.len() && str_before(notes[p].id.as_str(), note.id.as_str())
            invariant
                p <= notes@.len(),
                notes_view(notes@) == s,
                n == note@,
                slot_from(s, n.id, 0) == slot_from(s, n.id, p as int),
            decreases notes@.len() - p,
        {
            assert(s[p as int] == notes@[p as int]@);
            p = p + 1;
        }
        proof {
            if p < notes@.len() {
                assert(s[p as int] == notes@[p as int]@);
            }
            lemma_upserted(s, n);
        }
        if p < notes.len() && str_eq(notes[p].id.as_str(), note.id.as_str()) {
            notes.set(p, note);
            assert(notes_view(notes@) =~= s.update(p as int, n));
        } else {
            notes.insert(p, note);
            assert(notes_view(notes@) =~= s.insert(p as int, n));
        }
        proof {
            assert forall|k: int| 0 <= k < notes@.len() implies is_sound(
                #[trigger] notes_view(notes@)[k],
            ) by {
                let m = notes_view(notes@)[k];
                assert(upserted(s, n).contains(m));
                if m != n {
                    let j = choose|j: int| 0 <= j < s.len() && s[j] == m;
                    assert(is_sound(s[j]));
                }
            }
        }
        self.notes = notes;
    }

    /// Reflects a written note into the index.
    pub fn upsert_raw(&mut self, rel_path: &str, raw: &str)
        ensures
            final(self)@ == upserted(old(self)@, parsed(raw@, rel_path@)),
    {
        let note = parse_note(raw, rel_path);
        assert(is_sound(note@)) by {
            assert forall|k: int| 0 <= k < note@.headings.len() implies (
            #[trigger] note@.headings[k]).level >= 1 by {
                assert(note.headings@[k].level >= 1);
            }
            lemma_links_have_text(note@.content, 0);
        }
        self.upsert(note);
    }

    /// Takes the note with the given id out.
    pub fn remove_note(&mut self, id: &str)
        ensures
            final(self)@ == without(old(self)@, id@),
    {
        proof {
            use_type_invariant(&*self);
            lemma_without(self@, id@);
        }
        let ghost s = self@;
        match self.position(id) {
            Some(i) => {
                let mut notes: Vec<Note> = Vec::new();
                std::mem::swap(&mut notes, &mut self.notes);
                let _ = notes.remove(i);
                proof {
                    assert(notes_view(notes@) =~= s.remove(i as int));
                    assert forall|k: int| 0 <= k < notes@.len() implies is_sound(
                        #[trigger] notes_view(notes@)[k],
                    ) by {
                        let m = notes_view(notes@)[k];
                        assert(without(s, id@).contains(m));
                        let j = choose|j: int| 0 <= j < s.len() && s[j] == m;
                        assert(is_sound(s[j]));
                    }
                }
                self.notes = notes;
            },
            None => {},
        }
    }

    fn resolve_position(&self, target: &str) -> (r: Option<usize>)
        ensures
            match r {
                Some(i) => resolved(self@, target@) == Some(i as int) && i < self.notes@.len(),
                None => resolved(self@, target@) is None,
            },
    {
        match self.position(target) {
            Some(i) => {
                return Some(i);
            },
            None => {},
        }
        let wanted = lower(target);
        let mut i: usize = 0;
        while i < self.notes.len()
            invariant
                i <= self.notes@.len(),
                wanted@ == lowercase(target@),
                named_from(self@, wanted@, 0) == named_from(self@, wanted@, i as int),
                find(self@, target@) is None,
            decreases self.notes@.len() - i,
        {
            assert(self@[i as int] == self.notes@[i as int]@);
            let name = base_of(self.notes[i].id.as_str());
            let low = lower(name.as_str());
            if str_eq(low.as_str(), wanted.as_str()) {
                return Some(i);
            }
            i = i + 1;
        }
        None
    }

    /// The note that a link target means: exact id first, then the last part
    /// of the id, whatever its case.
    pub fn resolve(&self, target: &str) -> (r: Option<&Note>)
        ensures
            match r {
                Some(n) => resolved(self@, target@) matches Some(p) && 0 <= p < self@.len() && n@
                    == self@[p],
                None => resolved(self@, target@) is None,
            },
    {
        match self.resolve_position(target) {
            Some(i) => {
                assert(self@[i as int] == self.notes@[i as int]@);
                Some(&self.notes[i])
            },
            None => None,
        }
    }

    /// How many notes there are.
    pub fn len(&self) -> (n: usize)
        ensures
            n == self@.len(),
    {
        self.notes.len()
    }

    /// The note at a position.
    pub(crate) fn at(&self, i: usize) -> (r: &Note)
        requires
            i < self@.len(),
        ensures
            r@ == self@[i as int],
            is_sound(r@),
    {
        proof {
            use_type_invariant(self);
            assert(self@[i as int] == self.notes@[i as int]@);
        }
        &self.notes[i]
    }

    /// The positions of the notes that the note `id` links to.
    pub(crate) fn outgoing_positions(&self, id: &str) -> (r: Vec<usize>)
        ensures
            positions(r@) == outgoing_of(self@, id@),
            forall|k: int| 0 <= k < r@.len() ==> #[trigger] r@[k] < self@.len(),
    {
        let mut seen: Vec<usize> = Vec::new();
        let ghost s = self@;
        assert(positions(seen@) =~= seq![]);
        match self.position(id) {
            None => {},
            Some(at) => {
                let links: &Vec<WikiLink> = &self.notes[at].links;
                let ghost ls = s[at as int].links;
                assert(ls == self.notes@[at as int]@.links);
                let mut k: usize = 0;
                while k < links.len()
                    invariant
                        k <= links@.len(),
                        s == self@,
                        find(s, id@) == Some(at as int),
                        ls == s[at as int].links,
                        links@.len() == ls.len(),
                        forall|j: int| 0 <= j < links@.len() ==> (#[trigger] links@[j])@ == ls[j],
                        forall|j: int| 0 <= j < seen@.len() ==> #[trigger] seen@[j] < s.len(),
                        outgoing_of(s, id@) == targets_from(
                            s,
                            ls,
                            id@,
                            positions(seen@),
                            k as int,
                        ),
                    decreases links@.len() - k,
                {
                    match self.resolve_position(links[k].target.as_str()) {
                        Some(p) => {
                            assert(s[p as int] == self.notes@[p as int]@);
                            if !str_eq(self.notes[p].id.as_str(), id) && !has_position(&seen, p) {
                                let ghost prev = positions(seen@);
                                seen.push(p);
                                assert(positions(seen@) =~= prev.push(p as int));
                            }
                        },
                        None => {},
                    }
                    k = k + 1;
                }
            },
        }
        seen
    }

    /// The notes at some positions.
    fn notes_at(&self, at: &Vec<usize>) -> (r: Vec<&Note>)
        requires
            forall|k: int| 0 <= k < at@.len() ==> #[trigger] at@[k] < self@.len(),
        ensures
            stand_for(r@, self@, positions(at@)),
    {
        let mut out: Vec<&Note> = Vec::new();
        let mut k: usize = 0;
        while k < at.len()
            invariant
                k <= at@.len(),
                out@.len() == k,
                forall|j: int| 0 <= j < at@.len() ==> #[trigger] at@[j] < self@.len(),
                forall|j: int| 0 <= j < k ==> (#[trigger] out@[j])@ == self@[at@[j] as int],
            decreases at@.len() - k,
        {
            out.push(self.at(at[k]));
            k = k + 1;
        }
        assert forall|j: int| 0 <= j < out@.len() implies 0 <= #[trigger] positions(at@)[j]
            < self@.len() && out@[j]@ == self@[positions(at@)[j]] by {
            assert(at@[j] < self@.len());
        }
        out
    }

    /// The notes that the note `id` links to.
    pub fn outgoing(&self, id: &str) -> (r: Vec<&Note>)
        ensures
            stand_for(r@, self@, outgoing_of(self@, id@)),
    {
        let at = self.outgoing_positions(id);
        self.notes_at(&at)
    }

    fn note_links_to(&self, n: &Note, id: &str) -> (r: bool)
        ensures
            r == links_to(self@, n@, id@),
    {
        let ghost s = self@;
        let mut k: usize = 0;
        while k < n.links.len()
            invariant
                k <= n.links@.len(),
                s == self@,
                forall|j: int| 0 <= j < k ==> !#[trigger] leads_to(s, n@.links[j].target, id@),
            decreases n.links@.len() - k,
        {
            assert(n@.links[k as int] == n.links@[k as int]@);
            match self.resolve_position(n.links[k].target.as_str()) {
                Some(p) => {
                    assert(s[p as int] == self.notes@[p as int]@);
                    if str_eq(self.notes[p].id.as_str(), id) {
                        assert(leads_to(s, n@.links[k as int].target, id@));
                        return true;
                    }
                },
                None => {},
            }
            assert(!leads_to(s, n@.links[k as int].target, id@));
            k = k + 1;
        }
        false
    }

    /// The positions of the notes that link to the note `id`.
    pub(crate) fn backlink_positions(&self, id: &str) -> (r: Vec<usize>)
        ensures
            positions(r@) == backlinks_of(self@, id@),
            forall|k: int| 0 <= k < r@.len() ==> #[trigger] r@[k] < self@.len(),
    {
        let mut out: Vec<usize> = Vec::new();
        let ghost s = self@;
        assert(positions(out@) =~= seq![]);
        if self.position(id).is_none() {
            return out;
        }
        let mut i: usize = 0;
        while i < self.notes.len()
            invariant
                i <= self.notes@.len(),
                s == self@,
                find(s, id@) is Some,
                forall|j: int| 0 <= j < out@.len() ==> #[trigger] out@[j] < s.len(),
                linkers_from(s, id@, 0) == positions(out@) + linkers_from(s, id@, i as int),
            decreases self.notes@.len() - i,
        {
            assert(s[i as int] == self.notes@[i as int]@);
            if !str_eq(self.notes[i].id.as_str(), id) && self.note_links_to(&self.notes[i], id) {
                let ghost prev = positions(out@);
                out.push(i);
                assert(positions(out@) =~= prev.push(i as int));
                assert(prev + (seq![i as int] + linkers_from(s, id@, i + 1)) =~= positions(out@)
                    + linkers_from(s, id@, i + 1));
            }
            i = i + 1;
        }
        assert(positions(out@) + linkers_from(s, id@, i as int) =~= positions(out@));
        out
    }

    /// The notes that link to the note `id`.
    pub fn backlinks(&self, id: &str) -> (r: Vec<&Note>)
        ensures
            stand_for(r@, self@, backlinks_of(self@, id@)),
    {
        let at = self.backlink_positions(id);
        self.notes_at(&at)
    }
}

proof fn lemma_targets_contain(
    s: Seq<NoteView>,
    links: Seq<LinkView>,
    from: Seq<char>,
    acc: Seq<int>,
    k: int,
    p: int,
)
    requires
        0 <= k,
    ensures
        targets_from(s, links, from, acc, k).contains(p) <==> acc.contains(p) || (s[p].id != from
            && exists|j: int|
            k <= j < links.len() && resolved(s, (#[trigger] links[j]).target) == Some(p)),
    decreases links.len() - k,
{
    if k < links.len() {
        let next = match resolved(s, links[k].target) {
            Some(q) => if s[q].id != from && !acc.contains(q) {
                acc.push(q)
            } else {
                acc
            },
            None => acc,
        };
        lemma_targets_contain(s, links, from, next, k + 1, p);
        assert(next.contains(p) <==> acc.contains(p) || (resolved(s, links[k].target) == Some(p)
            && s[p].id != from)) by {
            match resolved(s, links[k].target) {
                Some(q) => {
                    if s[q].id != from && !acc.contains(q) {
                        assert(acc.push(q)[acc.len() as int] == q);
                        if acc.contains(p) {
                            let m = choose|m: int| 0 <= m < acc.len() && acc[m] == p;
                            assert(acc.push(q)[m] == p);
                        }
                        if acc.push(q).contains(p) {
                            let m = choose|m: int| 0 <= m < acc.len() + 1 && acc.push(q)[m] == p;
                            if m < acc.len() {
                                assert(acc[m] == p);
                            }
                        }
                    }
                },
                None => {},
            }
        }
    }
}

proof fn lemma_linkers_contain(s: Seq<NoteView>, id: Seq<char>, i: int, p: int)
    requires
        0 <= i,
    ensures
        linkers_from(s, id, i).contains(p) <==> i <= p < s.len() && s[p].id != id && links_to(
            s,
            s[p],
            id,
        ),
    decreases s.len() - i,
{
    if i < s.len() {
        lemma_linkers_contain(s, id, i + 1, p);
        let rest = linkers_from(s, id, i + 1);
        if s[i].id != id && links_to(s, s[i], id) {
            let all = seq![i] + rest;
            assert(all[0] == i);
            if rest.contains(p) {
                let m = choose|m: int| 0 <= m < rest.len() && rest[m] == p;
                assert(all[m + 1] == p);
            }
            if all.contains(p) && p != i {
                let m = choose|m: int| 0 <= m < all.len() && all[m] == p;
                assert(rest[m - 1] == p);
            }
        }
    }
}

/// The graph reads the same from both ends: `b` is among the notes that `a`
/// links to exactly when `a` is among the notes that link to `b`.
pub proof fn law_links_and_backlinks_agree(s: Seq<NoteView>, a: int, b: int)
    requires
        ids_ascend(s),
        0 <= a < s.len(),
        0 <= b < s.len(),
    ensures
        outgoing_of(s, s[a].id).contains(b) <==> backlinks_of(s, s[b].id).contains(a),
{
    lemma_find_is(s, a);
    lemma_find_is(s, b);
    let links = s[a].links;
    lemma_targets_contain(s, links, s[a].id, seq![], 0, b);
    lemma_linkers_contain(s, s[b].id, 0, a);
    assert(links_to(s, s[a], s[b].id) <==> exists|j: int|
        0 <= j < links.len() && resolved(s, (#[trigger] links[j]).target) == Some(b)) by {
        if links_to(s, s[a], s[b].id) {
            let k = choose|k: int| 0 <= k < links.len() && #[trigger] leads_to(
                s,
                links[k].target,
                s[b].id,
            );
            lemma_resolved(s, links[k].target);
            let p = resolved(s, links[k].target)->0;
            lemma_find_is(s, p);
            assert(resolved(s, links[k].target) == Some(b));
        }
        if exists|j: int| 0 <= j < links.len() && resolved(s, (#[trigger] links[j]).target) == Some(b) {
            let j = choose|j: int|
                0 <= j < links.len() && resolved(s, (#[trigger] links[j]).target) == Some(b);
            assert(leads_to(s, links[j].target, s[b].id));
        }
    }
    assert(!Seq::<int>::empty().contains(b));
}

/// The note at `p` is the one that a link target means: it has the target as its
/// id, or no note has and it is the first whose name is the target, whatever the
/// case.
pub open spec fn means(s: Seq<NoteView>, target: Seq<char>, p: int) -> bool {
    &&& 0 <= p < s.len()
    &&& s[p].id == target || {
        &&& forall|k: int| 0 <= k < s.len() ==> (#[trigger] s[k]).id != target
        &&& lowercase(base_name(s[p].id)) == lowercase(target)
        &&& forall|k: int|
            0 <= k < p ==> lowercase(base_name((#[trigger] s[k]).id)) != lowercase(target)
    }
}

/// A link of the note at `a` means the note at `b`.
pub open spec fn points_at(s: Seq<NoteView>, a: int, b: int) -> bool {
    exists|k: int| 0 <= k < s[a].links.len() && means(s, (#[trigger] s[a].links[k]).target, b)
}

proof fn lemma_named_is_first(s: Seq<NoteView>, wanted: Seq<char>, i: int)
    requires
        0 <= i,
    ensures
        match named_from(s, wanted, i) {
            Some(p) => i <= p < s.len() && lowercase(base_name(s[p].id)) == wanted && forall|k: int|
                i <= k < p ==> lowercase(base_name((#[trigger] s[k]).id)) != wanted,
            None => forall|k: int|
                i <= k < s.len() ==> lowercase(base_name((#[trigger] s[k]).id)) != wanted,
        },
    decreases s.len() - i,
{
    if i < s.len() {
        lemma_named_is_first(s, wanted, i + 1);
    }
}

/// A link target resolves to the note that it means, and to none exactly where no
/// note has it as its id or, whatever the case, as its name.
pub proof fn law_a_target_resolves_to_what_it_means(s: Seq<NoteView>, target: Seq<char>, p: int)
    requires
        ids_ascend(s),
    ensures
        resolved(s, target) == Some(p) <==> means(s, target, p),
        resolved(s, target) is None <==> forall|k: int|
            0 <= k < s.len() ==> (#[trigger] s[k]).id != target && lowercase(base_name(s[k].id))
                != lowercase(target),
{
    lemma_find_from(s, target, 0);
    lemma_named_is_first(s, lowercase(target), 0);
    if means(s, target, p) {
        lemma_find_is(s, p);
        if s[p].id != target {
            let q = named_from(s, lowercase(target), 0)->0;
            if q < p {
                assert(lowercase(base_name(s[q].id)) != lowercase(target));
            } else if p < q {
                assert(lowercase(base_name(s[p].id)) != lowercase(target));
            }
        }
    }
}

/// The notes that a note links to are the others that one of its links means, and
/// the notes that link to it are the others with a link that means it.
pub proof fn law_links_lead_to_what_they_mean(s: Seq<NoteView>, a: int, b: int)
    requires
        ids_ascend(s),
        0 <= a < s.len(),
    ensures
        outgoing_of(s, s[a].id).contains(b) <==> 0 <= b < s.len() && a != b && points_at(s, a, b),
        backlinks_of(s, s[a].id).contains(b) <==> 0 <= b < s.len() && a != b && points_at(s, b, a),
{
    lemma_find_is(s, a);
    let links = s[a].links;
    lemma_targets_contain(s, links, s[a].id, seq![], 0, b);
    assert(!Seq::<int>::empty().contains(b));
    if 0 <= b < s.len() {
        lemma_find_is(s, b);
        law_links_and_backlinks_agree(s, a, b);
        law_links_and_backlinks_agree(s, b, a);
        lemma_points_at(s, a, b);
        lemma_points_at(s, b, a);
        lemma_targets_contain(s, s[b].links, s[b].id, seq![], 0, a);
        assert(!Seq::<int>::empty().contains(a));
    } else {
        if exists|j: int| 0 <= j < links.len() && resolved(s, (#[trigger] links[j]).target) == Some(b) {
            let j = choose|j: int|
                0 <= j < links.len() && resolved(s, (#[trigger] links[j]).target) == Some(b);
            lemma_resolved(s, links[j].target);
        }
        lemma_linkers_contain(s, s[a].id, 0, b);
    }
}

proof fn lemma_points_at(s: Seq<NoteView>, a: int, b: int)
    requires
        ids_ascend(s),
    ensures
        points_at(s, a, b) <==> exists|j: int|
            0 <= j < s[a].links.len() && resolved(s, (#[trigger] s[a].links[j]).target) == Some(b),
{
    if points_at(s, a, b) {
        let k = choose|k: int|
            0 <= k < s[a].links.len() && means(s, (#[trigger] s[a].links[k]).target, b);
        law_a_target_resolves_to_what_it_means(s, s[a].links[k].target, b);
    }
    if exists|j: int|
        0 <= j < s[a].links.len() && resolved(s, (#[trigger] s[a].links[j]).target) == Some(b) {
        let j = choose|j: int|
            0 <= j < s[a].links.len() && resolved(s, (#[trigger] s[a].links[j]).target) == Some(b);
        law_a_target_resolves_to_what_it_means(s, s[a].links[j].target, b);
    }
}

proof fn lemma_targets_order(
    s: Seq<NoteView>,
    links: Seq<LinkView>,
    from: Seq<char>,
    acc: Seq<int>,
    k: int,
)
    requires
        0 <= k,
        acc.no_duplicates(),
    ensures
        targets_from(s, links, from, acc, k).no_duplicates(),
        targets_from(s, links, from, acc, k).len() >= acc.len(),
        targets_from(s, links, from, acc, k).take(acc.len() as int) == acc,
    decreases links.len() - k,
{
    let all = targets_from(s, links, from, acc, k);
    if k < links.len() {
        match resolved(s, links[k].target) {
            Some(q) => {
                if s[q].id != from && !acc.contains(q) {
                    let next = acc.push(q);
                    assert(next.no_duplicates());
                    lemma_targets_order(s, links, from, next, k + 1);
                    assert(next.take(acc.len() as int) =~= acc);
                    assert(all.take(acc.len() as int) =~= all.take(next.len() as int).take(
                        acc.len() as int,
                    ));
                } else {
                    lemma_targets_order(s, links, from, acc, k + 1);
                }
            },
            None => {
                lemma_targets_order(s, links, from, acc, k + 1);
            },
        }
    } else {
        assert(acc.take(acc.len() as int) =~= acc);
    }
}

proof fn lemma_targets_split(
    s: Seq<NoteView>,
    links: Seq<LinkView>,
    from: Seq<char>,
    acc: Seq<int>,
    i: int,
    k: int,
)
    requires
        0 <= i <= k <= links.len(),
    ensures
        targets_from(s, links, from, acc, i) == targets_from(
            s,
            links,
            from,
            targets_from(s, links.take(k), from, acc, i),
            k,
        ),
    decreases k - i,
{
    if i < k {
        assert(links.take(k)[i] == links[i]);
        let next = match resolved(s, links[i].target) {
            Some(q) => if s[q].id != from && !acc.contains(q) {
                acc.push(q)
            } else {
                acc
            },
            None => acc,
        };
        lemma_targets_split(s, links, from, next, i + 1, k);
    }
}

/// A note's links come in the order of its text, each target once: what its first
/// `k` links lead to stands before what only later links do.
pub proof fn law_links_come_in_text_order(s: Seq<NoteView>, a: int, k: int, p: int)
    requires
        ids_ascend(s),
        0 <= a < s.len(),
        0 <= k <= s[a].links.len(),
    ensures
        outgoing_of(s, s[a].id).no_duplicates(),
        exists|n: int|
            0 <= n <= outgoing_of(s, s[a].id).len() && (#[trigger] outgoing_of(s, s[a].id).take(
                n,
            ).contains(p) <==> 0 <= p < s.len() && p != a && exists|j: int|
                0 <= j < k && means(s, (#[trigger] s[a].links[j]).target, p)),
{
    let links = s[a].links;
    let from = s[a].id;
    let all = outgoing_of(s, from);
    lemma_find_is(s, a);
    lemma_targets_order(s, links, from, seq![], 0);
    let early = targets_from(s, links.take(k), from, seq![], 0);
    lemma_targets_order(s, links.take(k), from, seq![], 0);
    lemma_targets_split(s, links, from, seq![], 0, k);
    lemma_targets_order(s, links, from, early, k);
    let n: int = early.len() as int;
    assert(all.take(n) == early);
    lemma_targets_contain(s, links.take(k), from, seq![], 0, p);
    assert(!Seq::<int>::empty().contains(p));
    if early.contains(p) {
        let j = choose|j: int|
            0 <= j < links.take(k).len() && resolved(s, (#[trigger] links.take(k)[j]).target) == Some(
                p,
            );
        assert(links.take(k)[j] == links[j]);
        lemma_resolved(s, links[j].target);
        law_a_target_resolves_to_what_it_means(s, links[j].target, p);
    }
    if 0 <= p < s.len() && p != a && exists|j: int|
        0 <= j < k && means(s, (#[trigger] s[a].links[j]).target, p) {
        let j = choose|j: int| 0 <= j < k && means(s, (#[trigger] s[a].links[j]).target, p);
        law_a_target_resolves_to_what_it_means(s, links[j].target, p);
        assert(links.take(k)[j] == links[j]);
        lemma_find_is(s, p);
    }
}

proof fn lemma_linkers_ascend(s: Seq<NoteView>, id: Seq<char>, i: int)
    requires
        0 <= i,
    ensures
        ascends(linkers_from(s, id, i)),
        forall|a: int|
            0 <= a < linkers_from(s, id, i).len() ==> i <= #[trigger] linkers_from(s, id, i)[a],
    decreases s.len() - i,
{
    if i < s.len() {
        lemma_linkers_ascend(s, id, i + 1);
        let rest = linkers_from(s, id, i + 1);
        let all = linkers_from(s, id, i);
        if s[i].id != id && links_to(s, s[i], id) {
            lemma_ascends_front(i, rest);
            assert forall|a: int| 0 <= a < all.len() implies i <= #[trigger] all[a] by {
                if a > 0 {
                    assert(all[a] == rest[a - 1]);
                }
            }
        }
    }
}

/// The notes that link to a note come in the order of their ids, each once.
pub proof fn law_backlinks_come_in_the_order_of_ids(s: Seq<NoteView>, id: Seq<char>)
    ensures
        ascends(backlinks_of(s, id)),
{
    lemma_linkers_ascend(s, id, 0);
}

} // verus!

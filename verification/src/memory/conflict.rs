//! Contradicting memories: same key, different content.
use crate::memory::types::{memories_view, Memory, MemoryView};
use crate::order::{ascends, lemma_ascends_front};
use crate::text::{str_eq, texts};
use vstd::prelude::*;

verus! {

/// Memories that share a key and disagree.
#[derive(Debug)]
pub struct Conflict {
    pub key: String,
    pub memory_ids: Vec<String>,
}

/// The model of a conflict.
#[verifier::ext_equal]
pub struct ConflictView {
    pub key: Seq<char>,
    pub memory_ids: Seq<Seq<char>>,
}

impl View for Conflict {
    type V = ConflictView;

    open spec fn view(&self) -> ConflictView {
        ConflictView { key: self.key@, memory_ids: texts(self.memory_ids@) }
    }
}

pub open spec fn conflicts_view(v: Seq<Conflict>) -> Seq<ConflictView> {
    v.map_values(|c: Conflict| c@)
}

/// Whether the memory at `i` carries `key`.
pub open spec fn keyed_at(ms: Seq<MemoryView>, key: Seq<char>, i: int) -> bool {
    ms[i].key == Some(key)
}

/// The ids of the memories with `key` from `i` on, in order.
pub open spec fn ids_with_key(ms: Seq<MemoryView>, key: Seq<char>, i: int) -> Seq<Seq<char>>
    decreases ms.len() - i,
{
    if i < 0 || i >= ms.len() {
        seq![]
    } else if keyed_at(ms, key, i) {
        seq![ms[i].id] + ids_with_key(ms, key, i + 1)
    } else {
        ids_with_key(ms, key, i + 1)
    }
}

/// Two memories with `key` differ in content.
pub open spec fn contested(ms: Seq<MemoryView>, key: Seq<char>) -> bool {
    exists|i: int, j: int|
        0 <= i < ms.len() && 0 <= j < ms.len() && #[trigger] keyed_at(ms, key, i)
            && #[trigger] keyed_at(ms, key, j) && ms[i].content != ms[j].content
}

/// No memory before `i` carries `key`.
pub open spec fn unseen_before(ms: Seq<MemoryView>, key: Seq<char>, i: int) -> bool {
    forall|j: int| 0 <= j < i ==> !#[trigger] keyed_at(ms, key, j)
}

/// The conflicts whose key is first carried at `i` or later.
pub open spec fn conflicts_from(ms: Seq<MemoryView>, i: int) -> Seq<ConflictView>
    decreases ms.len() - i,
{
    if i < 0 || i >= ms.len() {
        seq![]
    } else {
        match ms[i].key {
            Some(key) => if unseen_before(ms, key, i) && contested(ms, key) {
                seq![ConflictView { key, memory_ids: ids_with_key(ms, key, 0) }] + conflicts_from(
                    ms,
                    i + 1,
                )
            } else {
                conflicts_from(ms, i + 1)
            },
            None => conflicts_from(ms, i + 1),
        }
    }
}

/// The conflicts among memories, one for each contested key, by the first
/// memory that carries it.
pub open spec fn conflicts_of(ms: Seq<MemoryView>) -> Seq<ConflictView> {
    conflicts_from(ms, 0)
}

fn has_key(m: &Memory, key: &str) -> (r: bool)
    ensures
        r == (m@.key == Some(key@)),
{
    match &m.key {
        Some(k) => str_eq(k.as_str(), key),
        None => false,
    }
}

fn group_ids(memories: &[Memory], key: &str) -> (r: Vec<String>)
    ensures
        texts(r@) == ids_with_key(memories_view(memories@), key@, 0),
{
    let ghost ms = memories_view(memories@);
    let mut out: Vec<String> = Vec::new();
    let mut i: usize = 0;
    while i < memories.len()
        invariant
            i <= memories@.len(),
            ms == memories_view(memories@),
            ids_with_key(ms, key@, 0) == texts(out@) + ids_with_key(ms, key@, i as int),
        decreases memories@.len() - i,
    {
        if has_key(&memories[i], key) {
            let ghost prev = texts(out@);
            out.push(memories[i].id.clone());
            assert(texts(out@) =~= prev.push(ms[i as int].id));
            assert(prev + (seq![ms[i as int].id] + ids_with_key(ms, key@, i + 1)) =~= texts(out@)
                + ids_with_key(ms, key@, i + 1));
        }
        i = i + 1;
    }
    assert(texts(out@) + ids_with_key(ms, key@, i as int) =~= texts(out@));
    out
}

/// Whether a memory with the key of the one at `at` differs from it in content.
fn is_contested(memories: &[Memory], key: &str, at: usize) -> (r: bool)
    requires
        at < memories@.len(),
        keyed_at(memories_view(memories@), key@, at as int),
    ensures
        r == contested(memories_view(memories@), key@),
{
    let ghost ms = memories_view(memories@);
    let mut j: usize = 0;
    while j < memories.len()
        invariant
            j <= memories@.len(),
            at < memories@.len(),
            ms == memories_view(memories@),
            keyed_at(ms, key@, at as int),
            forall|k: int|
                0 <= k < j && #[trigger] keyed_at(ms, key@, k) ==> ms[k].content
                    == ms[at as int].content,
        decreases memories@.len() - j,
    {
        if has_key(&memories[j], key) {
            assert(keyed_at(ms, key@, j as int));
            if !str_eq(memories[j].content.as_str(), memories[at].content.as_str()) {
                return true;
            }
        }
        j = j + 1;
    }
    false
}

fn is_unseen(memories: &[Memory], key: &str, at: usize) -> (r: bool)
    requires
        at <= memories@.len(),
    ensures
        r == unseen_before(memories_view(memories@), key@, at as int),
{
    let ghost ms = memories_view(memories@);
    let mut j: usize = 0;
    while j < at
        invariant
            j <= at <= memories@.len(),
            ms == memories_view(memories@),
            forall|k: int| 0 <= k < j ==> !#[trigger] keyed_at(ms, key@, k),
        decreases at - j,
    {
        if has_key(&memories[j], key) {
            assert(keyed_at(ms, key@, j as int));
            return false;
        }
        j = j + 1;
    }
    true
}

/// Detects contradicting memories: same `key`, different `content`. They are
/// surfaced rather than silently resolved. Memories without a key are ignored.
pub fn detect_conflicts(memories: &[Memory]) -> (r: Vec<Conflict>)
    ensures
        conflicts_view(r@) == conflicts_of(memories_view(memories@)),
{
    let ghost ms = memories_view(memories@);
    let mut out: Vec<Conflict> = Vec::new();
    let mut i: usize = 0;
    while i < memories.len()
        invariant
            i <= memories@.len(),
            ms == memories_view(memories@),
            conflicts_of(ms) == conflicts_view(out@) + conflicts_from(ms, i as int),
        decreases memories@.len() - i,
    {
        if let Some(key) = &memories[i].key {
            assert(keyed_at(ms, key@, i as int));
            if is_unseen(memories, key.as_str(), i) && is_contested(memories, key.as_str(), i) {
                let ghost prev = conflicts_view(out@);
                let c = Conflict { key: key.clone(), memory_ids: group_ids(memories, key.as_str()) };
                let ghost cv = c@;
                out.push(c);
                assert(conflicts_view(out@) =~= prev.push(cv));
                assert(prev + (seq![cv] + conflicts_from(ms, i + 1)) =~= conflicts_view(out@)
                    + conflicts_from(ms, i + 1));
            }
        }
        i = i + 1;
    }
    assert(conflicts_view(out@) + conflicts_from(ms, i as int) =~= conflicts_view(out@));
    out
}

proof fn lemma_conflicts_sound(ms: Seq<MemoryView>, i: int, n: int)
    requires
        0 <= i,
        0 <= n < conflicts_from(ms, i).len(),
    ensures
        contested(ms, conflicts_from(ms, i)[n].key),
        conflicts_from(ms, i)[n].memory_ids == ids_with_key(ms, conflicts_from(ms, i)[n].key, 0),
        !unseen_before(ms, conflicts_from(ms, i)[n].key, ms.len() as int),
    decreases ms.len() - i,
{
    if i < ms.len() {
        match ms[i].key {
            Some(key) => {
                if unseen_before(ms, key, i) && contested(ms, key) {
                    assert(keyed_at(ms, key, i));
                    if n > 0 {
                        lemma_conflicts_sound(ms, i + 1, n - 1);
                    }
                } else {
                    lemma_conflicts_sound(ms, i + 1, n);
                }
            },
            None => {
                lemma_conflicts_sound(ms, i + 1, n);
            },
        }
    }
}

proof fn lemma_conflicts_complete(ms: Seq<MemoryView>, key: Seq<char>, i: int, at: int)
    requires
        0 <= i <= at < ms.len(),
        keyed_at(ms, key, at),
        unseen_before(ms, key, at),
        contested(ms, key),
    ensures
        exists|n: int|
            0 <= n < conflicts_from(ms, i).len() && #[trigger] conflicts_from(ms, i)[n].key == key,
    decreases ms.len() - i,
{
    if i == at {
        assert(conflicts_from(ms, i)[0].key == key);
    } else {
        lemma_conflicts_complete(ms, key, i + 1, at);
        let m = choose|m: int|
            0 <= m < conflicts_from(ms, i + 1).len() && #[trigger] conflicts_from(ms, i + 1)[m].key
                == key;
        match ms[i].key {
            Some(k) => {
                if unseen_before(ms, k, i) && contested(ms, k) {
                    assert(conflicts_from(ms, i)[m + 1].key == key);
                } else {
                    assert(conflicts_from(ms, i)[m].key == key);
                }
            },
            None => {
                assert(conflicts_from(ms, i)[m].key == key);
            },
        }
    }
}

proof fn lemma_first_with_key(ms: Seq<MemoryView>, key: Seq<char>, i: int) -> (at: int)
    requires
        0 <= i < ms.len(),
        keyed_at(ms, key, i),
    ensures
        0 <= at <= i,
        keyed_at(ms, key, at),
        unseen_before(ms, key, at),
    decreases i,
{
    if unseen_before(ms, key, i) {
        i
    } else {
        let j = choose|j: int| 0 <= j < i && #[trigger] keyed_at(ms, key, j);
        lemma_first_with_key(ms, key, j)
    }
}

/// Each conflict from `i` on is of a key that first comes there.
proof fn lemma_conflicts_late(ms: Seq<MemoryView>, i: int, n: int) -> (at: int)
    requires
        0 <= i,
        0 <= n < conflicts_from(ms, i).len(),
    ensures
        i <= at < ms.len(),
        keyed_at(ms, conflicts_from(ms, i)[n].key, at),
        unseen_before(ms, conflicts_from(ms, i)[n].key, at),
    decreases ms.len() - i,
{
    match ms[i].key {
        Some(key) => {
            if unseen_before(ms, key, i) && contested(ms, key) {
                if n > 0 {
                    lemma_conflicts_late(ms, i + 1, n - 1)
                } else {
                    i
                }
            } else {
                lemma_conflicts_late(ms, i + 1, n)
            }
        },
        None => lemma_conflicts_late(ms, i + 1, n),
    }
}

proof fn lemma_conflicts_distinct(ms: Seq<MemoryView>, i: int)
    requires
        0 <= i,
    ensures
        forall|a: int, b: int|
            0 <= a < b < conflicts_from(ms, i).len() ==> (#[trigger] conflicts_from(ms, i)[a]).key
                != (#[trigger] conflicts_from(ms, i)[b]).key,
    decreases ms.len() - i,
{
    if i < ms.len() {
        lemma_conflicts_distinct(ms, i + 1);
        let all = conflicts_from(ms, i);
        let rest = conflicts_from(ms, i + 1);
        match ms[i].key {
            Some(key) => {
                if unseen_before(ms, key, i) && contested(ms, key) {
                    assert forall|a: int, b: int| 0 <= a < b < all.len() implies (
                    #[trigger] all[a]).key != (#[trigger] all[b]).key by {
                        assert(all[b] == rest[b - 1]);
                        if a > 0 {
                            assert(all[a] == rest[a - 1]);
                        } else {
                            let at = lemma_conflicts_late(ms, i + 1, b - 1);
                            assert(keyed_at(ms, key, i));
                        }
                    }
                }
            },
            None => {},
        }
    }
}

/// A key is reported exactly when two memories that carry it disagree, and
/// the report names every memory that carries it. No key is reported twice.
pub proof fn law_conflicts_are_exact(ms: Seq<MemoryView>, key: Seq<char>)
    ensures
        contested(ms, key) <==> exists|n: int|
            0 <= n < conflicts_of(ms).len() && #[trigger] conflicts_of(ms)[n].key == key,
        forall|n: int|
            0 <= n < conflicts_of(ms).len() ==> (#[trigger] conflicts_of(ms)[n]).memory_ids
                == ids_with_key(ms, conflicts_of(ms)[n].key, 0),
        forall|a: int, b: int|
            0 <= a < b < conflicts_of(ms).len() ==> (#[trigger] conflicts_of(ms)[a]).key != (
            #[trigger] conflicts_of(ms)[b]).key,
{
    lemma_conflicts_distinct(ms, 0);
    if contested(ms, key) {
        let (i, j) = choose|i: int, j: int|
            0 <= i < ms.len() && 0 <= j < ms.len() && #[trigger] keyed_at(ms, key, i)
                && #[trigger] keyed_at(ms, key, j) && ms[i].content != ms[j].content;
        let at = lemma_first_with_key(ms, key, i);
        lemma_conflicts_complete(ms, key, 0, at);
        let n = choose|n: int|
            0 <= n < conflicts_from(ms, 0).len() && #[trigger] conflicts_from(ms, 0)[n].key == key;
        assert(conflicts_of(ms)[n].key == key);
    }
    assert forall|n: int| 0 <= n < conflicts_of(ms).len() implies contested(
        ms,
        (#[trigger] conflicts_of(ms)[n]).key,
    ) && conflicts_of(ms)[n].memory_ids == ids_with_key(ms, conflicts_of(ms)[n].key, 0) by {
        lemma_conflicts_sound(ms, 0, n);
    }
}

proof fn lemma_ids_with_key(ms: Seq<MemoryView>, key: Seq<char>, i: int) -> (at: Seq<int>)
    requires
        0 <= i <= ms.len(),
    ensures
        at.len() == ids_with_key(ms, key, i).len(),
        ascends(at),
        forall|a: int|
            0 <= a < at.len() ==> i <= #[trigger] at[a] < ms.len() && ms[at[a]].key == Some(key)
                && ids_with_key(ms, key, i)[a] == ms[at[a]].id,
        forall|p: int| i <= p < ms.len() && (#[trigger] ms[p]).key == Some(key) ==> at.contains(p),
    decreases ms.len() - i,
{
    if i < ms.len() {
        let rest = lemma_ids_with_key(ms, key, i + 1);
        if ms[i].key == Some(key) {
            assert(keyed_at(ms, key, i));
            let at = seq![i] + rest;
            lemma_ascends_front(i, rest);
            assert forall|a: int| 0 <= a < at.len() implies i <= #[trigger] at[a] < ms.len()
                && ms[at[a]].key == Some(key) && ids_with_key(ms, key, i)[a] == ms[at[a]].id by {
                if a > 0 {
                    assert(at[a] == rest[a - 1]);
                }
            }
            assert forall|p: int| i <= p < ms.len() && (#[trigger] ms[p]).key == Some(
                key,
            ) implies at.contains(p) by {
                if p == i {
                    assert(at[0] == p);
                } else {
                    assert(rest.contains(p));
                    let a = choose|a: int| 0 <= a < rest.len() && rest[a] == p;
                    assert(at[a + 1] == p);
                }
            }
            at
        } else {
            assert(!keyed_at(ms, key, i));
            rest
        }
    } else {
        seq![]
    }
}

/// A conflict names exactly the memories that carry its key, in their order, and two
/// of them differ in content. Memories without a key are never in conflict. `at` says
/// which memories a conflict names.
pub proof fn law_a_conflict_names_the_memories_of_its_key(ms: Seq<MemoryView>, n: int) -> (at: Seq<
    int,
>)
    requires
        0 <= n < conflicts_of(ms).len(),
    ensures
        ({
            let c = conflicts_of(ms)[n];
            &&& at.len() == c.memory_ids.len()
            &&& ascends(at)
            &&& forall|a: int|
                0 <= a < at.len() ==> 0 <= #[trigger] at[a] < ms.len() && c.memory_ids[a]
                    == ms[at[a]].id
            &&& forall|p: int|
                0 <= p < ms.len() ==> (at.contains(p) <==> (#[trigger] ms[p]).key == Some(c.key))
            &&& exists|i: int, j: int|
                0 <= i < ms.len() && 0 <= j < ms.len() && (#[trigger] ms[i]).key == Some(c.key) && (
                #[trigger] ms[j]).key == Some(c.key) && ms[i].content != ms[j].content
        }),
{
    let c = conflicts_of(ms)[n];
    law_conflicts_are_exact(ms, c.key);
    let at = lemma_ids_with_key(ms, c.key, 0);
    assert(contested(ms, c.key));
    let (i, j) = choose|i: int, j: int|
        0 <= i < ms.len() && 0 <= j < ms.len() && #[trigger] keyed_at(ms, c.key, i)
            && #[trigger] keyed_at(ms, c.key, j) && ms[i].content != ms[j].content;
    assert(ms[i].key == Some(c.key) && ms[j].key == Some(c.key));
    assert forall|p: int| 0 <= p < ms.len() implies (at.contains(p) <==> (#[trigger] ms[p]).key
        == Some(c.key)) by {
        if at.contains(p) {
            let a = choose|a: int| 0 <= a < at.len() && at[a] == p;
            assert(ms[at[a]].key == Some(c.key));
        }
    }
    at
}

} // verus!

//! A map from strings, kept in key order.
use crate::order::{before, lemma_before_asym, lemma_before_total, lemma_before_trans, str_before};
use crate::text::str_eq;
use vstd::prelude::*;

verus! {

/// A map from strings to `V`. Its entries stand in ascending key order, and no
/// key occurs twice. (Of std's own maps with keys of type `String` not even the
/// length after an insertion can be proved.)
pub struct StrMap<V> {
    entries: Vec<(String, V)>,
}

/// The keys of a vector of entries ascend, so none occurs twice.
pub open spec fn ascending(keys: Seq<Seq<char>>) -> bool {
    forall|i: int, j: int| 0 <= i < j < keys.len() ==> before(#[trigger] keys[i], #[trigger] keys[j])
}

spec fn keys_of<V>(e: Seq<(String, V)>) -> Seq<Seq<char>> {
    e.map_values(|p: (String, V)| p.0@)
}

spec fn map_of<V>(e: Seq<(String, V)>) -> Map<Seq<char>, V>
    decreases e.len(),
{
    if e.len() == 0 {
        Map::empty()
    } else {
        map_of(e.drop_last()).insert(e.last().0@, e.last().1)
    }
}

impl<V> View for StrMap<V> {
    type V = Map<Seq<char>, V>;

    closed spec fn view(&self) -> Map<Seq<char>, V> {
        map_of(self.entries@)
    }
}

proof fn lemma_ascending_prefix<V>(e: Seq<(String, V)>, n: int)
    requires
        0 <= n <= e.len(),
        ascending(keys_of(e)),
    ensures
        ascending(keys_of(e.take(n))),
{
    assert forall|i: int, j: int| 0 <= i < j < keys_of(e.take(n)).len() implies before(
        #[trigger] keys_of(e.take(n))[i],
        #[trigger] keys_of(e.take(n))[j],
    ) by {
        assert(keys_of(e)[i] == e[i].0@ && keys_of(e)[j] == e[j].0@);
    }
}

proof fn lemma_map_of<V>(e: Seq<(String, V)>)
    requires
        ascending(keys_of(e)),
    ensures
        forall|i: int|
            0 <= i < e.len() ==> map_of(e).contains_key(#[trigger] e[i].0@) && map_of(e)[e[i].0@]
                == e[i].1,
        forall|k: Seq<char>| #[trigger]
            map_of(e).contains_key(k) ==> exists|i: int| 0 <= i < e.len() && #[trigger] e[i].0@ == k,
        map_of(e).dom().finite(),
        map_of(e).dom().len() == e.len(),
    decreases e.len(),
{
    if e.len() > 0 {
        let f = e.drop_last();
        assert(f =~= e.take(e.len() - 1));
        lemma_ascending_prefix(e, e.len() - 1);
        lemma_map_of(f);
        let last = e.last();
        assert forall|i: int| 0 <= i < f.len() implies #[trigger] f[i].0@ != last.0@ by {
            assert(before(keys_of(e)[i], keys_of(e)[e.len() - 1]));
            lemma_before_asym(e[i].0@, last.0@);
        }
        assert forall|i: int| 0 <= i < e.len() implies map_of(e).contains_key(#[trigger] e[i].0@)
            && map_of(e)[e[i].0@] == e[i].1 by {
            if i < f.len() {
                assert(f[i] == e[i]);
            }
        }
        assert forall|k: Seq<char>| #[trigger] map_of(e).contains_key(k) implies exists|i: int|
            0 <= i < e.len() && #[trigger] e[i].0@ == k by {
            if k == last.0@ {
                assert(e[e.len() - 1].0@ == k);
            } else {
                let i = choose|i: int| 0 <= i < f.len() && #[trigger] f[i].0@ == k;
                assert(e[i].0@ == k);
            }
        }
        assert(!map_of(f).contains_key(last.0@));
    }
}

impl<V> StrMap<V> {
    #[verifier::type_invariant]
    spec fn well_formed(self) -> bool {
        ascending(keys_of(self.entries@))
    }

    /// The keys in order.
    pub closed spec fn keys(self) -> Seq<Seq<char>> {
        keys_of(self.entries@)
    }

    /// The empty map.
    pub fn new() -> (m: Self)
        ensures
            m@ == Map::<Seq<char>, V>::empty(),
            m.keys() == Seq::<Seq<char>>::empty(),
    {
        let entries: Vec<(String, V)> = Vec::new();
        assert(keys_of(entries@) =~= seq![]);
        StrMap { entries }
    }

    /// The keys ascend and are those of the map.
    pub fn len(&self) -> (n: usize)
        ensures
            n == self.keys().len(),
            ascending(self.keys()),
            self@.dom().finite(),
            self@.len() == n,
            forall|i: int| 0 <= i < n ==> self@.contains_key(#[trigger] self.keys()[i]),
            forall|k: Seq<char>| #[trigger] self@.contains_key(k) ==> self.keys().contains(k),
    {
        proof {
            use_type_invariant(self);
            lemma_map_of(self.entries@);
            assert forall|i: int| 0 <= i < self.entries@.len() implies self@.contains_key(
                #[trigger] self.keys()[i],
            ) by {
                assert(self.keys()[i] == self.entries@[i].0@);
            }
            assert forall|k: Seq<char>| #[trigger] self@.contains_key(k) implies self.keys().contains(
                k,
            ) by {
                let i = choose|i: int|
                    0 <= i < self.entries@.len() && #[trigger] self.entries@[i].0@ == k;
                assert(self.keys()[i] == k);
            }
        }
        self.entries.len()
    }

    /// The entry at position `i` of the key order.
    pub fn entry_at(&self, i: usize) -> (r: (&String, &V))
        requires
            i < self.keys().len(),
        ensures
            r.0@ == self.keys()[i as int],
            self@.contains_key(r.0@),
            self@[r.0@] == *r.1,
    {
        proof {
            use_type_invariant(self);
            lemma_map_of(self.entries@);
        }
        let e = &self.entries[i];
        (&e.0, &e.1)
    }

    /// The position of the first entry whose key does not come before `key`.
    fn slot(&self, key: &str) -> (p: usize)
        ensures
            p <= self.entries@.len(),
            forall|i: int| 0 <= i < p ==> before(#[trigger] self.entries@[i].0@, key@),
            forall|i: int|
                p <= i < self.entries@.len() ==> !before(#[trigger] self.entries@[i].0@, key@),
    {
        let mut p: usize = 0;
        while p < self.entries.len() && str_before(self.entries[p].0.as_str(), key)
            invariant
                p <= self.entries@.len(),
                forall|i: int| 0 <= i < p ==> before(#[trigger] self.entries@[i].0@, key@),
            decreases self.entries@.len() - p,
        {
            p = p + 1;
        }
        proof {
            use_type_invariant(self);
            if p < self.entries@.len() {
                assert forall|i: int| p <= i < self.entries@.len() implies !before(
                    #[trigger] self.entries@[i].0@,
                    key@,
                ) by {
                    if i > p && before(self.entries@[i].0@, key@) {
                        assert(before(keys_of(self.entries@)[p as int], keys_of(self.entries@)[i]));
                        lemma_before_trans(self.entries@[p as int].0@, self.entries@[i].0@, key@);
                    }
                }
            }
        }
        p
    }

    /// The value of `key`.
    pub fn get(&self, key: &str) -> (r: Option<&V>)
        ensures
            match r {
                Some(v) => self@.contains_key(key@) && self@[key@] == *v,
                None => !self@.contains_key(key@),
            },
    {
        let p: usize = self.slot(key);
        proof {
            use_type_invariant(self);
            lemma_map_of(self.entries@);
        }
        if p < self.entries.len() && str_eq(self.entries[p].0.as_str(), key) {
            Some(&self.entries[p].1)
        } else {
            proof {
                if self@.contains_key(key@) {
                    let i = choose|i: int|
                        0 <= i < self.entries@.len() && #[trigger] self.entries@[i].0@ == key@;
                    if i < p {
                        lemma_before_asym(self.entries@[i].0@, key@);
                    } else if i > p {
                        assert(before(keys_of(self.entries@)[p as int], keys_of(self.entries@)[i]));
                    }
                }
            }
            None
        }
    }

    /// Whether `key` has a value.
    pub fn contains_key(&self, key: &str) -> (r: bool)
        ensures
            r == self@.contains_key(key@),
    {
        self.get(key).is_some()
    }

    /// Sets the value of `key`.
    pub fn insert(&mut self, key: String, value: V)
        ensures
            final(self)@ == old(self)@.insert(key@, value),
    {
        let p: usize = self.slot(key.as_str());
        proof {
            use_type_invariant(&*self);
        }
        let ghost e = self.entries@;
        let ghost k = key@;
        let mut entries: Vec<(String, V)> = Vec::new();
        std::mem::swap(&mut entries, &mut self.entries);
        let found: bool = p < entries.len() && str_eq(entries[p].0.as_str(), key.as_str());
        if found {
            let _ = entries.remove(p);
        }
        let ghost f = entries@;
        proof {
            // Without `key` the entries before `p` come before it, those from `p` on after it.
            assert forall|i: int| p <= i < f.len() implies before(k, #[trigger] f[i].0@) by {
                let j = if found {
                    i + 1
                } else {
                    i
                };
                assert(f[i] == e[j]);
                if e[j].0@ == k {
                    assert(before(keys_of(e)[p as int], keys_of(e)[j]));
                    lemma_before_asym(e[p as int].0@, k);
                }
                if !before(k, e[j].0@) {
                    lemma_before_total(k, e[j].0@);
                }
            }
            assert forall|i: int| 0 <= i < p implies #[trigger] f[i] == e[i] by {}
        }
        entries.insert(p, (key, value));
        proof {
            let g = entries@;
            assert(g =~= f.insert(p as int, (key, value)));
            assert forall|i: int, j: int| 0 <= i < j < keys_of(g).len() implies before(
                #[trigger] keys_of(g)[i],
                #[trigger] keys_of(g)[j],
            ) by {
                let oi = if i < p {
                    i
                } else if found {
                    i
                } else {
                    i - 1
                };
                let oj = if j < p {
                    j
                } else if found {
                    j
                } else {
                    j - 1
                };
                if i != p && j != p {
                    assert(g[i] == e[oi] && g[j] == e[oj]);
                    assert(before(keys_of(e)[oi], keys_of(e)[oj]));
                } else if i == p {
                    assert(g[j] == f[j - 1]);
                    assert(before(k, f[j - 1].0@));
                } else {
                    assert(g[i] == f[i]);
                    assert(before(e[i].0@, k));
                }
            }
            lemma_map_of(e);
            lemma_map_of(g);
            assert(map_of(g) =~= map_of(e).insert(k, value)) by {
                assert forall|q: Seq<char>| #[trigger] map_of(g).contains_key(q) implies map_of(
                    e,
                ).insert(k, value).contains_key(q) && map_of(g)[q] == map_of(e).insert(k, value)[q] by {
                    let i = choose|i: int| 0 <= i < g.len() && #[trigger] g[i].0@ == q;
                    if i != p {
                        let oi = if i < p {
                            i
                        } else if found {
                            i
                        } else {
                            i - 1
                        };
                        assert(g[i] == e[oi]);
                        assert(map_of(e).contains_key(e[oi].0@));
                        if q == k {
                            if i < p {
                                lemma_before_asym(e[i].0@, k);
                            } else {
                                lemma_before_asym(k, f[i - 1].0@);
                            }
                        }
                    }
                }
                assert forall|q: Seq<char>| #[trigger] map_of(e).insert(k, value).contains_key(
                    q,
                ) implies map_of(g).contains_key(q) by {
                    if q == k {
                        assert(g[p as int].0@ == k);
                    } else {
                        let i = choose|i: int| 0 <= i < e.len() && #[trigger] e[i].0@ == q;
                        let gi = if i < p {
                            i
                        } else if found {
                            i
                        } else {
                            i + 1
                        };
                        assert(g[gi] == e[i]);
                    }
                }
            }
        }
        self.entries = entries;
    }

    /// Removes `key`, and says whether it was there.
    pub fn remove(&mut self, key: &str) -> (r: bool)
        ensures
            r == old(self)@.contains_key(key@),
            final(self)@ == old(self)@.remove(key@),
    {
        let p: usize = self.slot(key);
        let found: bool = p < self.entries.len() && str_eq(self.entries[p].0.as_str(), key);
        let present: bool = self.contains_key(key);
        proof {
            use_type_invariant(&*self);
            lemma_map_of(self.entries@);
        }
        let ghost e = self.entries@;
        if found {
            let mut entries: Vec<(String, V)> = Vec::new();
            std::mem::swap(&mut entries, &mut self.entries);
            let _ = entries.remove(p);
            proof {
                let g = entries@;
                assert(g =~= e.remove(p as int));
                assert forall|i: int, j: int| 0 <= i < j < keys_of(g).len() implies before(
                    #[trigger] keys_of(g)[i],
                    #[trigger] keys_of(g)[j],
                ) by {
                    let oi = if i < p { i } else { i + 1 };
                    let oj = if j < p { j } else { j + 1 };
                    assert(before(keys_of(e)[oi], keys_of(e)[oj]));
                }
                lemma_map_of(g);
                assert(map_of(g) =~= map_of(e).remove(key@)) by {
                    assert forall|q: Seq<char>| #[trigger] map_of(g).contains_key(q) implies map_of(
                        e,
                    ).remove(key@).contains_key(q) && map_of(g)[q] == map_of(e)[q] by {
                        let i = choose|i: int| 0 <= i < g.len() && #[trigger] g[i].0@ == q;
                        let oi = if i < p { i } else { i + 1 };
                        assert(g[i] == e[oi]);
                        if q == key@ {
                            if oi < p {
                                assert(before(keys_of(e)[oi], keys_of(e)[p as int]));
                                lemma_before_asym(e[oi].0@, e[p as int].0@);
                            } else {
                                assert(before(keys_of(e)[p as int], keys_of(e)[oi]));
                                lemma_before_asym(e[p as int].0@, e[oi].0@);
                            }
                        }
                    }
                    assert forall|q: Seq<char>| #[trigger] map_of(e).remove(key@).contains_key(
                        q,
                    ) implies map_of(g).contains_key(q) by {
                        let i = choose|i: int| 0 <= i < e.len() && #[trigger] e[i].0@ == q;
                        let gi = if i < p { i } else { i - 1 };
                        assert(g[gi] == e[i]);
                    }
                }
            }
            self.entries = entries;
        } else {
            proof {
                if self@.contains_key(key@) {
                    let i = choose|i: int| 0 <= i < e.len() && #[trigger] e[i].0@ == key@;
                    if i < p {
                        lemma_before_asym(e[i].0@, key@);
                    } else if i > p {
                        assert(before(keys_of(e)[p as int], keys_of(e)[i]));
                    }
                }
                assert(self@ =~= self@.remove(key@));
            }
        }
        present
    }
}

proof fn lemma_map_keys<V>(e: Seq<(String, V)>, k: Seq<char>)
    ensures
        map_of(e).contains_key(k) <==> keys_of(e).contains(k),
    decreases e.len(),
{
    if e.len() > 0 {
        let f = e.drop_last();
        lemma_map_keys(f, k);
        assert(keys_of(e) =~= keys_of(f).push(e.last().0@));
        if keys_of(f).contains(k) {
            let i = choose|i: int| 0 <= i < keys_of(f).len() && keys_of(f)[i] == k;
            assert(keys_of(e)[i] == k);
        }
        if e.last().0@ == k {
            assert(keys_of(e)[e.len() - 1] == k);
        }
        if keys_of(e).contains(k) && e.last().0@ != k {
            let i = choose|i: int| 0 <= i < keys_of(e).len() && keys_of(e)[i] == k;
            assert(keys_of(f)[i] == k);
        }
    }
}

/// The keys of a map are those it lists.
pub proof fn lemma_keys<V>(m: StrMap<V>)
    ensures
        forall|k: Seq<char>| #[trigger] m@.contains_key(k) <==> m.keys().contains(k),
{
    assert forall|k: Seq<char>| #[trigger] m@.contains_key(k) <==> m.keys().contains(k) by {
        lemma_map_keys(m.entries@, k);
    }
}

} // verus!

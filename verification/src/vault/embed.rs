//! Embeddings: the features of a text and the buckets they hash into, the
//! choice of what a cache still has to embed, and the answers of a local
//! embedding daemon. Turning bucket counts into unit vectors is floating-point
//! work and stands outside this library.
use crate::ids::{id_text, stable_id};
use crate::strmap::StrMap;
use crate::text::{
    chars_of, debug_text, has_string, lower, lowercase, quoted, string_range, texts,
};
use crate::vault::json::{entry_value, json_get, json_items, lemma_json_model, Json, JsonView};
use vstd::prelude::*;
use vstd::string::*;
use vstd::utf8::*;

verus! {

// ---------------------------------------------------------------------------
// Features
// ---------------------------------------------------------------------------

/// The 32-bit FNV-1a hash of the first `n` bytes.
pub open spec fn fnv(bytes: Seq<u8>, n: int) -> u32
    decreases n,
{
    if n <= 0 {
        0x811c_9dc5
    } else {
        (((fnv(bytes, n - 1) ^ (bytes[n - 1] as u32)) as int * 0x0100_0193) % 0x1_0000_0000) as u32
    }
}

/// The 32-bit FNV-1a hash of the UTF-8 bytes of a text.
pub fn fnv1a(s: &str) -> (h: u32)
    ensures
        h == fnv(encode_utf8(s@), encode_utf8(s@).len() as int),
{
    let bytes = s.as_bytes();
    let mut h: u32 = 0x811c_9dc5;
    let mut i: usize = 0;
    while i < bytes.len()
        invariant
            i <= bytes@.len(),
            bytes@ == encode_utf8(s@),
            h == fnv(bytes@, i as int),
        decreases bytes@.len() - i,
    {
        let x: u32 = h ^ (bytes[i] as u32);
        let wide: u64 = (x as u64) * 0x0100_0193;
        h = (wide % 0x1_0000_0000) as u32;
        i = i + 1;
    }
    h
}

/// The characters of a feature token.
pub open spec fn is_token_char(c: char) -> bool {
    'a' <= c <= 'z' || '0' <= c <= '9'
}

/// The end of the run of token characters that starts at `i`.
pub open spec fn token_end(s: Seq<char>, i: int) -> int
    decreases s.len() - i,
{
    if 0 <= i < s.len() && is_token_char(s[i]) {
        token_end(s, i + 1)
    } else {
        i
    }
}

/// The tokens of `s[i..]`: its maximal runs of lower-case letters and digits.
pub open spec fn tokens_from(s: Seq<char>, i: int) -> Seq<Seq<char>>
    decreases s.len() - i,
{
    if i < 0 || i >= s.len() {
        seq![]
    } else if !is_token_char(s[i]) {
        tokens_from(s, i + 1)
    } else {
        let j = token_end(s, i);
        if i < j <= s.len() {
            seq![s.subrange(i, j)] + tokens_from(s, j)
        } else {
            seq![]
        }
    }
}

/// The features of a token: the token itself, and each three characters in a
/// row of the token between two marks.
pub open spec fn token_features(t: Seq<char>) -> Seq<Seq<char>> {
    let padded = "#"@ + t + "#"@;
    seq!["w:"@ + t] + Seq::new(t.len(), |i: int| "t:"@ + padded.subrange(i, i + 3))
}

/// The features of the tokens from `k` on.
pub open spec fn features_from(ts: Seq<Seq<char>>, k: int) -> Seq<Seq<char>>
    decreases ts.len() - k,
{
    if k < 0 || k >= ts.len() {
        seq![]
    } else {
        token_features(ts[k]) + features_from(ts, k + 1)
    }
}

/// The features of a text.
pub open spec fn text_features(s: Seq<char>) -> Seq<Seq<char>> {
    features_from(tokens_from(lowercase(s), 0), 0)
}

fn token_char(c: char) -> (r: bool)
    ensures
        r == is_token_char(c),
{
    ('a' <= c && c <= 'z') || ('0' <= c && c <= '9')
}

fn feature_tokens(s: &str) -> (r: Vec<String>)
    ensures
        texts(r@) == tokens_from(s@, 0),
{
    let v = chars_of(s);
    let n: usize = v.len();
    let mut out: Vec<String> = Vec::new();
    let mut i: usize = 0;
    while i < n
        invariant
            n == v@.len(),
            v@ == s@,
            i <= n,
            tokens_from(s@, 0) == texts(out@) + tokens_from(s@, i as int),
        decreases n - i,
    {
        if !token_char(v[i]) {
            i = i + 1;
        } else {
            let mut j: usize = i + 1;
            while j < n && token_char(v[j])
                invariant
                    n == v@.len(),
                    v@ == s@,
                    i < j <= n,
                    token_end(s@, i as int) == token_end(s@, j as int),
                decreases n - j,
            {
                j = j + 1;
            }
            let ghost prev = texts(out@);
            out.push(string_range(&v, i, j));
            assert(texts(out@) =~= prev.push(s@.subrange(i as int, j as int)));
            assert(prev + (seq![s@.subrange(i as int, j as int)] + tokens_from(s@, j as int))
                =~= texts(out@) + tokens_from(s@, j as int));
            i = j;
        }
    }
    assert(texts(out@) + tokens_from(s@, i as int) =~= texts(out@));
    out
}

/// The features of a text that is already in lower case.
pub fn features_lower(lowered: &str) -> (r: Vec<String>)
    ensures
        texts(r@) == features_from(tokens_from(lowered@, 0), 0),
{
    let tokens = feature_tokens(lowered);
    let ghost ts = texts(tokens@);
    proof {
        reveal_strlit("#");
    }
    let mut out: Vec<String> = Vec::new();
    let mut k: usize = 0;
    assert(texts(out@) =~= seq![]);
    while k < tokens.len()
        invariant
            k <= tokens@.len(),
            ts == texts(tokens@),
            "#"@.len() == 1,
            features_from(ts, 0) == texts(out@) + features_from(ts, k as int),
        decreases tokens@.len() - k,
    {
        let ghost start = texts(out@);
        let ghost t = ts[k as int];
        let ghost want = token_features(t);
        let mut word = "w:".to_owned();
        word.append(tokens[k].as_str());
        out.push(word);
        let mut padded_str = "#".to_owned();
        padded_str.append(tokens[k].as_str());
        padded_str.append("#");
        let padded = chars_of(padded_str.as_str());
        let whole: usize = padded.len();
        let count: usize = whole - 2;
        assert(texts(out@) =~= start + want.take(1));
        let mut i: usize = 0;
        while i < count
            invariant
                i <= count,
                whole == padded@.len(),
                count + 2 == whole,
                count == t.len(),
                padded@ == "#"@ + t + "#"@,
                want == token_features(t),
                texts(out@) == start + want.take(i + 1),
            decreases count - i,
        {
            let mut tri = "t:".to_owned();
            tri.append(string_range(&padded, i, i + 3).as_str());
            let ghost prev = texts(out@);
            out.push(tri);
            assert(want[i + 1] == "t:"@ + padded@.subrange(i as int, i + 3));
            assert(texts(out@) =~= prev.push(want[i + 1]));
            assert(want.take(i + 2) =~= want.take(i + 1).push(want[i + 1]));
            assert(start + want.take(i + 1).push(want[i + 1]) =~= texts(out@));
            i = i + 1;
        }
        assert(want.take(count + 1) =~= want);
        assert(start + (want + features_from(ts, k + 1)) =~= texts(out@) + features_from(ts, k + 1));
        k = k + 1;
    }
    assert(texts(out@) + features_from(ts, k as int) =~= texts(out@));
    out
}

/// The features of a text: `w:<token>` for each word and `t:<trigram>` over
/// each token with a mark at either end.
pub fn features(text: &str) -> (r: Vec<String>)
    ensures
        texts(r@) == text_features(text@),
{
    let lowered = lower(text);
    features_lower(lowered.as_str())
}

/// The bucket of a feature among `dim`.
pub open spec fn bucket(f: Seq<char>, dim: nat) -> int {
    fnv(encode_utf8(f), encode_utf8(f).len() as int) as int % dim as int
}

/// How many of the first `n` features fall into bucket `b`.
pub open spec fn bucket_count(fs: Seq<Seq<char>>, dim: nat, b: int, n: int) -> nat
    decreases n,
{
    if n <= 0 {
        0
    } else {
        bucket_count(fs, dim, b, n - 1) + if bucket(fs[n - 1], dim) == b {
            1nat
        } else {
            0
        }
    }
}

/// A deterministic, offline embedder: hashes word and trigram features into a
/// fixed number of buckets.
pub struct HashingEmbedder {
    pub dim: usize,
}

impl HashingEmbedder {
    /// The default number of buckets keeps collisions low.
    pub fn new() -> (r: Self)
        ensures
            r.dim == 2048,
    {
        HashingEmbedder { dim: 2048 }
    }

    pub fn with_dim(dim: usize) -> (r: Self)
        ensures
            r.dim == dim,
    {
        HashingEmbedder { dim }
    }

    /// The number of buckets that are used: the lower 32 bits of the dimension.
    pub open spec fn buckets(self) -> nat {
        (self.dim as int % 0x1_0000_0000) as nat
    }

    /// How many features of a text fall into each bucket: its vector before
    /// it is brought to unit length. There must be a bucket to fall into.
    pub fn counts(&self, text: &str) -> (r: Vec<u64>)
        requires
            self.buckets() > 0,
        ensures
            r@.len() == self.dim,
            forall|b: int|
                0 <= b < self.dim ==> #[trigger] r@[b] == bucket_count(
                    text_features(text@),
                    self.buckets(),
                    b,
                    text_features(text@).len() as int,
                ),
    {
        let fs = features(text);
        let ghost fv = texts(fs@);
        let ghost dim = self.buckets();
        let wide: u64 = self.dim as u64;
        let used: u32 = (wide % 0x1_0000_0000) as u32;
        let mut out: Vec<u64> = Vec::new();
        let mut b: usize = 0;
        while b < self.dim
            invariant
                b <= self.dim,
                out@.len() == b,
                forall|j: int| 0 <= j < b ==> #[trigger] out@[j] == 0,
            decreases self.dim - b,
        {
            out.push(0);
            b = b + 1;
        }
        let n: usize = fs.len();
        let mut i: usize = 0;
        while i < n
            invariant
                i <= n,
                n == fs@.len(),
                fv == texts(fs@),
                dim == used,
                0 < used <= self.dim,
                out@.len() == self.dim,
                forall|j: int|
                    0 <= j < self.dim ==> #[trigger] out@[j] == bucket_count(fv, dim, j, i as int)
                        && out@[j] <= i,
            decreases n - i,
        {
            let at: usize = (fnv1a(fs[i].as_str()) % used) as usize;
            assert(fv[i as int] == fs@[i as int]@);
            assert(at == bucket(fv[i as int], dim));
            assert(out@[at as int] <= i);
            let old_count: u64 = out[at];
            out.set(at, old_count + 1);
            i = i + 1;
        }
        out
    }
}

// ---------------------------------------------------------------------------
// The cache
// ---------------------------------------------------------------------------

/// The key of a text in the cache: its content hash.
pub fn key_of(text: &str) -> (r: String)
    ensures
        r@ == id_text(text@, "v"@),
{
    stable_id(text, "v")
}

/// The texts from `i` on whose vectors are neither stored nor asked for yet,
/// each once, in order of first appearance.
pub open spec fn misses_from(
    ts: Seq<Seq<char>>,
    stored: Set<Seq<char>>,
    asked: Seq<Seq<char>>,
    i: int,
) -> Seq<Seq<char>>
    decreases ts.len() - i,
{
    if i < 0 || i >= ts.len() {
        seq![]
    } else {
        let key = id_text(ts[i], "v"@);
        if stored.contains(key) || asked.contains(key) {
            misses_from(ts, stored, asked, i + 1)
        } else {
            seq![ts[i]] + misses_from(ts, stored, asked.push(key), i + 1)
        }
    }
}

/// The texts that a cache has to hand on to its embedder.
pub fn cache_misses<V>(wanted: &Vec<String>, store: &StrMap<V>) -> (r: Vec<String>)
    ensures
        texts(r@) == misses_from(texts(wanted@), store@.dom(), seq![], 0),
{
    let ghost ts = texts(wanted@);
    let ghost stored = store@.dom();
    let mut out: Vec<String> = Vec::new();
    let mut asked: Vec<String> = Vec::new();
    let mut i: usize = 0;
    assert(texts(out@) =~= seq![]);
    assert(texts(asked@) =~= seq![]);
    while i < wanted.len()
        invariant
            i <= wanted@.len(),
            ts == texts(wanted@),
            stored == store@.dom(),
            misses_from(ts, stored, seq![], 0) == texts(out@) + misses_from(
                ts,
                stored,
                texts(asked@),
                i as int,
            ),
        decreases wanted@.len() - i,
    {
        let key = key_of(wanted[i].as_str());
        if !store.contains_key(key.as_str()) && !has_string(&asked, key.as_str()) {
            let ghost prev = texts(out@);
            let ghost was = texts(asked@);
            let ghost kv = key@;
            out.push(wanted[i].clone());
            asked.push(key);
            assert(texts(asked@) =~= was.push(kv));
            assert(texts(out@) =~= prev.push(ts[i as int]));
            assert(prev + (seq![ts[i as int]] + misses_from(ts, stored, texts(asked@), i + 1))
                =~= texts(out@) + misses_from(ts, stored, texts(asked@), i + 1));
        }
        i = i + 1;
    }
    assert(texts(out@) + misses_from(ts, stored, texts(asked@), i as int) =~= texts(out@));
    out
}

/// Only misses are handed on: a text whose vector is stored never is.
pub proof fn law_cache_hands_on_misses_only(
    ts: Seq<Seq<char>>,
    stored: Set<Seq<char>>,
    asked: Seq<Seq<char>>,
    i: int,
)
    requires
        0 <= i,
    ensures
        forall|k: int|
            0 <= k < misses_from(ts, stored, asked, i).len() ==> !stored.contains(
                id_text(#[trigger] misses_from(ts, stored, asked, i)[k], "v"@),
            ),
        forall|j: int|
            i <= j < ts.len() && !stored.contains(id_text(#[trigger] ts[j], "v"@))
                && !asked.contains(id_text(ts[j], "v"@)) ==> exists|k: int|
                0 <= k < misses_from(ts, stored, asked, i).len() && id_text(
                    #[trigger] misses_from(ts, stored, asked, i)[k],
                    "v"@,
                ) == id_text(ts[j], "v"@),
    decreases ts.len() - i,
{
    if i < ts.len() {
        let key = id_text(ts[i], "v"@);
        let all = misses_from(ts, stored, asked, i);
        if stored.contains(key) || asked.contains(key) {
            law_cache_hands_on_misses_only(ts, stored, asked, i + 1);
            assert(all == misses_from(ts, stored, asked, i + 1));
        } else {
            law_cache_hands_on_misses_only(ts, stored, asked.push(key), i + 1);
            let rest = misses_from(ts, stored, asked.push(key), i + 1);
            assert forall|k: int| 0 <= k < all.len() implies !stored.contains(
                id_text(#[trigger] all[k], "v"@),
            ) by {
                if k > 0 {
                    assert(all[k] == rest[k - 1]);
                }
            }
            assert forall|j: int|
                i <= j < ts.len() && !stored.contains(id_text(#[trigger] ts[j], "v"@))
                    && !asked.contains(id_text(ts[j], "v"@)) implies exists|k: int|
                0 <= k < all.len() && id_text(#[trigger] all[k], "v"@) == id_text(ts[j], "v"@) by {
                if id_text(ts[j], "v"@) == key {
                    assert(id_text(all[0], "v"@) == key);
                } else {
                    let more = asked.push(key);
                    assert(!more.contains(id_text(ts[j], "v"@)));
                    let k = choose|k: int|
                        0 <= k < rest.len() && id_text(#[trigger] rest[k], "v"@) == id_text(
                            ts[j],
                            "v"@,
                        );
                    assert(all[k + 1] == rest[k]);
                }
            }
        }
    }
}

/// A cache once the vectors of the first `n` texts are put in.
pub open spec fn filled<V>(
    stored: Map<Seq<char>, V>,
    ts: Seq<Seq<char>>,
    vs: Seq<V>,
    n: int,
) -> Map<Seq<char>, V>
    decreases n,
{
    if n <= 0 {
        stored
    } else {
        filled(stored, ts, vs, n - 1).insert(id_text(ts[n - 1], "v"@), vs[n - 1])
    }
}

/// How many texts have a vector to go with.
pub open spec fn paired<V>(ts: Seq<Seq<char>>, vs: Seq<V>) -> int {
    if ts.len() <= vs.len() {
        ts.len() as int
    } else {
        vs.len() as int
    }
}

/// Puts the vectors of texts into a cache, one for each text as far as there are
/// vectors.
pub fn fill_cache<V>(store: &mut StrMap<V>, missing: &Vec<String>, vectors: Vec<V>)
    ensures
        final(store)@ == filled(
            old(store)@,
            texts(missing@),
            vectors@,
            paired(texts(missing@), vectors@),
        ),
{
    let ghost ts = texts(missing@);
    let ghost vs = vectors@;
    let ghost was = store@;
    let mut rest = vectors;
    let mut k: usize = 0;
    while k < missing.len() && rest.len() > 0
        invariant
            k <= missing@.len(),
            k <= vs.len(),
            ts == texts(missing@),
            rest@ == vs.skip(k as int),
            store@ == filled(was, ts, vs, k as int),
        decreases missing@.len() - k,
    {
        let v = rest.remove(0);
        assert(v == vs[k as int]);
        assert(vs.skip(k as int).remove(0) =~= vs.skip(k + 1));
        assert(ts[k as int] == missing@[k as int]@);
        store.insert(key_of(missing[k].as_str()), v);
        k = k + 1;
    }
}

/// The vectors of texts, each where the cache has one.
pub fn cached<'a, V>(store: &'a StrMap<V>, wanted: &Vec<String>) -> (r: Vec<Option<&'a V>>)
    ensures
        r@.len() == wanted@.len(),
        forall|i: int|
            0 <= i < r@.len() ==> match #[trigger] r@[i] {
                Some(v) => store@.contains_key(id_text(wanted@[i]@, "v"@))
                    && store@[id_text(wanted@[i]@, "v"@)] == *v,
                None => !store@.contains_key(id_text(wanted@[i]@, "v"@)),
            },
{
    let mut out: Vec<Option<&'a V>> = Vec::new();
    let mut i: usize = 0;
    while i < wanted.len()
        invariant
            i <= wanted@.len(),
            out@.len() == i,
            forall|j: int|
                0 <= j < i ==> match #[trigger] out@[j] {
                    Some(v) => store@.contains_key(id_text(wanted@[j]@, "v"@))
                        && store@[id_text(wanted@[j]@, "v"@)] == *v,
                    None => !store@.contains_key(id_text(wanted@[j]@, "v"@)),
                },
        decreases wanted@.len() - i,
    {
        let key = key_of(wanted[i].as_str());
        out.push(store.get(key.as_str()));
        i = i + 1;
    }
    out
}

/// No two texts that are handed on have one key, and none one that was asked for.
proof fn lemma_misses_differ(
    ts: Seq<Seq<char>>,
    stored: Set<Seq<char>>,
    asked: Seq<Seq<char>>,
    i: int,
)
    requires
        0 <= i,
    ensures
        ({
            let all = misses_from(ts, stored, asked, i);
            &&& forall|k: int| 0 <= k < all.len() ==> !asked.contains(id_text(#[trigger] all[k], "v"@))
            &&& forall|k: int, m: int|
                0 <= k < m < all.len() ==> id_text(#[trigger] all[k], "v"@) != id_text(
                    #[trigger] all[m],
                    "v"@,
                )
            &&& forall|k: int| 0 <= k < all.len() ==> ts.contains(#[trigger] all[k])
        }),
    decreases ts.len() - i,
{
    if i < ts.len() {
        let key = id_text(ts[i], "v"@);
        let all = misses_from(ts, stored, asked, i);
        if stored.contains(key) || asked.contains(key) {
            lemma_misses_differ(ts, stored, asked, i + 1);
            assert(all == misses_from(ts, stored, asked, i + 1));
        } else {
            let more = asked.push(key);
            lemma_misses_differ(ts, stored, more, i + 1);
            let rest = misses_from(ts, stored, more, i + 1);
            assert(more[asked.len() as int] == key);
            assert forall|k: int| 0 <= k < all.len() implies !asked.contains(
                id_text(#[trigger] all[k], "v"@),
            ) && ts.contains(all[k]) by {
                if k > 0 {
                    assert(all[k] == rest[k - 1]);
                    let other = id_text(all[k], "v"@);
                    if asked.contains(other) {
                        let p = choose|p: int| 0 <= p < asked.len() && asked[p] == other;
                        assert(more[p] == other);
                    }
                } else {
                    assert(ts[i] == all[0]);
                }
            }
            assert forall|k: int, m: int| 0 <= k < m < all.len() implies id_text(
                #[trigger] all[k],
                "v"@,
            ) != id_text(#[trigger] all[m], "v"@) by {
                assert(all[m] == rest[m - 1]);
                if k > 0 {
                    assert(all[k] == rest[k - 1]);
                } else {
                    assert(!more.contains(id_text(rest[m - 1], "v"@)));
                }
            }
        }
    }
}

proof fn lemma_filled<V>(
    stored: Map<Seq<char>, V>,
    ts: Seq<Seq<char>>,
    vs: Seq<V>,
    n: int,
    key: Seq<char>,
)
    requires
        0 <= n <= ts.len(),
        forall|k: int, m: int|
            0 <= k < m < n ==> id_text(#[trigger] ts[k], "v"@) != id_text(#[trigger] ts[m], "v"@),
    ensures
        forall|k: int|
            0 <= k < n && id_text(#[trigger] ts[k], "v"@) == key ==> filled(
                stored,
                ts,
                vs,
                n,
            ).contains_key(key) && filled(stored, ts, vs, n)[key] == vs[k],
        (forall|k: int| 0 <= k < n ==> id_text(#[trigger] ts[k], "v"@) != key) ==> filled(
            stored,
            ts,
            vs,
            n,
        ).contains_key(key) == stored.contains_key(key) && (stored.contains_key(key) ==> filled(
            stored,
            ts,
            vs,
            n,
        )[key] == stored[key]),
    decreases n,
{
    if n > 0 {
        lemma_filled(stored, ts, vs, n - 1, key);
        if forall|k: int| 0 <= k < n ==> id_text(#[trigger] ts[k], "v"@) != key {
            assert(id_text(ts[n - 1], "v"@) != key);
        }
    }
}

/// Every text gets its vector: the stored one, or, where none was stored, the one
/// that came back for it. Texts are told apart by their keys: of several with
/// one key the first is the one that is handed on.
pub proof fn law_every_text_gets_its_vector<V>(
    stored: Map<Seq<char>, V>,
    ts: Seq<Seq<char>>,
    vs: Seq<V>,
    i: int,
)
    requires
        0 <= i < ts.len(),
        vs.len() == misses_from(ts, stored.dom(), seq![], 0).len(),
    ensures
        ({
            let asked = misses_from(ts, stored.dom(), seq![], 0);
            let after = filled(stored, asked, vs, vs.len() as int);
            let key = id_text(ts[i], "v"@);
            &&& after.contains_key(key)
            &&& stored.contains_key(key) ==> after[key] == stored[key]
            &&& !stored.contains_key(key) ==> exists|k: int|
                0 <= k < asked.len() && id_text(#[trigger] asked[k], "v"@) == key && after[key]
                    == vs[k]
            &&& forall|k: int|
                0 <= k < asked.len() && #[trigger] asked[k] == ts[i] ==> after[key] == vs[k]
        }),
{
    let none = Seq::<Seq<char>>::empty();
    let asked = misses_from(ts, stored.dom(), none, 0);
    let after = filled(stored, asked, vs, vs.len() as int);
    let key = id_text(ts[i], "v"@);
    law_cache_hands_on_misses_only(ts, stored.dom(), none, 0);
    lemma_misses_differ(ts, stored.dom(), none, 0);
    lemma_filled(stored, asked, vs, vs.len() as int, key);
    if stored.contains_key(key) {
        assert forall|k: int| 0 <= k < asked.len() implies id_text(#[trigger] asked[k], "v"@)
            != key by {
            assert(!stored.dom().contains(id_text(asked[k], "v"@)));
        }
    } else {
        assert(!none.contains(id_text(ts[i], "v"@)));
        let k = choose|k: int| 0 <= k < asked.len() && id_text(#[trigger] asked[k], "v"@) == key;
        assert(after[key] == vs[k]);
    }
}

/// The texts from `i` on that are neither known nor asked for yet, each once, in
/// order of first appearance.
pub open spec fn fresh_from(
    ts: Seq<Seq<char>>,
    known: Set<Seq<char>>,
    asked: Seq<Seq<char>>,
    i: int,
) -> Seq<Seq<char>>
    decreases ts.len() - i,
{
    if i < 0 || i >= ts.len() {
        seq![]
    } else if known.contains(ts[i]) || asked.contains(ts[i]) {
        fresh_from(ts, known, asked, i + 1)
    } else {
        seq![ts[i]] + fresh_from(ts, known, asked.push(ts[i]), i + 1)
    }
}

/// Whether a text is known or wanted.
pub open spec fn at_hand(known: Set<Seq<char>>, ts: Seq<Seq<char>>, t: Seq<char>) -> bool {
    known.contains(t) || ts.contains(t)
}

/// Whether no two texts that are known or wanted have one key.
pub open spec fn told_apart(known: Set<Seq<char>>, ts: Seq<Seq<char>>) -> bool {
    forall|x: Seq<char>, y: Seq<char>|
        #[trigger] at_hand(known, ts, x) && #[trigger] at_hand(known, ts, y) && id_text(x, "v"@)
            == id_text(y, "v"@) ==> x == y
}

/// Whether a cache holds the vectors of the known texts, and no other.
pub open spec fn caches(stored: Set<Seq<char>>, known: Set<Seq<char>>) -> bool {
    &&& forall|x: Seq<char>| #[trigger] known.contains(x) ==> stored.contains(id_text(x, "v"@))
    &&& forall|k: Seq<char>| #[trigger]
        stored.contains(k) ==> exists|x: Seq<char>| #[trigger]
            known.contains(x) && id_text(x, "v"@) == k
}

proof fn lemma_misses_are_fresh(
    ts: Seq<Seq<char>>,
    stored: Set<Seq<char>>,
    known: Set<Seq<char>>,
    keys: Seq<Seq<char>>,
    asked: Seq<Seq<char>>,
    i: int,
)
    requires
        0 <= i,
        told_apart(known, ts),
        caches(stored, known),
        keys.len() == asked.len(),
        forall|k: int| 0 <= k < asked.len() ==> keys[k] == id_text(#[trigger] asked[k], "v"@),
        forall|k: int| 0 <= k < asked.len() ==> ts.contains(#[trigger] asked[k]),
    ensures
        misses_from(ts, stored, keys, i) == fresh_from(ts, known, asked, i),
    decreases ts.len() - i,
{
    if i < ts.len() {
        let t = ts[i];
        let key = id_text(t, "v"@);
        assert(at_hand(known, ts, t));
        assert(stored.contains(key) == known.contains(t)) by {
            if stored.contains(key) {
                let x = choose|x: Seq<char>| #[trigger]
                    known.contains(x) && id_text(x, "v"@) == key;
                assert(at_hand(known, ts, x));
            }
        }
        assert(keys.contains(key) == asked.contains(t)) by {
            if keys.contains(key) {
                let k = choose|k: int| 0 <= k < keys.len() && keys[k] == key;
                assert(ts.contains(asked[k]));
                assert(at_hand(known, ts, asked[k]));
                assert(asked[k] == t);
            }
            if asked.contains(t) {
                let k = choose|k: int| 0 <= k < asked.len() && asked[k] == t;
                assert(keys[k] == id_text(asked[k], "v"@));
            }
        }
        if known.contains(t) || asked.contains(t) {
            lemma_misses_are_fresh(ts, stored, known, keys, asked, i + 1);
        } else {
            let more = asked.push(t);
            assert forall|k: int| 0 <= k < more.len() implies ts.contains(#[trigger] more[k])
                && keys.push(key)[k] == id_text(more[k], "v"@) by {
                if k < asked.len() {
                    assert(more[k] == asked[k]);
                }
            }
            lemma_misses_are_fresh(ts, stored, known, keys.push(key), more, i + 1);
        }
    }
}

proof fn lemma_fresh(ts: Seq<Seq<char>>, known: Set<Seq<char>>, asked: Seq<Seq<char>>, i: int)
    requires
        0 <= i,
    ensures
        ({
            let all = fresh_from(ts, known, asked, i);
            &&& all.no_duplicates()
            &&& forall|t: Seq<char>| #[trigger]
                all.contains(t) <==> !known.contains(t) && !asked.contains(t) && exists|j: int|
                    i <= j < ts.len() && #[trigger] ts[j] == t
        }),
    decreases ts.len() - i,
{
    let all = fresh_from(ts, known, asked, i);
    if i < ts.len() {
        let t = ts[i];
        if known.contains(t) || asked.contains(t) {
            lemma_fresh(ts, known, asked, i + 1);
            assert forall|x: Seq<char>| #[trigger]
                all.contains(x) <==> !known.contains(x) && !asked.contains(x) && exists|j: int|
                    i <= j < ts.len() && #[trigger] ts[j] == x by {
                if exists|j: int| i <= j < ts.len() && #[trigger] ts[j] == x {
                    let j = choose|j: int| i <= j < ts.len() && #[trigger] ts[j] == x;
                    if j > i {
                        assert(i + 1 <= j && ts[j] == x);
                    }
                }
            }
        } else {
            let more = asked.push(t);
            let rest = fresh_from(ts, known, more, i + 1);
            lemma_fresh(ts, known, more, i + 1);
            assert(more[asked.len() as int] == t);
            assert(!rest.contains(t));
            assert forall|x: Seq<char>| more.contains(x) == (asked.contains(x) || x == t) by {
                if asked.contains(x) {
                    let k = choose|k: int| 0 <= k < asked.len() && asked[k] == x;
                    assert(more[k] == x);
                }
            }
            assert forall|x: Seq<char>| all.contains(x) == (rest.contains(x) || x == t) by {
                assert(all[0] == t);
                if rest.contains(x) {
                    let k = choose|k: int| 0 <= k < rest.len() && rest[k] == x;
                    assert(all[k + 1] == x);
                }
            }
            assert forall|x: Seq<char>| #[trigger]
                all.contains(x) <==> !known.contains(x) && !asked.contains(x) && exists|j: int|
                    i <= j < ts.len() && #[trigger] ts[j] == x by {
                if exists|j: int| i <= j < ts.len() && #[trigger] ts[j] == x {
                    let j = choose|j: int| i <= j < ts.len() && #[trigger] ts[j] == x;
                    if j > i {
                        assert(i + 1 <= j && ts[j] == x);
                    }
                }
                if x == t {
                    assert(ts[i] == x);
                }
            }
            assert forall|a: int, b: int|
                0 <= a < all.len() && 0 <= b < all.len() && a != b implies all[a] != all[b] by {
                if a == 0 {
                    assert(all[b] == rest[b - 1]);
                    assert(rest.contains(all[b]));
                } else if b == 0 {
                    assert(all[a] == rest[a - 1]);
                    assert(rest.contains(all[a]));
                } else {
                    assert(all[a] == rest[a - 1] && all[b] == rest[b - 1]);
                }
            }
        }
    }
}

/// Each text is embedded once: what is handed on are exactly the wanted texts that
/// are not known, each once, in order of first appearance. Each known text gets its
/// stored vector, and each other one the vector that came back for it. Where two
/// texts have one key they are one text to the cache, which is left out.
pub proof fn law_each_text_is_embedded_once<V>(
    stored: Map<Seq<char>, V>,
    known: Set<Seq<char>>,
    ts: Seq<Seq<char>>,
    vs: Seq<V>,
    i: int,
)
    requires
        told_apart(known, ts),
        caches(stored.dom(), known),
        0 <= i < ts.len(),
        vs.len() == fresh_from(ts, known, seq![], 0).len(),
    ensures
        ({
            let asked = fresh_from(ts, known, seq![], 0);
            let after = filled(stored, asked, vs, vs.len() as int);
            let key = id_text(ts[i], "v"@);
            &&& misses_from(ts, stored.dom(), seq![], 0) == asked
            &&& asked.no_duplicates()
            &&& forall|t: Seq<char>| #[trigger]
                asked.contains(t) <==> ts.contains(t) && !known.contains(t)
            &&& after.contains_key(key)
            &&& known.contains(ts[i]) ==> after[key] == stored[key]
            &&& !known.contains(ts[i]) ==> exists|k: int|
                0 <= k < asked.len() && #[trigger] asked[k] == ts[i] && after[key] == vs[k]
        }),
{
    let none = Seq::<Seq<char>>::empty();
    let asked = fresh_from(ts, known, none, 0);
    lemma_misses_are_fresh(ts, stored.dom(), known, none, none, 0);
    lemma_fresh(ts, known, none, 0);
    law_every_text_gets_its_vector(stored, ts, vs, i);
    assert forall|t: Seq<char>| #[trigger]
        asked.contains(t) <==> ts.contains(t) && !known.contains(t) by {
        if ts.contains(t) {
            let j = choose|j: int| 0 <= j < ts.len() && ts[j] == t;
            assert(ts[j] == t);
        }
    }
    assert(ts.contains(ts[i]));
    if !known.contains(ts[i]) {
        assert(asked.contains(ts[i]));
        let k = choose|k: int| 0 <= k < asked.len() && asked[k] == ts[i];
        assert(asked[k] == ts[i]);
    } else {
        assert(stored.dom().contains(id_text(ts[i], "v"@)));
    }
}

// ---------------------------------------------------------------------------
// The daemon
// ---------------------------------------------------------------------------

/// Where the daemon listens by default.
pub const DEFAULT_URL: &'static str = "http://localhost:11434";

/// The model that it is asked for by default.
pub const DEFAULT_MODEL: &'static str = "nomic-embed-text";

/// An embedder behind a local daemon.
#[derive(Debug)]
pub struct OllamaEmbedder {
    pub base_url: String,
    pub model: String,
    pub dim: usize,
}

/// What came back from the daemon.
#[derive(Debug)]
pub enum EmbedReply {
    /// The request failed, with what the transport said.
    Unreachable(String),
    /// The body was no JSON, with what the reader said.
    Malformed(String),
    /// The body.
    Body(Json),
}

/// The bits of the numbers that a row holds, where it holds numbers only.
pub open spec fn row_bits(items: Seq<JsonView>, n: int) -> Option<Seq<u64>>
    decreases n,
{
    if n <= 0 {
        Some(seq![])
    } else {
        match row_bits(items, n - 1) {
            Some(bits) => match items[n - 1] {
                JsonView::Number(x) => Some(bits.push(x.bits)),
                _ => None,
            },
            None => None,
        }
    }
}

/// The rows that a list of rows holds, where each is a list of numbers.
pub open spec fn rows_bits(rows: Seq<JsonView>, n: int) -> Option<Seq<Seq<u64>>>
    decreases n,
{
    if n <= 0 {
        Some(seq![])
    } else {
        match rows_bits(rows, n - 1) {
            Some(done) => match rows[n - 1] {
                JsonView::List(items) => match row_bits(items, items.len() as int) {
                    Some(bits) => Some(done.push(bits)),
                    None => None,
                },
                _ => None,
            },
            None => None,
        }
    }
}

/// The vectors of a response body: the numbers under `embeddings`.
pub open spec fn response_rows(v: JsonView) -> Option<Seq<Seq<u64>>> {
    match v {
        JsonView::Object(e) => match json_get(e, "embeddings"@) {
            Some(JsonView::List(rows)) => rows_bits(rows, rows.len() as int),
            _ => None,
        },
        _ => None,
    }
}

/// The model of vectors given by the bits of their numbers.
pub open spec fn bits_view(v: Seq<Vec<u64>>) -> Seq<Seq<u64>> {
    v.map_values(|r: Vec<u64>| r@)
}

fn parse_row(items: &Vec<Json>) -> (r: Option<Vec<u64>>)
    ensures
        match r {
            Some(bits) => row_bits(json_items(items@), items@.len() as int) == Some(bits@),
            None => row_bits(json_items(items@), items@.len() as int) is None,
        },
{
    let ghost all = json_items(items@);
    let mut out: Vec<u64> = Vec::new();
    let mut i: usize = 0;
    while i < items.len()
        invariant
            i <= items@.len(),
            all == json_items(items@),
            row_bits(all, i as int) == Some(out@),
        decreases items@.len() - i,
    {
        assert(all[i as int] == items@[i as int]@);
        match &items[i] {
            Json::Number(x) => out.push(x.bits),
            _ => {
                proof {
                    lemma_row_bits_none(all, i + 1, all.len() as int);
                }
                return None;
            },
        }
        i = i + 1;
    }
    Some(out)
}

proof fn lemma_row_bits_none(items: Seq<JsonView>, n: int, m: int)
    requires
        0 <= n <= m,
        row_bits(items, n) is None,
    ensures
        row_bits(items, m) is None,
    decreases m - n,
{
    if n < m {
        lemma_row_bits_none(items, n, m - 1);
    }
}

proof fn lemma_rows_bits_none(rows: Seq<JsonView>, n: int, m: int)
    requires
        0 <= n <= m,
        rows_bits(rows, n) is None,
    ensures
        rows_bits(rows, m) is None,
    decreases m - n,
{
    if n < m {
        lemma_rows_bits_none(rows, n, m - 1);
    }
}

/// The vectors of a response body, each number given by the bits of its
/// double; `None` where the body has another shape.
pub fn parse_embed_response(v: &Json) -> (r: Option<Vec<Vec<u64>>>)
    ensures
        match r {
            Some(rows) => response_rows(v@) == Some(bits_view(rows@)),
            None => response_rows(v@) is None,
        },
{
    proof {
        lemma_json_model(*v);
    }
    let entries = match v {
        Json::Object(e) => e,
        _ => {
            return None;
        },
    };
    let found = match entry_value(entries, "embeddings") {
        Some(j) => j,
        None => {
            return None;
        },
    };
    proof {
        lemma_json_model(*found);
    }
    let rows = match found {
        Json::List(rows) => rows,
        _ => {
            return None;
        },
    };
    let ghost all = json_items(rows@);
    let mut out: Vec<Vec<u64>> = Vec::new();
    let mut i: usize = 0;
    assert(bits_view(out@) =~= seq![]);
    while i < rows.len()
        invariant
            i <= rows@.len(),
            all == json_items(rows@),
            response_rows(v@) == rows_bits(all, all.len() as int),
            rows_bits(all, i as int) == Some(bits_view(out@)),
        decreases rows@.len() - i,
    {
        assert(all[i as int] == rows@[i as int]@);
        proof {
            lemma_json_model(rows@[i as int]);
        }
        match &rows[i] {
            Json::List(items) => match parse_row(items) {
                Some(bits) => {
                    let ghost prev = bits_view(out@);
                    let ghost bv = bits@;
                    out.push(bits);
                    assert(bits_view(out@) =~= prev.push(bv));
                },
                None => {
                    proof {
                        lemma_rows_bits_none(all, i + 1, all.len() as int);
                    }
                    return None;
                },
            },
            _ => {
                proof {
                    lemma_rows_bits_none(all, i + 1, all.len() as int);
                }
                return None;
            },
        }
        i = i + 1;
    }
    Some(out)
}

/// The model of what came back.
pub open spec fn reply_rows(base_url: Seq<char>, reply: EmbedReply) -> Result<
    Seq<Seq<u64>>,
    Seq<char>,
> {
    match reply {
        EmbedReply::Unreachable(e) => Err("Ollama unreachable at "@ + base_url + ": "@ + e@),
        EmbedReply::Malformed(e) => Err("Ollama /api/embed returned malformed JSON: "@ + e@),
        EmbedReply::Body(v) => match response_rows(v@) {
            Some(rows) => Ok(rows),
            None => Err("Ollama /api/embed response missing embeddings"@),
        },
    }
}

/// The vectors of a reply, or a message that says what went wrong.
pub fn read_reply(base_url: &str, reply: &EmbedReply) -> (r: Result<Vec<Vec<u64>>, String>)
    ensures
        match r {
            Ok(rows) => reply_rows(base_url@, *reply) == Ok::<Seq<Seq<u64>>, Seq<char>>(
                bits_view(rows@),
            ),
            Err(m) => reply_rows(base_url@, *reply) == Err::<Seq<Seq<u64>>, Seq<char>>(m@),
        },
{
    match reply {
        EmbedReply::Unreachable(e) => {
            let mut m = "Ollama unreachable at ".to_owned();
            m.append(base_url);
            m.append(": ");
            m.append(e.as_str());
            Err(m)
        },
        EmbedReply::Malformed(e) => {
            let mut m = "Ollama /api/embed returned malformed JSON: ".to_owned();
            m.append(e.as_str());
            Err(m)
        },
        EmbedReply::Body(v) => match parse_embed_response(v) {
            Some(rows) => Ok(rows),
            None => Err("Ollama /api/embed response missing embeddings".to_owned()),
        },
    }
}

/// Whether a reply can stand for the vectors of `wanted` texts: as many rows as
/// texts. Where it cannot, zero vectors stand in, so that retrieval never
/// fails because of the daemon.
pub fn reply_fits(base_url: &str, reply: &EmbedReply, wanted: usize) -> (r: bool)
    ensures
        r == (reply_rows(base_url@, *reply) matches Ok(rows) && rows.len() == wanted),
{
    match read_reply(base_url, reply) {
        Ok(rows) => {
            assert(bits_view(rows@).len() == rows@.len());
            rows.len() == wanted
        },
        Err(_) => false,
    }
}

impl OllamaEmbedder {
    /// Reads the reply to a one-word embed: the embedder with the model's real
    /// dimension, or a message for the fallback log.
    pub fn probe(base_url: &str, model: &str, reply: &EmbedReply) -> (r: Result<Self, String>)
        ensures
            match reply_rows(base_url@, *reply) {
                Err(m) => r matches Err(e) && e@ == m,
                Ok(rows) => if rows.len() > 0 && rows[0].len() > 0 {
                    r matches Ok(o) && o.base_url@ == base_url@ && o.model@ == model@ && o.dim
                        == rows[0].len()
                } else {
                    r matches Err(e) && e@ == "model "@ + debug_text(model@)
                        + " returned no embedding — is it pulled? (ollama pull "@ + model@ + ")"@
                },
            },
    {
        let rows = match read_reply(base_url, reply) {
            Ok(rows) => rows,
            Err(m) => {
                return Err(m);
            },
        };
        if rows.len() > 0 && rows[0].len() > 0 {
            assert(bits_view(rows@)[0] == rows@[0]@);
            Ok(
                OllamaEmbedder {
                    base_url: base_url.to_owned(),
                    model: model.to_owned(),
                    dim: rows[0].len(),
                },
            )
        } else {
            proof {
                if rows@.len() > 0 {
                    assert(bits_view(rows@)[0] == rows@[0]@);
                }
            }
            let mut m = "model ".to_owned();
            m.append(quoted(model).as_str());
            m.append(" returned no embedding — is it pulled? (ollama pull ");
            m.append(model);
            m.append(")");
            Err(m)
        }
    }
}

} // verus!

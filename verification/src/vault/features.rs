//! What the features of a text are, and how they are counted.
use crate::vault::embed::{
    bucket, bucket_count, features_from, fnv, response_rows, row_bits, rows_bits, token_end,
    token_features, tokens_from,
};
use crate::vault::json::{json_get, JsonView};
use vstd::prelude::*;

verus! {

/// Whether `c` is a small letter or a digit.
pub open spec fn in_token(c: char) -> bool {
    ('a' as int <= c as int && c as int <= 'z' as int) || ('0' as int <= c as int && c as int
        <= '9' as int)
}

proof fn lemma_run_end(s: Seq<char>, i: int, j: int)
    requires
        0 <= i <= j <= s.len(),
        forall|k: int| i <= k < j ==> in_token(#[trigger] s[k]),
        j < s.len() ==> !in_token(s[j]),
    ensures
        token_end(s, i) == j,
    decreases j - i,
{
    if i < j {
        assert(in_token(s[i]));
        lemma_run_end(s, i + 1, j);
    }
}

proof fn lemma_end_shape(s: Seq<char>, i: int)
    requires
        0 <= i <= s.len(),
    ensures
        i <= token_end(s, i) <= s.len(),
        forall|k: int| i <= k < token_end(s, i) ==> in_token(#[trigger] s[k]),
        token_end(s, i) < s.len() ==> !in_token(s[token_end(s, i)]),
    decreases s.len() - i,
{
    if i < s.len() && in_token(s[i]) {
        lemma_end_shape(s, i + 1);
    }
}

proof fn lemma_tokens_behind(p: Seq<char>, y: Seq<char>, i: int)
    requires
        0 <= i <= y.len(),
    ensures
        tokens_from(p + y, p.len() + i) == tokens_from(y, i),
    decreases y.len() - i,
{
    let s = p + y;
    let n: int = p.len() as int;
    if i < y.len() {
        assert(s[n + i] == y[i]);
        if in_token(y[i]) {
            lemma_end_shape(y, i);
            let j = token_end(y, i);
            assert(j > i) by {
                if j == i {
                    assert(!in_token(y[i]));
                }
            }
            assert forall|k: int| n + i <= k < n + j implies in_token(#[trigger] s[k]) by {
                assert(s[k] == y[k - n]);
            }
            if n + j < s.len() {
                assert(s[n + j] == y[j]);
            }
            lemma_run_end(s, n + i, n + j);
            assert(s.subrange(n + i, n + j) =~= y.subrange(i, j));
            lemma_tokens_behind(p, y, j);
        } else {
            lemma_tokens_behind(p, y, i + 1);
        }
    }
}

proof fn lemma_tokens_before(x: Seq<char>, c: char, y: Seq<char>, i: int)
    requires
        !in_token(c),
        0 <= i <= x.len(),
    ensures
        tokens_from(x + seq![c] + y, i) == tokens_from(x, i) + tokens_from(y, 0),
    decreases x.len() - i,
{
    let s = x + seq![c] + y;
    let n: int = x.len() as int;
    if i < n {
        assert(s[i] == x[i]);
        if in_token(x[i]) {
            lemma_end_shape(x, i);
            let j = token_end(x, i);
            assert(j > i) by {
                if j == i {
                    assert(!in_token(x[i]));
                }
            }
            assert forall|k: int| i <= k < j implies in_token(#[trigger] s[k]) by {
                assert(s[k] == x[k]);
            }
            if j < n {
                assert(s[j] == x[j]);
            } else {
                assert(s[j] == c);
            }
            lemma_run_end(s, i, j);
            assert(s.subrange(i, j) =~= x.subrange(i, j));
            lemma_tokens_before(x, c, y, j);
            assert(tokens_from(s, i) =~= tokens_from(x, i) + tokens_from(y, 0));
        } else {
            lemma_tokens_before(x, c, y, i + 1);
        }
    } else {
        assert(s[n] == c);
        let p = x + seq![c];
        assert(s =~= p + y);
        lemma_tokens_behind(p, y, 0);
        assert(tokens_from(s, n) == tokens_from(s, n + 1));
        assert(tokens_from(x, n) =~= seq![]);
        assert(tokens_from(s, n) =~= tokens_from(x, n) + tokens_from(y, 0));
    }
}

/// Anything but a small letter or a digit parts tokens, and belongs to none; what holds
/// nothing else is one token.
pub proof fn law_tokens_are_runs(x: Seq<char>, c: char, y: Seq<char>)
    ensures
        !in_token(c) ==> tokens_from(x + seq![c] + y, 0) == tokens_from(x, 0) + tokens_from(y, 0),
        x.len() > 0 && (forall|k: int| 0 <= k < x.len() ==> in_token(#[trigger] x[k]))
            ==> tokens_from(x, 0) == seq![x],
        x.len() == 0 ==> tokens_from(x, 0).len() == 0,
{
    if !in_token(c) {
        lemma_tokens_before(x, c, y, 0);
    }
    if x.len() > 0 && (forall|k: int| 0 <= k < x.len() ==> in_token(#[trigger] x[k])) {
        lemma_run_end(x, 0, x.len() as int);
        assert(in_token(x[0]));
        assert(x.subrange(0, x.len() as int) =~= x);
        assert(tokens_from(x, x.len() as int) =~= seq![]);
        assert(tokens_from(x, 0) =~= seq![x]);
    }
}

/// A token has one feature of its own, and one for each of its characters: the character
/// with its neighbours, where a mark stands for a neighbour that is not there.
pub proof fn law_a_feature_shows_a_character_and_its_neighbours(t: Seq<char>, i: int)
    requires
        0 <= i < t.len(),
    ensures
        token_features(t).len() == t.len() + 1,
        token_features(t)[0] == seq!['w', ':'] + t,
        token_features(t)[i + 1] == seq![
            't',
            ':',
            if i == 0 {
                '#'
            } else {
                t[i - 1]
            },
            t[i],
            if i + 1 == t.len() {
                '#'
            } else {
                t[i + 1]
            },
        ],
{
    reveal_strlit("#");
    reveal_strlit("w:");
    reveal_strlit("t:");
    let padded = "#"@ + t + "#"@;
    assert(token_features(t)[0] =~= seq!['w', ':'] + t);
    let f = token_features(t)[i + 1];
    assert(f == "t:"@ + padded.subrange(i, i + 3));
    assert(f[0] == 't' && f[1] == ':');
    assert(f[2] == padded[i] && f[3] == padded[i + 1] && f[4] == padded[i + 2]);
    assert(f =~= seq![
        't',
        ':',
        if i == 0 {
            '#'
        } else {
            t[i - 1]
        },
        t[i],
        if i + 1 == t.len() {
            '#'
        } else {
            t[i + 1]
        },
    ]);
}

proof fn lemma_features_on(a: Seq<Seq<char>>, b: Seq<Seq<char>>, k: int)
    requires
        0 <= k <= a.len(),
    ensures
        features_from(a + b, k) == features_from(a, k) + features_from(b, 0),
    decreases a.len() - k,
{
    if k < a.len() {
        assert((a + b)[k] == a[k]);
        lemma_features_on(a, b, k + 1);
        assert(features_from(a + b, k) =~= features_from(a, k) + features_from(b, 0));
    } else {
        lemma_features_shift(a, b, 0);
        assert(features_from(a + b, k) =~= features_from(a, k) + features_from(b, 0));
    }
}

proof fn lemma_features_shift(a: Seq<Seq<char>>, b: Seq<Seq<char>>, k: int)
    requires
        0 <= k <= b.len(),
    ensures
        features_from(a + b, a.len() + k) == features_from(b, k),
    decreases b.len() - k,
{
    if k < b.len() {
        assert((a + b)[a.len() + k] == b[k]);
        lemma_features_shift(a, b, k + 1);
    }
}

/// The features of tokens are those of each, one token behind the other.
pub proof fn law_features_come_token_by_token(a: Seq<Seq<char>>, t: Seq<char>)
    ensures
        features_from(a + seq![t], 0) == features_from(a, 0) + token_features(t),
        features_from(seq![], 0).len() == 0,
{
    lemma_features_on(a, seq![t], 0);
    assert(features_from(seq![t], 1) =~= seq![]);
    assert(features_from(seq![t], 0) =~= token_features(t));
}

proof fn lemma_count_prefix(a: Seq<Seq<char>>, b: Seq<Seq<char>>, dim: nat, at: int, n: int)
    requires
        0 <= n <= a.len(),
        n <= b.len(),
        forall|k: int| 0 <= k < n ==> #[trigger] a[k] == b[k],
    ensures
        bucket_count(a, dim, at, n) == bucket_count(b, dim, at, n),
    decreases n,
{
    if n > 0 {
        lemma_count_prefix(a, b, dim, at, n - 1);
        assert(a[n - 1] == b[n - 1]);
    }
}

/// One feature more is one more in its own bucket, and in no other.
pub proof fn law_each_feature_counts_in_its_bucket(
    fs: Seq<Seq<char>>,
    f: Seq<char>,
    dim: nat,
    at: int,
)
    requires
        dim > 0,
    ensures
        0 <= bucket(f, dim) < dim,
        bucket_count(seq![], dim, at, 0) == 0,
        bucket(f, dim) == at ==> bucket_count(fs.push(f), dim, at, fs.len() as int + 1) == bucket_count(
            fs,
            dim,
            at,
            fs.len() as int,
        ) + 1,
        bucket(f, dim) != at ==> bucket_count(fs.push(f), dim, at, fs.len() as int + 1) == bucket_count(
            fs,
            dim,
            at,
            fs.len() as int,
        ),
{
    lemma_count_prefix(fs.push(f), fs, dim, at, fs.len() as int);
    assert(fs.push(f)[fs.len() as int] == f);
}

/// One byte more is mixed into the hash, which is then stretched: the lower 32 bits of the
/// product count, and nothing of it but a multiple of their range is dropped.
pub proof fn law_a_hash_takes_in_every_byte(bytes: Seq<u8>, b: u8) -> (q: int)
    ensures
        fnv(bytes.push(b), bytes.len() as int + 1) as int + q * 0x1_0000_0000 == (fnv(
            bytes,
            bytes.len() as int,
        ) ^ (b as u32)) as int * 16_777_619,
        fnv(bytes, 0) as int == 2_166_136_261,
{
    let n: int = bytes.len() as int;
    lemma_fnv_prefix(bytes.push(b), bytes, n);
    assert(bytes.push(b)[n] == b);
    let p = (fnv(bytes, n) ^ (b as u32)) as int * 0x0100_0193;
    assert(0 <= p % 0x1_0000_0000 < 0x1_0000_0000);
    p / 0x1_0000_0000
}

proof fn lemma_fnv_prefix(a: Seq<u8>, b: Seq<u8>, n: int)
    requires
        0 <= n <= a.len(),
        n <= b.len(),
        forall|k: int| 0 <= k < n ==> #[trigger] a[k] == b[k],
    ensures
        fnv(a, n) == fnv(b, n),
    decreases n,
{
    if n > 0 {
        lemma_fnv_prefix(a, b, n - 1);
        assert(a[n - 1] == b[n - 1]);
    }
}

// ---------------------------------------------------------------------------
// Responses
// ---------------------------------------------------------------------------

proof fn lemma_row(items: Seq<JsonView>, n: int)
    requires
        0 <= n <= items.len(),
    ensures
        row_bits(items, n) is Some <==> forall|k: int| 0 <= k < n ==> #[trigger] items[k] is Number,
        row_bits(items, n) is Some ==> row_bits(items, n)->0.len() == n && forall|k: int|
            0 <= k < n ==> (#[trigger] items[k] matches JsonView::Number(x) && row_bits(
                items,
                n,
            )->0[k] == x.bits),
    decreases n,
{
    if n > 0 {
        lemma_row(items, n - 1);
        if row_bits(items, n) is None && row_bits(items, n - 1) is Some {
            assert(!(items[n - 1] is Number));
        }
    }
}

proof fn lemma_rows(rows: Seq<JsonView>, n: int, k: int)
    requires
        0 <= k < n <= rows.len(),
        rows_bits(rows, n) is Some,
    ensures
        rows_bits(rows, n)->0.len() == n,
        rows[k] matches JsonView::List(items) && row_bits(items, items.len() as int) == Some(
            rows_bits(rows, n)->0[k],
        ),
    decreases n,
{
    if k < n - 1 {
        lemma_rows(rows, n - 1, k);
    } else {
        lemma_rows_len(rows, n - 1);
    }
}

proof fn lemma_rows_len(rows: Seq<JsonView>, n: int)
    requires
        0 <= n <= rows.len(),
        rows_bits(rows, n) is Some,
    ensures
        rows_bits(rows, n)->0.len() == n,
    decreases n,
{
    if n > 0 {
        lemma_rows_len(rows, n - 1);
    }
}

/// A response gives back the numbers that stand in it, row by row and in their order.
pub proof fn law_a_response_gives_its_numbers(
    e: Seq<(Seq<char>, JsonView)>,
    rows: Seq<JsonView>,
    k: int,
    i: int,
)
    requires
        json_get(e, "embeddings"@) == Some(JsonView::List(rows)),
        0 <= k < rows.len(),
        response_rows(JsonView::Object(e)) is Some,
    ensures
        response_rows(JsonView::Object(e))->0.len() == rows.len(),
        rows[k] matches JsonView::List(items) && response_rows(JsonView::Object(e))->0[k].len()
            == items.len() && (0 <= i < items.len() ==> (items[i] matches JsonView::Number(x)
            && response_rows(JsonView::Object(e))->0[k][i] == x.bits)),
{
    lemma_rows(rows, rows.len() as int, k);
    let items = rows[k]->List_0;
    lemma_row(items, items.len() as int);
}

/// A response without its rows, and one with a row that holds anything but numbers, gives
/// nothing.
pub proof fn law_a_response_without_numbers_gives_nothing(
    e: Seq<(Seq<char>, JsonView)>,
    k: int,
    i: int,
)
    ensures
        json_get(e, "embeddings"@) is None ==> response_rows(JsonView::Object(e)) is None,
        json_get(e, "embeddings"@) matches Some(JsonView::List(rows)) ==> (0 <= k < rows.len()
            ==> match rows[k] {
            JsonView::List(items) => 0 <= i < items.len() && !(items[i] is Number)
                ==> response_rows(JsonView::Object(e)) is None,
            _ => response_rows(JsonView::Object(e)) is None,
        }),
{
    if let Some(JsonView::List(rows)) = json_get(e, "embeddings"@) {
        if 0 <= k < rows.len() && response_rows(JsonView::Object(e)) is Some {
            lemma_rows(rows, rows.len() as int, k);
            if rows[k] is List {
                let items = rows[k]->List_0;
                lemma_row(items, items.len() as int);
            }
        }
    }
}

} // verus!

//! Stable ids: the backbone of idempotency.
use sha2::Digest;
use vstd::prelude::*;
use vstd::string::*;
use vstd::utf8::*;

verus! {

/// The SHA-256 digest of a byte string, as `sha2::Sha256::digest` gives it.
pub uninterp spec fn sha256_digest(data: Seq<u8>) -> Seq<u8>;

/// `sha2::Sha256::digest`: the digest is a function of the bytes and has 32 bytes.
#[verifier::external_body]
pub(crate) fn sha256(data: &[u8]) -> (r: Vec<u8>)
    ensures
        r@ == sha256_digest(data@),
        r@.len() == 32,
{
    sha2::Sha256::digest(data).to_vec()
}

/// The lower-case hexadecimal digit of the value `n`.
pub open spec fn hex_digit(n: int) -> char {
    if n < 10 {
        ('0' as int + n) as char
    } else {
        ('a' as int + n - 10) as char
    }
}

/// The hexadecimal text of some bytes, two digits for each.
pub open spec fn hex(bytes: Seq<u8>) -> Seq<char>
    decreases bytes.len(),
{
    if bytes.len() == 0 {
        seq![]
    } else {
        hex(bytes.drop_last()).push(hex_digit(bytes.last() as int / 16)).push(
            hex_digit(bytes.last() as int % 16),
        )
    }
}

/// The id made of the first eight bytes of a digest.
pub open spec fn digest_id(digest: Seq<u8>, prefix: Seq<char>) -> Seq<char> {
    let n = if digest.len() < 8 {
        digest.len() as int
    } else {
        8
    };
    prefix + "_"@ + hex(digest.take(n))
}

/// The stable id of a seed.
pub open spec fn id_text(seed: Seq<char>, prefix: Seq<char>) -> Seq<char> {
    digest_id(sha256_digest(encode_utf8(seed)), prefix)
}

pub(crate) fn hex_char(n: u8) -> (c: char)
    requires
        n < 16,
    ensures
        c == hex_digit(n as int),
{
    if n < 10 {
        (0x30u8 + n) as char
    } else {
        (0x61u8 + (n - 10)) as char
    }
}

proof fn lemma_hex_len(bytes: Seq<u8>)
    ensures
        hex(bytes).len() == 2 * bytes.len(),
    decreases bytes.len(),
{
    if bytes.len() > 0 {
        lemma_hex_len(bytes.drop_last());
    }
}

/// The id of an already computed digest: the prefix, an underscore, and the
/// first eight bytes in hexadecimal.
pub fn id_of_digest(digest: &Vec<u8>, prefix: &str) -> (r: String)
    ensures
        r@ == digest_id(digest@, prefix@),
        digest@.len() >= 8 ==> r@.len() == prefix@.len() + 17,
{
    let mut out = prefix.to_owned();
    out.append("_");
    let ghost head = out@;
    let n: usize = if digest.len() < 8 {
        digest.len()
    } else {
        8
    };
    let mut i: usize = 0;
    assert(digest@.take(0) =~= seq![]);
    assert(out@ =~= head + hex(digest@.take(0)));
    while i < n
        invariant
            i <= n <= digest@.len(),
            out@ == head + hex(digest@.take(i as int)),
        decreases n - i,
    {
        let b: u8 = digest[i];
        let ghost prev = out@;
        out.push(hex_char(b / 16));
        out.push(hex_char(b % 16));
        assert(digest@.take(i + 1).drop_last() =~= digest@.take(i as int));
        assert(digest@.take(i + 1).last() == b);
        assert(out@ =~= head + hex(digest@.take(i + 1)));
        i = i + 1;
    }
    proof {
        lemma_hex_len(digest@.take(n as int));
        reveal_strlit("_");
    }
    out
}

/// The deterministic id of a seed: SHA-256 in hexadecimal, first sixteen
/// digits, prefixed. Same seed, same id.
pub fn stable_id(seed: &str, prefix: &str) -> (r: String)
    ensures
        r@ == id_text(seed@, prefix@),
        r@.len() == prefix@.len() + 17,
{
    let digest = sha256(seed.as_bytes());
    id_of_digest(&digest, prefix)
}

} // verus!

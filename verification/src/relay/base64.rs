//! Base64, in which blobs travel and are stored.
use vstd::prelude::*;

verus! {

/// The base64 text of bytes, in the standard alphabet with padding.
pub uninterp spec fn b64_text(bytes: Seq<u8>) -> Seq<char>;

/// The bytes that a text in base64 stands for, if it is base64.
pub uninterp spec fn b64_bytes(text: Seq<char>) -> Option<Seq<u8>>;

/// `encode` of the `STANDARD` engine of the base64 crate: the text is a
/// function of the bytes, and decoding it gives the bytes back.
#[verifier::external_body]
pub(crate) fn b64_encode(bytes: &Vec<u8>) -> (r: String)
    ensures
        r@ == b64_text(bytes@),
        b64_bytes(r@) == Some(bytes@),
{
    base64::Engine::encode(&base64::engine::general_purpose::STANDARD, bytes)
}

/// `decode` of the `STANDARD` engine of the base64 crate: the bytes are a
/// function of the text; `None` where the crate reports an error.
#[verifier::external_body]
pub(crate) fn b64_decode(text: &str) -> (r: Option<Vec<u8>>)
    ensures
        match r {
            Some(bytes) => b64_bytes(text@) == Some(bytes@),
            None => b64_bytes(text@) is None,
        },
{
    base64::Engine::decode(&base64::engine::general_purpose::STANDARD, text).ok()
}

/// A copy of bytes.
pub(crate) fn copy_bytes(bytes: &Vec<u8>) -> (r: Vec<u8>)
    ensures
        r@ == bytes@,
{
    let mut out: Vec<u8> = Vec::new();
    let mut i: usize = 0;
    while i < bytes.len()
        invariant
            i <= bytes@.len(),
            out@ == bytes@.take(i as int),
        decreases bytes@.len() - i,
    {
        out.push(bytes[i]);
        assert(bytes@.take(i + 1) =~= bytes@.take(i as int).push(bytes@[i as int]));
        i = i + 1;
    }
    assert(bytes@.take(i as int) =~= bytes@);
    out
}

} // verus!

//! The events of the payment provider: their signatures, the fields that count,
//! and what each event does to an entitlement.
use crate::ids::{hex, hex_digit};
use crate::numbers::{
    dec, dec_int, int_of, is_digit, law_decimal_reads_back, lemma_dec_digits, parse_i64, render_i64,
};
use crate::relay::hub::{is_vault_id, valid_vault_id as is_valid_vault_id};
use crate::strmap::StrMap;
use crate::text::{
    chars_of, find_char, has_prefix, is_white, lemma_next_char_is, lemma_trim_fixed, next_char,
    split_char, split_from, split_on, starts_with, str_eq, string_range, texts, trim, trim_str,
};
use hmac::Mac;
use vstd::prelude::*;
use vstd::string::*;
use vstd::utf8::*;

verus! {

/// How many seconds the time of a signature may be off.
pub const SIGNATURE_TOLERANCE_SECS: i64 = 300;

/// Whether a text is the id of a vault. Anything else reaches neither the
/// payment provider nor the entitlements.
pub fn valid_vault_id(vault_id: &str) -> (r: bool)
    ensures
        r == is_vault_id(vault_id@),
{
    is_valid_vault_id(vault_id)
}

// ---------------------------------------------------------------------------
// Hexadecimal
// ---------------------------------------------------------------------------

/// Whether a character is a hexadecimal digit.
pub open spec fn is_hex(c: char) -> bool {
    '0' <= c <= '9' || 'a' <= c <= 'f' || 'A' <= c <= 'F'
}

/// The value of a hexadecimal digit.
pub open spec fn nibble(c: char) -> int {
    if '0' <= c <= '9' {
        c as int - '0' as int
    } else if 'a' <= c <= 'f' {
        c as int - 'a' as int + 10
    } else {
        c as int - 'A' as int + 10
    }
}

/// The bytes that a hexadecimal text stands for: two digits for each.
pub open spec fn hex_bytes(s: Seq<char>) -> Option<Seq<u8>> {
    if s.len() % 2 == 0 && forall|i: int| 0 <= i < s.len() ==> is_hex(#[trigger] s[i]) {
        Some(
            Seq::new(
                s.len() / 2,
                |i: int| (16 * nibble(s[2 * i]) + nibble(s[2 * i + 1])) as u8,
            ),
        )
    } else {
        None
    }
}

fn hex_value(c: char) -> (r: Option<u8>)
    ensures
        match r {
            Some(n) => is_hex(c) && n == nibble(c) && n < 16,
            None => !is_hex(c),
        },
{
    let n: u32 = c as u32;
    if '0' <= c && c <= '9' {
        Some((n - 0x30) as u8)
    } else if 'a' <= c && c <= 'f' {
        Some((n - 0x61 + 10) as u8)
    } else if 'A' <= c && c <= 'F' {
        Some((n - 0x41 + 10) as u8)
    } else {
        None
    }
}

/// Decodes a hexadecimal text; `None` on an odd length or another character.
pub fn hex_decode(s: &str) -> (r: Option<Vec<u8>>)
    ensures
        match r {
            Some(b) => hex_bytes(s@) == Some(b@),
            None => hex_bytes(s@) is None,
        },
{
    let v = chars_of(s);
    let n: usize = v.len();
    if n % 2 != 0 {
        return None;
    }
    let half: usize = n / 2;
    let mut out: Vec<u8> = Vec::new();
    let mut i: usize = 0;
    while i < half
        invariant
            v@ == s@,
            n == v@.len(),
            n == 2 * half,
            i <= half,
            out@.len() == i,
            forall|k: int| 0 <= k < 2 * i ==> is_hex(#[trigger] s@[k]),
            forall|k: int|
                0 <= k < i ==> #[trigger] out@[k] == (16 * nibble(s@[2 * k]) + nibble(
                    s@[2 * k + 1],
                )) as u8,
        decreases half - i,
    {
        let hi: u8 = match hex_value(v[2 * i]) {
            Some(h) => h,
            None => {
                assert(!is_hex(s@[2 * i as int]));
                return None;
            },
        };
        let lo: u8 = match hex_value(v[2 * i + 1]) {
            Some(l) => l,
            None => {
                assert(!is_hex(s@[2 * i as int + 1]));
                return None;
            },
        };
        out.push(16 * hi + lo);
        i = i + 1;
    }
    assert(hex_bytes(s@) is Some);
    assert(out@ =~= hex_bytes(s@)->0);
    Some(out)
}

/// Decoding the hexadecimal text of bytes gives the bytes back.
pub proof fn law_hex_reads_back(bytes: Seq<u8>)
    ensures
        hex_bytes(hex(bytes)) == Some(bytes),
    decreases bytes.len(),
{
    let s = hex(bytes);
    if bytes.len() == 0 {
        assert(hex_bytes(s)->0 =~= bytes);
    } else {
        let head = bytes.drop_last();
        law_hex_reads_back(head);
        let h = hex(head);
        let b = bytes.last() as int;
        assert(hex_bytes(h) is Some);
        assert(h.len() == 2 * head.len()) by {
            assert(hex_bytes(h)->0.len() == head.len());
        }
        assert(s.len() == h.len() + 2);
        assert(s[s.len() - 2] == hex_digit(b / 16));
        assert(s[s.len() - 1] == hex_digit(b % 16));
        assert forall|i: int| 0 <= i < s.len() implies is_hex(#[trigger] s[i]) by {
            if i < h.len() {
                assert(s[i] == h[i]);
            }
        }
        let r = hex_bytes(s)->0;
        assert forall|i: int| 0 <= i < bytes.len() implies #[trigger] r[i] == bytes[i] by {
            if i < head.len() {
                assert(s[2 * i] == h[2 * i] && s[2 * i + 1] == h[2 * i + 1]);
                assert(hex_bytes(h)->0[i] == head[i]);
            } else {
                assert(16 * (b / 16) + b % 16 == b);
            }
        }
        assert(r =~= bytes);
    }
}

// ---------------------------------------------------------------------------
// Signatures
// ---------------------------------------------------------------------------

/// What a signature header holds: its time, and every signature of the scheme
/// that counts.
#[verifier::ext_equal]
pub struct SigView {
    pub t: Option<i64>,
    pub v1s: Seq<Seq<char>>,
}

/// The time that a text spells.
pub open spec fn time_named(raw: Seq<char>) -> Option<i64> {
    match int_of(raw) {
        Some(n) => if i64::MIN <= n <= i64::MAX {
            Some(n as i64)
        } else {
            None
        },
        None => None,
    }
}

/// A header after one more part: `t=` sets the time, `v1=` adds a signature,
/// anything else is passed over.
pub open spec fn with_sig_part(s: SigView, part: Seq<char>) -> SigView {
    let p = trim(part);
    let j = next_char(p, '=', 0);
    if j >= p.len() {
        s
    } else if p.take(j) == "t"@ {
        SigView { t: time_named(p.skip(j + 1)), ..s }
    } else if p.take(j) == "v1"@ {
        SigView { v1s: s.v1s.push(p.skip(j + 1)), ..s }
    } else {
        s
    }
}

/// A header after the first `n` parts.
pub open spec fn sig_parts(parts: Seq<Seq<char>>, n: int) -> SigView
    decreases n,
{
    if n <= 0 {
        SigView { t: None, v1s: seq![] }
    } else {
        with_sig_part(sig_parts(parts, n - 1), parts[n - 1])
    }
}

/// The time and the signatures of a header; `None` where either is missing.
pub open spec fn header_read(header: Seq<char>) -> Option<(i64, Seq<Seq<char>>)> {
    let parts = split_on(header, ',');
    let s = sig_parts(parts, parts.len() as int);
    match s.t {
        Some(t) => if s.v1s.len() > 0 {
            Some((t, s.v1s))
        } else {
            None
        },
        None => None,
    }
}

/// Reads a header such as `t=1712345678,v1=abc,v1=old,v0=ignored`.
pub fn parse_sig_header(header: &str) -> (r: Option<(i64, Vec<String>)>)
    ensures
        match r {
            Some(x) => header_read(header@) == Some((x.0, texts(x.1@))),
            None => header_read(header@) is None,
        },
{
    let parts = split_char(header, ',');
    let ghost ps = texts(parts@);
    let mut t: Option<i64> = None;
    let mut v1s: Vec<String> = Vec::new();
    let mut i: usize = 0;
    assert(texts(v1s@) =~= seq![]);
    while i < parts.len()
        invariant
            i <= parts@.len(),
            ps == texts(parts@),
            sig_parts(ps, i as int) == (SigView { t, v1s: texts(v1s@) }),
        decreases parts@.len() - i,
    {
        assert(ps[i as int] == parts@[i as int]@);
        let part = trim_str(parts[i].as_str());
        let v = chars_of(part.as_str());
        let j: usize = find_char(&v, '=', 0);
        if j < v.len() {
            let key = string_range(&v, 0, j);
            let value = string_range(&v, j + 1, v.len());
            assert(key@ =~= part@.take(j as int));
            assert(value@ =~= part@.skip(j + 1));
            if str_eq(key.as_str(), "t") {
                t = parse_i64(value.as_str());
            } else if str_eq(key.as_str(), "v1") {
                let ghost prev = texts(v1s@);
                let ghost val = value@;
                v1s.push(value);
                assert(texts(v1s@) =~= prev.push(val));
            }
        }
        i = i + 1;
    }
    match t {
        Some(time) => if v1s.len() > 0 {
            Some((time, v1s))
        } else {
            None
        },
        None => None,
    }
}

/// The HMAC-SHA256 of a message under a key.
pub uninterp spec fn hmac_sha256(key: Seq<u8>, message: Seq<u8>) -> Seq<u8>;

/// `Hmac::<Sha256>` of the hmac crate: `new_from_slice` takes a key of any
/// length, `update` takes the message, and `verify_slice` accepts exactly the
/// tag of the message under the key, of full length.
#[verifier::external_body]
fn mac_matches(key: &[u8], message: &Vec<u8>, tag: &Vec<u8>) -> (r: bool)
    ensures
        r == (hmac_sha256(key@, message@) == tag@),
{
    match hmac::Hmac::<sha2::Sha256>::new_from_slice(key) {
        Ok(mut mac) => {
            mac.update(message);
            mac.verify_slice(tag).is_ok()
        },
        Err(_) => false,
    }
}

/// What is signed: the time, a point, and the payload.
pub open spec fn signed_message(t: i64, payload: Seq<u8>) -> Seq<u8> {
    encode_utf8(dec_int(t as int)) + encode_utf8("."@) + payload
}

/// Whether a tag in hexadecimal is the one of a message.
pub open spec fn tag_matches(key: Seq<u8>, message: Seq<u8>, v1: Seq<char>) -> bool {
    hex_bytes(v1) == Some(hmac_sha256(key, message))
}

/// Whether one of the tags is the one of a message.
pub open spec fn some_tag_matches(key: Seq<u8>, message: Seq<u8>, v1s: Seq<Seq<char>>) -> bool {
    exists|k: int| 0 <= k < v1s.len() && #[trigger] tag_matches(key, message, v1s[k])
}

/// Whether a payload was signed: its header can be read, its time is near, and
/// one of its signatures is the right one.
pub open spec fn is_signed(secret: Seq<char>, header: Seq<char>, payload: Seq<u8>, now: i64) -> bool {
    match header_read(header) {
        Some(x) => -SIGNATURE_TOLERANCE_SECS <= now - x.0 <= SIGNATURE_TOLERANCE_SECS
            && some_tag_matches(encode_utf8(secret), signed_message(x.0, payload), x.1),
        None => false,
    }
}

fn message_of(t: i64, payload: &Vec<u8>) -> (r: Vec<u8>)
    ensures
        r@ == signed_message(t, payload@),
{
    let mut head = render_i64(t);
    head.append(".");
    proof {
        lemma_encode_concat(dec_int(t as int), "."@);
    }
    let bytes = head.as_str().as_bytes();
    let mut out: Vec<u8> = Vec::new();
    let mut i: usize = 0;
    while i < bytes.len()
        invariant
            i <= bytes@.len(),
            out@ == bytes@.take(i as int),
        decreases bytes@.len() - i,
    {
        out.push(bytes[i]);
        assert(bytes@.take(i + 1) =~= bytes@.take(i as int).push(bytes@[i as int]));
        i = i + 1;
    }
    assert(bytes@.take(i as int) =~= bytes@);
    let mut j: usize = 0;
    while j < payload.len()
        invariant
            j <= payload@.len(),
            out@ == bytes@ + payload@.take(j as int),
        decreases payload@.len() - j,
    {
        let ghost prev = out@;
        out.push(payload[j]);
        assert(payload@.take(j + 1) =~= payload@.take(j as int).push(payload@[j as int]));
        assert(out@ =~= bytes@ + payload@.take(j + 1));
        j = j + 1;
    }
    assert(payload@.take(j as int) =~= payload@);
    out
}

/// The bytes of two texts in a row.
proof fn lemma_encode_concat(a: Seq<char>, b: Seq<char>)
    ensures
        encode_utf8(a + b) == encode_utf8(a) + encode_utf8(b),
    decreases a.len(),
{
    if a.len() == 0 {
        assert(a + b =~= b);
        assert(encode_utf8(a) + encode_utf8(b) =~= encode_utf8(b));
    } else {
        let rest = a.drop_first();
        lemma_encode_concat(rest, b);
        assert((a + b).drop_first() =~= rest + b);
        assert((a + b)[0] == a[0]);
        assert(encode_scalar(a[0] as u32) + (encode_utf8(rest) + encode_utf8(b)) =~= (
        encode_scalar(a[0] as u32) + encode_utf8(rest)) + encode_utf8(b));
    }
}

/// Verifies the signature of a webhook over its raw body. Any one signature of
/// the right scheme passes: several are sent while keys are changed.
pub fn verify_signature(secret: &str, header: &str, payload: &Vec<u8>, now: i64) -> (r: bool)
    ensures
        r == is_signed(secret@, header@, payload@, now),
{
    let x = match parse_sig_header(header) {
        Some(x) => x,
        None => {
            return false;
        },
    };
    let t: i64 = x.0;
    let v1s = x.1;
    let off: i128 = (now as i128) - (t as i128);
    if off > SIGNATURE_TOLERANCE_SECS as i128 || off < -(SIGNATURE_TOLERANCE_SECS as i128) {
        return false;
    }
    let message = message_of(t, payload);
    let key = secret.as_bytes();
    let ghost all = texts(v1s@);
    let mut i: usize = 0;
    while i < v1s.len()
        invariant
            i <= v1s@.len(),
            all == texts(v1s@),
            key@ == encode_utf8(secret@),
            message@ == signed_message(t, payload@),
            header_read(header@) == Some((t, all)),
            -SIGNATURE_TOLERANCE_SECS <= now - t <= SIGNATURE_TOLERANCE_SECS,
            forall|k: int|
                0 <= k < i ==> !#[trigger] tag_matches(
                    encode_utf8(secret@),
                    signed_message(t, payload@),
                    all[k],
                ),
        decreases v1s@.len() - i,
    {
        assert(all[i as int] == v1s@[i as int]@);
        match hex_decode(v1s[i].as_str()) {
            Some(tag) => {
                if mac_matches(key, &message, &tag) {
                    assert(tag_matches(
                        encode_utf8(secret@),
                        signed_message(t, payload@),
                        all[i as int],
                    ));
                    return true;
                }
            },
            None => {},
        }
        i = i + 1;
    }
    false
}

/// The header that goes with a tag.
pub open spec fn header_for(t: i64, tag: Seq<u8>) -> Seq<char> {
    "t="@ + dec_int(t as int) + ",v1="@ + hex(tag)
}

proof fn lemma_no_commas(t: int, tag: Seq<u8>)
    ensures
        forall|i: int|
            0 <= i < dec_int(t).len() ==> #[trigger] dec_int(t)[i] != ',' && !is_white(
                dec_int(t)[i],
            ),
        forall|i: int|
            0 <= i < hex(tag).len() ==> #[trigger] hex(tag)[i] != ',' && !is_white(hex(tag)[i]),
        dec_int(t).len() > 0,
{
    law_hex_reads_back(tag);
    assert forall|i: int| 0 <= i < hex(tag).len() implies #[trigger] hex(tag)[i] != ',' && !is_white(
        hex(tag)[i],
    ) by {
        assert(is_hex(hex(tag)[i]));
    }
    let n = if t < 0 {
        (-t) as nat
    } else {
        t as nat
    };
    lemma_dec_digits(n);
    assert forall|i: int| 0 <= i < dec_int(t).len() implies #[trigger] dec_int(t)[i] != ','
        && !is_white(dec_int(t)[i]) by {
        if t < 0 {
            if i > 0 {
                assert(dec_int(t)[i] == dec(n)[i - 1]);
                assert(is_digit(dec(n)[i - 1]));
            }
        } else {
            assert(is_digit(dec(n)[i]));
        }
    }
}

proof fn lemma_part(key: Seq<char>, value: Seq<char>)
    requires
        key.len() > 0,
        forall|i: int| 0 <= i < key.len() ==> #[trigger] key[i] != '=' && !is_white(key[i]),
        forall|i: int| 0 <= i < value.len() ==> !is_white(#[trigger] value[i]),
    ensures
        ({
            let p = key + seq!['='] + value;
            &&& trim(p) == p
            &&& next_char(p, '=', 0) == key.len()
            &&& p.take(key.len() as int) == key
            &&& p.skip(key.len() as int + 1) == value
        }),
{
    let p = key + seq!['='] + value;
    assert(p[0] == key[0]);
    assert(!is_white(p.last())) by {
        if value.len() > 0 {
            assert(p.last() == value[value.len() - 1]);
        } else {
            assert(p.last() == '=');
        }
    }
    lemma_trim_fixed(p);
    assert forall|k: int| 0 <= k < key.len() implies #[trigger] p[k] != '=' by {
        assert(p[k] == key[k]);
    }
    lemma_next_char_is(p, '=', 0, key.len() as int);
    assert(p.take(key.len() as int) =~= key);
    assert(p.skip(key.len() as int + 1) =~= value);
}

/// The header of a tag splits into its two parts.
proof fn lemma_header_splits(t: i64, tag: Seq<u8>)
    ensures
        split_on(header_for(t, tag), ',') == seq![
            "t"@ + seq!['='] + dec_int(t as int),
            "v1"@ + seq!['='] + hex(tag),
        ],
{
    let header = header_for(t, tag);
    let num = dec_int(t as int);
    reveal_strlit("t=");
    reveal_strlit(",v1=");
    reveal_strlit("t");
    reveal_strlit("v1");
    lemma_no_commas(t as int, tag);
    let a = "t"@ + seq!['='] + num;
    let b = "v1"@ + seq!['='] + hex(tag);
    assert(header =~= a + seq![','] + b);
    assert forall|k: int| 0 <= k < a.len() implies #[trigger] header[k] != ',' by {
        if k >= 2 {
            assert(header[k] == num[k - 2]);
        }
    }
    lemma_next_char_is(header, ',', 0, a.len() as int);
    let from = a.len() as int + 1;
    assert forall|k: int| from <= k < header.len() implies #[trigger] header[k] != ',' by {
        if k >= from + 3 {
            assert(header[k] == hex(tag)[k - from - 3]);
        }
    }
    lemma_next_char_is(header, ',', from, header.len() as int);
    assert(header.subrange(0, a.len() as int) =~= a);
    assert(header.subrange(from, header.len() as int) =~= b);
    assert(split_from(header, ',', from) == seq![b]);
    assert(seq![a] + seq![b] =~= seq![a, b]);
}

/// The first part of a header sets its time.
proof fn lemma_time_part(s: SigView, t: i64)
    ensures
        with_sig_part(s, "t"@ + seq!['='] + dec_int(t as int)) == (SigView { t: Some(t), ..s }),
{
    lemma_no_commas(t as int, seq![]);
    reveal_strlit("t");
    lemma_part("t"@, dec_int(t as int));
    if t < 0 {
        law_decimal_reads_back((-(t as int)) as nat);
    } else {
        law_decimal_reads_back(t as nat);
    }
}

/// The second part of a header adds a tag.
proof fn lemma_tag_part(s: SigView, tag: Seq<u8>)
    ensures
        with_sig_part(s, "v1"@ + seq!['='] + hex(tag)) == (SigView {
            v1s: s.v1s.push(hex(tag)),
            ..s
        }),
{
    lemma_no_commas(0, tag);
    reveal_strlit("t");
    reveal_strlit("v1");
    lemma_part("v1"@, hex(tag));
    assert("t"@.len() != "v1"@.len());
}

proof fn lemma_two_parts(a: Seq<char>, b: Seq<char>)
    ensures
        sig_parts(seq![a, b], 2) == with_sig_part(
            with_sig_part(SigView { t: None, v1s: seq![] }, a),
            b,
        ),
{
    let parts = seq![a, b];
    assert(sig_parts(parts, 0) == (SigView { t: None, v1s: seq![] }));
    assert(sig_parts(parts, 1) == with_sig_part(sig_parts(parts, 0), parts[0]));
    assert(sig_parts(parts, 2) == with_sig_part(sig_parts(parts, 1), parts[1]));
}

/// The header of a tag holds its time and the tag.
proof fn lemma_header_reads_back(t: i64, tag: Seq<u8>)
    ensures
        header_read(header_for(t, tag)) == Some((t, seq![hex(tag)])),
{
    let a = "t"@ + seq!['='] + dec_int(t as int);
    let b = "v1"@ + seq!['='] + hex(tag);
    let none = SigView { t: None, v1s: seq![] };
    lemma_header_splits(t, tag);
    lemma_two_parts(a, b);
    lemma_time_part(none, t);
    lemma_tag_part(SigView { t: Some(t), ..none }, tag);
    assert(none.v1s.push(hex(tag)) =~= seq![hex(tag)]);
}

/// A payload signed with the secret is accepted, as long as the times are near.
pub proof fn law_a_signed_payload_is_accepted(
    secret: Seq<char>,
    t: i64,
    payload: Seq<u8>,
    now: i64,
)
    requires
        -SIGNATURE_TOLERANCE_SECS <= now - t <= SIGNATURE_TOLERANCE_SECS,
    ensures
        is_signed(
            secret,
            header_for(t, hmac_sha256(encode_utf8(secret), signed_message(t, payload))),
            payload,
            now,
        ),
{
    let tag = hmac_sha256(encode_utf8(secret), signed_message(t, payload));
    lemma_header_reads_back(t, tag);
    law_hex_reads_back(tag);
    let v1s = seq![hex(tag)];
    assert(tag_matches(encode_utf8(secret), signed_message(t, payload), v1s[0]));
}

// ---------------------------------------------------------------------------
// Events
// ---------------------------------------------------------------------------

/// The fields of an event that count.
pub struct StripeEvent {
    pub id: String,
    pub kind: String,
    /// When it happened, in seconds: events may arrive out of order.
    pub created: i64,
    pub data: EventData,
}

pub struct EventData {
    pub object: Subscription,
}

/// The fields of a subscription that count.
pub struct Subscription {
    pub id: String,
    pub customer: String,
    pub status: String,
    /// Holds the id of the vault that was paid for.
    pub metadata: StrMap<String>,
}

/// What an event does to an entitlement.
#[derive(Debug, Clone, Copy, PartialEq, Eq, Structural)]
pub enum Action {
    Upsert,
    Remove,
    Ignore,
}

/// The action of an event: an entitlement is given only in the states that are
/// known to be paid for, so that an unknown state never gives one away.
pub open spec fn action_of(event_kind: Seq<char>, status: Seq<char>) -> Action {
    if !has_prefix(event_kind, "customer.subscription."@) {
        Action::Ignore
    } else if event_kind == "customer.subscription.deleted"@ {
        Action::Remove
    } else if status == "active"@ || status == "trialing"@ || status == "past_due"@ {
        Action::Upsert
    } else {
        Action::Remove
    }
}

/// Maps an event to what it does to the entitlement of its vault.
pub fn action_for(event_kind: &str, status: &str) -> (r: Action)
    ensures
        r == action_of(event_kind@, status@),
{
    if !starts_with(event_kind, "customer.subscription.") {
        return Action::Ignore;
    }
    if str_eq(event_kind, "customer.subscription.deleted") {
        return Action::Remove;
    }
    if str_eq(status, "active") || str_eq(status, "trialing") || str_eq(status, "past_due") {
        Action::Upsert
    } else {
        Action::Remove
    }
}

} // verus!

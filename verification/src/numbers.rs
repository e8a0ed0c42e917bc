//! Decimal numbers as text.
use crate::text::chars_of;
use vstd::prelude::*;
use vstd::string::*;

verus! {

/// The digit of the value `d`.
pub open spec fn digit_char(d: int) -> char {
    ('0' as int + d) as char
}

/// Whether `c` is an ASCII digit.
pub open spec fn is_digit(c: char) -> bool {
    '0' <= c <= '9'
}

/// The decimal digits of `n`, without leading zeros.
pub open spec fn dec(n: nat) -> Seq<char>
    decreases n,
{
    if n < 10 {
        seq![digit_char(n as int)]
    } else {
        dec(n / 10).push(digit_char((n % 10) as int))
    }
}

/// The decimal text of `n`, with a minus sign where it is negative.
pub open spec fn dec_int(n: int) -> Seq<char> {
    if n < 0 {
        seq!['-'] + dec((-n) as nat)
    } else {
        dec(n as nat)
    }
}

pub(crate) fn digit(d: u8) -> (c: char)
    requires
        d < 10,
    ensures
        c == digit_char(d as int),
{
    (0x30u8 + d) as char
}

/// The decimal text of `n`.
pub(crate) fn render_u64(n: u64) -> (r: String)
    ensures
        r@ == dec(n as nat),
    decreases n,
{
    if n < 10 {
        let mut s = String::new();
        s.push(digit(n as u8));
        assert(s@ =~= seq![digit_char(n as int)]);
        s
    } else {
        let mut s = render_u64(n / 10);
        s.push(digit((n % 10) as u8));
        s
    }
}

/// The decimal text of `n`.
pub(crate) fn render_i64(n: i64) -> (r: String)
    ensures
        r@ == dec_int(n as int),
{
    if n < 0 {
        let mut s = String::new();
        s.push('-');
        let m: i128 = -(n as i128);
        s.append(render_u64(m as u64).as_str());
        assert(s@ =~= dec_int(n as int));
        s
    } else {
        render_u64(n as u64)
    }
}

/// The number that a run of digits stands for.
pub open spec fn digits_value(s: Seq<char>) -> nat
    decreases s.len(),
{
    if s.len() == 0 {
        0
    } else {
        (digits_value(s.drop_last()) * 10 + (s.last() as int - '0' as int)) as nat
    }
}

/// Whether `s` is one or more digits.
pub open spec fn is_digits(s: Seq<char>) -> bool {
    s.len() > 0 && forall|i: int| 0 <= i < s.len() ==> is_digit(#[trigger] s[i])
}

/// The natural number that `s` spells: digits, with or without a plus sign.
pub open spec fn nat_of(s: Seq<char>) -> Option<nat> {
    let t = if s.len() > 0 && s[0] == '+' {
        s.skip(1)
    } else {
        s
    };
    if is_digits(t) {
        Some(digits_value(t))
    } else {
        None
    }
}

/// The integer that `s` spells: digits, with or without a sign.
pub open spec fn int_of(s: Seq<char>) -> Option<int> {
    if s.len() > 0 && s[0] == '-' {
        if is_digits(s.skip(1)) {
            Some(-(digits_value(s.skip(1)) as int))
        } else {
            None
        }
    } else {
        match nat_of(s) {
            Some(n) => Some(n as int),
            None => None,
        }
    }
}

fn parse_digits(v: &Vec<char>, from: usize, max: u64) -> (r: Option<u64>)
    requires
        from <= v@.len(),
    ensures
        match r {
            Some(n) => is_digits(v@.skip(from as int)) && digits_value(v@.skip(from as int)) == n
                && n <= max,
            None => !is_digits(v@.skip(from as int)) || digits_value(v@.skip(from as int)) > max,
        },
{
    if from >= v.len() {
        return None;
    }
    let ghost t = v@.skip(from as int);
    let mut acc: u64 = 0;
    let mut over: bool = false;
    let mut i: usize = from;
    assert(t.take(0) =~= seq![]);
    while i < v.len()
        invariant
            from <= i <= v@.len(),
            from < v@.len(),
            t == v@.skip(from as int),
            forall|k: int| 0 <= k < i - from ==> is_digit(#[trigger] t[k]),
            over ==> digits_value(t.take(i - from)) > max,
            !over ==> acc <= max && digits_value(t.take(i - from)) == acc,
        decreases v@.len() - i,
    {
        let c = v[i];
        assert(t[i - from] == c);
        if !('0' <= c && c <= '9') {
            return None;
        }
        let d: u64 = (c as u32 - '0' as u32) as u64;
        assert(t.take(i + 1 - from).drop_last() =~= t.take(i - from));
        assert(t.take(i + 1 - from).last() == c);
        if !over {
            let wide: u128 = acc as u128 * 10 + d as u128;
            if wide > max as u128 {
                over = true;
            } else {
                acc = wide as u64;
            }
        }
        i = i + 1;
    }
    assert(t.take(v@.len() - from) =~= t);
    if over {
        None
    } else {
        Some(acc)
    }
}

/// The unsigned number up to `max` that `s` spells.
pub(crate) fn parse_u64(s: &str, max: u64) -> (r: Option<u64>)
    ensures
        match r {
            Some(n) => nat_of(s@) == Some(n as nat) && n <= max,
            None => match nat_of(s@) {
                Some(n) => n > max,
                None => true,
            },
        },
{
    let v = chars_of(s);
    let from: usize = if v.len() > 0 && v[0] == '+' {
        1
    } else {
        0
    };
    assert(v@.skip(0) =~= v@);
    parse_digits(&v, from, max)
}

/// The signed number that `s` spells, where it fits in 64 bits.
pub(crate) fn parse_i64(s: &str) -> (r: Option<i64>)
    ensures
        match r {
            Some(n) => int_of(s@) == Some(n as int),
            None => match int_of(s@) {
                Some(n) => n < i64::MIN || n > i64::MAX,
                None => true,
            },
        },
{
    let v = chars_of(s);
    if v.len() > 0 && v[0] == '-' {
        match parse_digits(&v, 1, 0x8000_0000_0000_0000) {
            Some(m) => {
                let w: i128 = -(m as i128);
                Some(w as i64)
            },
            None => None,
        }
    } else {
        match parse_u64(s, 0x7FFF_FFFF_FFFF_FFFF) {
            Some(m) => Some(m as i64),
            None => None,
        }
    }
}

pub(crate) proof fn lemma_dec_digits(n: nat)
    ensures
        is_digits(dec(n)),
        digits_value(dec(n)) == n,
    decreases n,
{
    if n < 10 {
        let s = dec(n);
        assert(s.drop_last() =~= seq![]);
        assert(digits_value(s.drop_last()) == 0);
        assert(s.last() == digit_char(n as int));
    } else {
        lemma_dec_digits(n / 10);
        let s = dec(n);
        assert(s.drop_last() =~= dec(n / 10));
        assert forall|i: int| 0 <= i < s.len() implies is_digit(#[trigger] s[i]) by {
            if i < s.len() - 1 {
                assert(s[i] == dec(n / 10)[i]);
            }
        }
    }
}

/// Reading back the decimal text of a number gives the number.
pub proof fn law_decimal_reads_back(n: nat)
    ensures
        nat_of(dec(n)) == Some(n),
        int_of(dec_int(n as int)) == Some(n as int),
        n > 0 ==> int_of(dec_int(-(n as int))) == Some(-(n as int)),
{
    lemma_dec_digits(n);
    assert(dec(n)[0] != '+' && dec(n)[0] != '-') by {
        assert(is_digit(dec(n)[0]));
    }
    if n > 0 {
        let s = dec_int(-(n as int));
        assert(s.skip(1) =~= dec(n));
    }
}

} // verus!

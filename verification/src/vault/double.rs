//! What the bits of a double stand for.
use crate::vault::json::double_rank;
use vstd::arithmetic::power2::{lemma2_to64, lemma_pow2_pos, lemma_pow2_unfold, pow2};
use vstd::prelude::*;

verus! {

/// The size of a finite double, counted in the smallest double above zero. A double
/// has 52 bits of fraction and above them 11 of exponent. With an exponent of zero
/// the fraction counts as it is; else it has a leading one, and each further step of
/// the exponent doubles it.
pub open spec fn double_size(magnitude: int) -> int {
    let exponent = magnitude / 0x10_0000_0000_0000;
    let fraction = magnitude % 0x10_0000_0000_0000;
    if exponent == 0 {
        fraction
    } else {
        (0x10_0000_0000_0000 + fraction) * pow2((exponent - 1) as nat)
    }
}

/// The value of a finite double, counted in the smallest double above zero: its top
/// bit is the sign.
pub open spec fn double_value(bits: u64) -> int {
    if bits < 0x8000_0000_0000_0000 {
        double_size(bits as int)
    } else {
        -double_size(bits - 0x8000_0000_0000_0000)
    }
}

/// Whether a double is the number `n`: there are `2^1074` of the smallest double
/// in one.
pub open spec fn is_number(bits: u64, n: int) -> bool {
    double_value(bits) == n * pow2(1074)
}

proof fn lemma_size_steps(m: int)
    requires
        0 <= m,
    ensures
        double_size(m) < double_size(m + 1),
{
    let unit: int = 0x10_0000_0000_0000;
    let e = m / unit;
    let f = m % unit;
    assert(m == e * unit + f);
    if f + 1 < unit {
        assert((m + 1) / unit == e && (m + 1) % unit == f + 1);
        if e > 0 {
            let p = pow2((e - 1) as nat) as int;
            lemma_pow2_pos((e - 1) as nat);
            assert((unit + f) * p < (unit + (f + 1)) * p) by (nonlinear_arith)
                requires
                    p > 0,
            ;
        }
    } else {
        assert((m + 1) / unit == e + 1 && (m + 1) % unit == 0);
        if e > 0 {
            let p = pow2((e - 1) as nat) as int;
            lemma_pow2_pos((e - 1) as nat);
            lemma_pow2_unfold(e as nat);
            assert((unit + f) * p < (unit + 0) * (2 * p)) by (nonlinear_arith)
                requires
                    p > 0,
                    f == unit - 1,
                    unit > 0,
            ;
        } else {
            lemma2_to64();
        }
    }
}

proof fn lemma_size_grows(a: int, b: int)
    requires
        0 <= a < b,
    ensures
        double_size(a) < double_size(b),
    decreases b - a,
{
    lemma_size_steps(b - 1);
    if a < b - 1 {
        lemma_size_grows(a, b - 1);
    }
}

/// Doubles have the order of their values, and one rank where they have one value.
pub proof fn law_doubles_rank_by_value(a: u64, b: u64)
    ensures
        double_rank(a) < double_rank(b) <==> double_value(a) < double_value(b),
        double_rank(a) == double_rank(b) <==> double_value(a) == double_value(b),
{
    let top: int = 0x8000_0000_0000_0000;
    let x = if a < top {
        a as int
    } else {
        a - top
    };
    let y = if b < top {
        b as int
    } else {
        b - top
    };
    assert(double_size(0) == 0);
    if x > 0 {
        lemma_size_grows(0, x);
    }
    if y > 0 {
        lemma_size_grows(0, y);
    }
    if x < y {
        lemma_size_grows(x, y);
    } else if y < x {
        lemma_size_grows(y, x);
    }
}

/// Doubles that are whole numbers have the order of those.
pub proof fn law_whole_doubles_rank_as_numbers(a: u64, b: u64, i: int, j: int)
    requires
        is_number(a, i),
        is_number(b, j),
    ensures
        double_rank(a) < double_rank(b) <==> i < j,
        double_rank(a) == double_rank(b) <==> i == j,
{
    law_doubles_rank_by_value(a, b);
    let p = pow2(1074) as int;
    lemma_pow2_pos(1074);
    assert((i * p < j * p) == (i < j)) by (nonlinear_arith)
        requires
            p > 0,
    ;
    assert((i * p == j * p) == (i == j)) by (nonlinear_arith)
        requires
            p > 0,
    ;
}

} // verus!

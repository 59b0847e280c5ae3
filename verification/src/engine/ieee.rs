//! Single-precision numbers as their 32-bit patterns: which number a pattern
//! stands for, how two patterns are ordered, and the pattern of a multiple of
//! one eighth.
use vstd::prelude::*;
use vstd::arithmetic::power2::{lemma_pow2_pos, lemma_pow2_strictly_increases, lemma_pow2_unfold, pow2};

verus! {

/// Two to the power 23: the weight of the hidden bit of a fraction.
pub const HIDDEN_BIT: u32 = 0x80_0000;

/// Two to the power 31: the weight of the sign bit.
pub const SIGN_BIT: u32 = 0x8000_0000;

/// The pattern of positive infinity.
pub const INFINITY_BITS: u32 = 0x7F80_0000;

/// Whether the sign bit of the pattern is set.
pub open spec fn is_negative(bits: u32) -> bool {
    bits >= SIGN_BIT
}

/// The pattern without its sign bit.
pub open spec fn magnitude(bits: u32) -> int {
    bits as int % 0x8000_0000
}

/// Whether the pattern stands for no number.
pub open spec fn is_nan(bits: u32) -> bool {
    magnitude(bits) > INFINITY_BITS
}

/// Whether the pattern stands for a number that is not infinite.
pub open spec fn is_finite(bits: u32) -> bool {
    magnitude(bits) < INFINITY_BITS
}

/// The number that a pattern without sign stands for, multiplied by two to
/// the power 149, which makes it a whole number. For the pattern of infinity
/// this is a number above those of all finite patterns.
pub open spec fn scaled_magnitude(mag: int) -> int {
    let e = mag / 0x80_0000;
    let f = mag % 0x80_0000;
    if e == 0 {
        f
    } else {
        (0x80_0000 + f) * pow2((e - 1) as nat)
    }
}

/// The number that the pattern stands for, multiplied by two to the power 149.
pub open spec fn scaled_value(bits: u32) -> int {
    if is_negative(bits) {
        -scaled_magnitude(magnitude(bits))
    } else {
        scaled_magnitude(magnitude(bits))
    }
}

/// How the numbers of two patterns compare: -1 where the first is smaller, 0
/// where they are equal, 1 where the first is greater, and `None` where one of
/// the patterns stands for no number.
pub open spec fn number_sign(a: u32, b: u32) -> Option<int> {
    if is_nan(a) || is_nan(b) {
        None
    } else if scaled_value(a) < scaled_value(b) {
        Some(-1)
    } else if scaled_value(a) == scaled_value(b) {
        Some(0)
    } else {
        Some(1)
    }
}

/// A greater pattern without sign stands for a greater number.
pub proof fn lemma_scaled_monotone(m1: int, m2: int)
    requires
        0 <= m1 < m2,
    ensures
        0 <= scaled_magnitude(m1) < scaled_magnitude(m2),
{
    let k: int = 0x80_0000;
    let e1 = m1 / k;
    let f1 = m1 % k;
    let e2 = m2 / k;
    let f2 = m2 % k;
    assert(e1 <= e2);
    if e1 >= 1 {
        lemma_pow2_pos((e1 - 1) as nat);
    }
    lemma_pow2_pos((e2 - 1) as nat);
    if e1 == e2 {
        assert(f1 < f2);
        if e1 >= 1 {
            let p = pow2((e1 - 1) as nat) as int;
            assert((k + f1) * p < (k + f2) * p) by (nonlinear_arith)
                requires
                    f1 < f2,
                    p > 0,
            ;
            assert(0 <= (k + f1) * p) by (nonlinear_arith)
                requires
                    0 <= f1,
                    k > 0,
                    p > 0,
            ;
        }
    } else {
        let p2 = pow2((e2 - 1) as nat) as int;
        assert(k * p2 <= (k + f2) * p2) by (nonlinear_arith)
            requires
                0 <= f2,
                p2 > 0,
        ;
        if e1 == 0 {
            assert(k <= k * p2) by (nonlinear_arith)
                requires
                    p2 >= 1,
                    k > 0,
            ;
        } else {
            let p1 = pow2((e1 - 1) as nat) as int;
            lemma_pow2_unfold(e1 as nat);
            assert(pow2(e1 as nat) == 2 * p1);
            if e1 < e2 - 1 {
                lemma_pow2_strictly_increases(e1 as nat, (e2 - 1) as nat);
            }
            assert(2 * p1 <= p2);
            assert((k + f1) * p1 < k * p2) by (nonlinear_arith)
                requires
                    0 <= f1 < k,
                    p1 > 0,
                    2 * p1 <= p2,
            ;
            assert(0 <= (k + f1) * p1) by (nonlinear_arith)
                requires
                    0 <= f1,
                    k > 0,
                    p1 > 0,
            ;
        }
    }
}

/// The pattern read as a signed whole number: the pattern without its sign
/// for positive patterns, its negation for negative ones.
pub open spec fn order_key(bits: u32) -> int {
    if is_negative(bits) {
        -magnitude(bits)
    } else {
        magnitude(bits)
    }
}

/// Numbers are ordered as the keys of their patterns.
pub proof fn lemma_order_by_key(a: u32, b: u32)
    ensures
        order_key(a) < order_key(b) <==> scaled_value(a) < scaled_value(b),
        order_key(a) == order_key(b) <==> scaled_value(a) == scaled_value(b),
{
    let ma = magnitude(a);
    let mb = magnitude(b);
    if ma < mb {
        lemma_scaled_monotone(ma, mb);
    }
    if mb < ma {
        lemma_scaled_monotone(mb, ma);
    }
    if 0 < ma {
        lemma_scaled_monotone(0, ma);
    }
    if 0 < mb {
        lemma_scaled_monotone(0, mb);
    }
    assert(scaled_magnitude(0) == 0);
}

/// How the numbers of two patterns compare.
pub fn compare_numbers(a: u32, b: u32) -> (r: Option<i8>)
    ensures
        match r {
            Some(s) => number_sign(a, b) == Some(s as int),
            None => number_sign(a, b) is None,
        },
{
    let ma: u32 = a % SIGN_BIT;
    let mb: u32 = b % SIGN_BIT;
    if ma > INFINITY_BITS || mb > INFINITY_BITS {
        return None;
    }
    let ka: i64 = if a >= SIGN_BIT { -(ma as i64) } else { ma as i64 };
    let kb: i64 = if b >= SIGN_BIT { -(mb as i64) } else { mb as i64 };
    proof {
        lemma_order_by_key(a, b);
    }
    if ka < kb {
        Some(-1)
    } else if ka == kb {
        Some(0)
    } else {
        Some(1)
    }
}

/// Doubles `full` until it reaches two to the power 23, lowering the exponent
/// `e` by one each time; gives the fraction with its hidden bit and the exponent.
pub open spec fn normalized(full: int, e: int) -> (int, int)
    decreases 0x100_0000 - full,
{
    if full >= 0x80_0000 || full <= 0 {
        (full, e)
    } else {
        normalized(2 * full, e - 1)
    }
}

/// The pattern of the number `v / 8`, for `v` between -2^24 and 2^24.
pub open spec fn eighths_bits(v: int) -> u32 {
    if v == 0 {
        0
    } else {
        let m = if v < 0 { -v } else { v };
        let (full, e) = normalized(m, 147);
        let body = e * 0x80_0000 + (full - 0x80_0000);
        if v < 0 {
            (0x8000_0000 + body) as u32
        } else {
            body as u32
        }
    }
}

/// Normalizing keeps the number and ends with the hidden bit set, after at
/// most `d` doublings where `full * 2^d` reaches two to the power 23.
pub proof fn lemma_normalized(full: int, e: int, d: nat)
    requires
        0 < full < 0x100_0000,
        e > d,
        full * pow2(d) >= 0x80_0000,
    ensures
        0x80_0000 <= normalized(full, e).0 < 0x100_0000,
        e - d <= normalized(full, e).1 <= e,
        normalized(full, e).0 * pow2((normalized(full, e).1 - 1) as nat) == full * pow2(
            (e - 1) as nat,
        ),
    decreases 0x100_0000 - full,
{
    if full < 0x80_0000 {
        if d == 0 {
            assert(pow2(0) == 1) by {
                vstd::arithmetic::power2::lemma2_to64();
            }
            assert(full * pow2(0) == full) by (nonlinear_arith)
                requires
                    pow2(0) == 1,
            ;
        }
        lemma_pow2_unfold(d);
        lemma_pow2_unfold((e - 1) as nat);
        let pd = pow2((d - 1) as nat) as int;
        let pe = pow2((e - 2) as nat) as int;
        assert((2 * full) * pd == full * (2 * pd)) by (nonlinear_arith);
        assert((2 * full) * pe == full * (2 * pe)) by (nonlinear_arith);
        lemma_normalized(2 * full, e - 1, (d - 1) as nat);
    }
}

/// The pattern of `v / 8` stands for that number.
pub proof fn lemma_eighths_value(v: int)
    requires
        -0x100_0000 < v < 0x100_0000,
    ensures
        is_finite(eighths_bits(v)),
        scaled_value(eighths_bits(v)) == v * pow2(146),
        is_negative(eighths_bits(v)) == (v < 0),
{
    if v == 0 {
        assert(scaled_magnitude(0) == 0);
        assert(0 * pow2(146) == 0) by (nonlinear_arith);
    } else {
        let m = if v < 0 { -v } else { v };
        vstd::arithmetic::power2::lemma2_to64();
        assert(m * pow2(23) >= 0x80_0000) by (nonlinear_arith)
            requires
                m >= 1,
                pow2(23) == 0x80_0000,
        ;
        lemma_normalized(m, 147, 23);
        let (full, e) = normalized(m, 147);
        let body = e * 0x80_0000 + (full - 0x80_0000);
        assert(body / 0x80_0000 == e && body % 0x80_0000 == full - 0x80_0000) by (nonlinear_arith)
            requires
                body == e * 0x80_0000 + (full - 0x80_0000),
                0 <= full - 0x80_0000 < 0x80_0000,
        ;
        assert(0 <= body < 0x7F80_0000) by (nonlinear_arith)
            requires
                body == e * 0x80_0000 + (full - 0x80_0000),
                0 <= full - 0x80_0000 < 0x80_0000,
                124 <= e <= 147,
        ;
        assert(scaled_magnitude(body) == m * pow2(146));
        if v < 0 {
            assert((-m) * pow2(146) == -(m * pow2(146))) by (nonlinear_arith);
        }
    }
}

/// The pattern of the number `v / 8`.
pub fn encode_eighths(v: i32) -> (bits: u32)
    requires
        -0x100_0000 < v < 0x100_0000,
    ensures
        bits == eighths_bits(v as int),
        is_finite(bits),
        scaled_value(bits) == v * pow2(146),
{
    proof {
        lemma_eighths_value(v as int);
    }
    if v == 0 {
        return 0;
    }
    let m: u32 = if v < 0 { (-v) as u32 } else { v as u32 };
    let mut full: u32 = m;
    let mut e: u32 = 147;
    proof {
        vstd::arithmetic::power2::lemma2_to64();
        assert(m * pow2(23) >= 0x80_0000) by (nonlinear_arith)
            requires
                m >= 1,
                pow2(23) == 0x80_0000,
        ;
    }
    while full < HIDDEN_BIT
        invariant
            0 < full < 0x100_0000,
            124 <= e <= 147,
            full * pow2((e - 124) as nat) >= 0x80_0000,
            normalized(full as int, e as int) == normalized(m as int, 147),
        decreases 0x100_0000 - full,
    {
        proof {
            if e == 124 {
                vstd::arithmetic::power2::lemma2_to64();
                assert(full * pow2(0) == full) by (nonlinear_arith)
                    requires
                        pow2(0) == 1,
                ;
            }
            lemma_pow2_unfold((e - 124) as nat);
            let pd = pow2((e - 125) as nat) as int;
            assert((2 * full) * pd == full * (2 * pd)) by (nonlinear_arith);
        }
        full = full * 2;
        e = e - 1;
    }
    let body: u32 = e * HIDDEN_BIT + (full - HIDDEN_BIT);
    if v < 0 {
        SIGN_BIT + body
    } else {
        body
    }
}

} // verus!

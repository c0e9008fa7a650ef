//! IEEE 754 binary64 numbers, held as their 64-bit patterns.
//!
//! A pattern has a sign bit, eleven exponent bits and fifty-two fraction
//! bits. This module classifies patterns, compares them as the numbers they
//! stand for, and converts integers to the nearest pattern.
use vstd::prelude::*;
use vstd::arithmetic::power2::{pow2, lemma2_to64, lemma2_to64_rest, lemma_pow2_adds, lemma_pow2_unfold, lemma_pow2_pos};

verus! {

/// The pattern with only the sign bit set.
pub const SIGN_BIT: u64 = 0x8000_0000_0000_0000;

/// The pattern of positive infinity; any larger magnitude is not a number.
pub const INFINITY: u64 = 0x7ff0_0000_0000_0000;

/// Two to the power fifty-two: the hidden bit of a normal number's significand.
pub const HIDDEN_BIT: u64 = 0x10_0000_0000_0000;

/// The pattern without its sign bit.
pub open spec fn magnitude(bits: u64) -> u64 {
    if bits >= SIGN_BIT {
        (bits - SIGN_BIT) as u64
    } else {
        bits
    }
}

/// Whether the pattern stands for no number at all.
pub open spec fn is_nan(bits: u64) -> bool {
    magnitude(bits) > INFINITY
}

/// Whether the pattern stands for zero, of either sign.
pub open spec fn is_zero(bits: u64) -> bool {
    magnitude(bits) == 0
}

/// An integer that orders the patterns as the numbers they stand for are
/// ordered: both zeros have key 0, negative numbers have negative keys.
pub open spec fn order_key(bits: u64) -> int {
    if bits >= SIGN_BIT {
        -(magnitude(bits) as int)
    } else {
        magnitude(bits) as int
    }
}

/// Numeric equality of two patterns: no pattern that is not a number equals
/// anything, and the two zeros are equal.
pub open spec fn equal(a: u64, b: u64) -> bool {
    !is_nan(a) && !is_nan(b) && order_key(a) == order_key(b)
}

/// Numeric `<` of two patterns: false whenever one of them is not a number.
pub open spec fn less(a: u64, b: u64) -> bool {
    !is_nan(a) && !is_nan(b) && order_key(a) < order_key(b)
}

/// The largest `e` with `2^e <= m`, for `m` at least one.
pub open spec fn floor_log2(m: nat) -> nat
    decreases m,
{
    if m < 2 {
        0
    } else {
        1 + floor_log2(m / 2)
    }
}

/// `m / d` rounded to the nearest integer, a tie going to the even one.
pub open spec fn round_half_even(m: nat, d: nat) -> nat {
    let q = m / d;
    let r = m % d;
    if 2 * r > d || (2 * r == d && q % 2 == 1) {
        q + 1
    } else {
        q
    }
}

/// The significand, hidden bit included, of the number nearest to `m`,
/// where `e` is `floor_log2(m)`: `m` scaled to fifty-three bits, rounded to
/// nearest with ties to even when it has more.
pub open spec fn significand(m: nat, e: nat) -> nat {
    if e <= 52 {
        m * pow2((52 - e) as nat)
    } else {
        round_half_even(m, pow2((e - 52) as nat))
    }
}

/// The pattern of the non-negative number nearest to `m`: biased exponent
/// `1023 + floor_log2(m)` above the fraction bits of the significand. A
/// significand rounded up to `2^53` carries into the exponent.
pub open spec fn magnitude_bits(m: nat) -> nat {
    if m == 0 {
        0
    } else {
        let e = floor_log2(m);
        ((1022 + e) * pow2(52) + significand(m, e)) as nat
    }
}

/// The pattern of the number nearest to the integer `i`.
pub open spec fn int_bits(i: int) -> nat {
    if i < 0 {
        SIGN_BIT as nat + magnitude_bits((-i) as nat)
    } else {
        magnitude_bits(i as nat)
    }
}

/// `floor_log2(m)` is the one exponent whose power of two brackets `m`.
pub proof fn lemma_floor_log2_unique(m: nat, e: nat)
    requires
        pow2(e) <= m < 2 * pow2(e),
    ensures
        floor_log2(m) == e,
    decreases e,
{
    lemma2_to64();
    if e == 0 {
    } else {
        lemma_pow2_unfold(e);
        lemma_floor_log2_unique(m / 2, (e - 1) as nat);
    }
}

/// The power of two below `m` and the one above bracket `m`.
pub proof fn lemma_floor_log2_brackets(m: nat)
    requires
        m >= 1,
    ensures
        pow2(floor_log2(m)) <= m < 2 * pow2(floor_log2(m)),
    decreases m,
{
    lemma2_to64();
    if m >= 2 {
        lemma_floor_log2_brackets(m / 2);
        lemma_pow2_unfold(floor_log2(m));
    }
}

/// Rounding to the nearest multiple misses by at most half the divisor,
/// and where it misses by exactly half, the quotient it gives is even.
pub proof fn lemma_round_half_even_is_nearest(m: nat, d: nat)
    requires
        d > 0,
    ensures
        2 * (round_half_even(m, d) * d - m) <= d,
        2 * (m - round_half_even(m, d) * d) <= d,
        2 * (round_half_even(m, d) * d - m) == d || 2 * (m - round_half_even(m, d) * d) == d
            ==> round_half_even(m, d) % 2 == 0,
        m / d <= round_half_even(m, d) <= m / d + 1,
{
    let q = m / d;
    let r = m % d;
    assert(m == d * q + r && 0 <= r < d) by (nonlinear_arith)
        requires
            d > 0,
            q == m / d,
            r == m % d,
    ;
    assert((q + 1) * d == q * d + d) by (nonlinear_arith);
    assert(q * d == d * q) by (nonlinear_arith);
}

/// The significand of the number nearest to `m` has fifty-three bits, or
/// is the next power of two.
pub proof fn lemma_significand_range(m: nat)
    requires
        m >= 1,
    ensures
        pow2(52) <= significand(m, floor_log2(m)) <= 2 * pow2(52),
{
    let e = floor_log2(m);
    lemma_floor_log2_brackets(m);
    if e <= 52 {
        let s = pow2((52 - e) as nat);
        lemma_pow2_adds(e, (52 - e) as nat);
        lemma_pow2_pos((52 - e) as nat);
        assert(pow2(e) * s <= m * s) by (nonlinear_arith)
            requires
                pow2(e) <= m,
                s > 0,
        ;
        assert(m * s < 2 * pow2(e) * s) by (nonlinear_arith)
            requires
                m < 2 * pow2(e),
                s > 0,
        ;
        assert(2 * pow2(e) * s == 2 * (pow2(e) * s)) by (nonlinear_arith);
    } else {
        let d = pow2((e - 52) as nat);
        lemma_pow2_adds((e - 52) as nat, 52);
        lemma_pow2_pos((e - 52) as nat);
        lemma_round_half_even_is_nearest(m, d);
        let h = pow2(52);
        assert(m / d >= h) by (nonlinear_arith)
            requires
                m >= d * h,
                d > 0,
        ;
        assert(m / d < 2 * h) by (nonlinear_arith)
            requires
                m < 2 * (d * h),
                d > 0,
        ;
    }
}

/// The biased exponent that a pattern of a non-negative number holds.
pub open spec fn biased_exponent(bits: nat) -> nat {
    bits / pow2(52)
}

/// The significand that a pattern of a normal number stands for: its
/// fraction bits under the hidden bit.
pub open spec fn normal_significand(bits: nat) -> nat {
    pow2(52) + bits % pow2(52)
}

/// The pattern that an integer `m` converts to is that of the nearest
/// number. It is a normal number: with biased exponent `x` and significand
/// `s` it stands for `s * 2^(x - 1075)`. Where `x` is at most 1075 that is
/// `m` itself. Beyond, it misses `m` by at most half a unit in the last
/// place, and where it misses by exactly half, `s` is even.
pub proof fn lemma_conversion_is_nearest(m: nat)
    requires
        1 <= m < pow2(64),
    ensures
        1023 <= biased_exponent(magnitude_bits(m)) <= 1087,
        biased_exponent(magnitude_bits(m)) <= 1075 ==> normal_significand(magnitude_bits(m)) == m
            * pow2((1075 - biased_exponent(magnitude_bits(m))) as nat),
        biased_exponent(magnitude_bits(m)) > 1075 ==> ({
            let s = normal_significand(magnitude_bits(m));
            let unit = pow2((biased_exponent(magnitude_bits(m)) - 1075) as nat);
            &&& 2 * (s * unit - m) <= unit
            &&& 2 * (m - s * unit) <= unit
            &&& (2 * (s * unit - m) == unit || 2 * (m - s * unit) == unit) ==> s % 2 == 0
        }),
{
    let e = floor_log2(m);
    let sig = significand(m, e);
    let h = pow2(52);
    let bits = magnitude_bits(m);
    lemma2_to64();
    lemma2_to64_rest();
    lemma_floor_log2_brackets(m);
    lemma_significand_range(m);
    assert(e <= 63) by {
        if e >= 64 {
            if e > 64 {
                vstd::arithmetic::power2::lemma_pow2_strictly_increases(64, e);
            }
        }
    }
    assert(bits == (1022 + e) * h + sig);
    if sig < 2 * h {
        assert(bits == (1023 + e) * h + (sig - h)) by (nonlinear_arith)
            requires
                bits == (1022 + e) * h + sig,
        ;
        vstd::arithmetic::div_mod::lemma_fundamental_div_mod_converse(
            bits as int,
            h as int,
            (1023 + e) as int,
            (sig - h) as int,
        );
        assert(biased_exponent(bits) == 1023 + e);
        assert(normal_significand(bits) == sig);
        if e > 52 {
            lemma_pow2_pos((e - 52) as nat);
            lemma_round_half_even_is_nearest(m, pow2((e - 52) as nat));
        }
    } else {
        assert(sig == 2 * h);
        assert(bits == (1024 + e) * h + 0) by (nonlinear_arith)
            requires
                bits == (1022 + e) * h + sig,
                sig == 2 * h,
        ;
        vstd::arithmetic::div_mod::lemma_fundamental_div_mod_converse(
            bits as int,
            h as int,
            (1024 + e) as int,
            0,
        );
        assert(biased_exponent(bits) == 1024 + e);
        assert(normal_significand(bits) == h);
        assert(e > 52) by {
            if e <= 52 {
                let s = pow2((52 - e) as nat);
                lemma_pow2_adds(e, (52 - e) as nat);
                lemma_pow2_pos((52 - e) as nat);
                assert(m * s < 2 * pow2(e) * s) by (nonlinear_arith)
                    requires
                        m < 2 * pow2(e),
                        s > 0,
                ;
                assert(2 * pow2(e) * s == 2 * (pow2(e) * s)) by (nonlinear_arith);
            }
        }
        let d = pow2((e - 52) as nat);
        let unit = pow2((e - 51) as nat);
        lemma_pow2_pos((e - 52) as nat);
        lemma_pow2_unfold((e - 51) as nat);
        lemma_pow2_adds((e - 52) as nat, 52);
        lemma_round_half_even_is_nearest(m, d);
        assert(unit == 2 * d);
        assert(h * unit == sig * d) by (nonlinear_arith)
            requires
                unit == 2 * d,
                sig == 2 * h,
        ;
        assert(h % 2 == 0);
    }
}

/// The magnitude of a pattern.
pub fn magnitude_of(bits: u64) -> (m: u64)
    ensures
        m == magnitude(bits),
{
    if bits >= SIGN_BIT {
        bits - SIGN_BIT
    } else {
        bits
    }
}

/// Whether a pattern is not a number.
pub fn check_nan(bits: u64) -> (r: bool)
    ensures
        r == is_nan(bits),
{
    magnitude_of(bits) > INFINITY
}

/// Whether a pattern is a zero.
pub fn check_zero(bits: u64) -> (r: bool)
    ensures
        r == is_zero(bits),
{
    magnitude_of(bits) == 0
}

/// Whether two patterns stand for equal numbers.
pub fn check_equal(a: u64, b: u64) -> (r: bool)
    ensures
        r == equal(a, b),
{
    if check_nan(a) || check_nan(b) {
        false
    } else if a >= SIGN_BIT && b >= SIGN_BIT {
        a == b
    } else if a < SIGN_BIT && b < SIGN_BIT {
        a == b
    } else {
        magnitude_of(a) == 0 && magnitude_of(b) == 0
    }
}

/// Whether the number of pattern `a` is below the number of pattern `b`.
pub fn check_less(a: u64, b: u64) -> (r: bool)
    ensures
        r == less(a, b),
{
    if check_nan(a) || check_nan(b) {
        false
    } else if a >= SIGN_BIT {
        if b >= SIGN_BIT {
            a > b
        } else {
            magnitude_of(a) > 0 || b > 0
        }
    } else {
        if b >= SIGN_BIT {
            false
        } else {
            a < b
        }
    }
}

/// The pattern of the non-negative number nearest to `m`.
pub fn from_magnitude(m: u64) -> (bits: u64)
    ensures
        bits == magnitude_bits(m as nat),
        bits < INFINITY,
{
    if m == 0 {
        return 0;
    }
    proof {
        lemma2_to64();
        lemma2_to64_rest();
    }
    let mut e: u64 = 0;
    let mut p: u64 = 1;
    while p <= m / 2
        invariant
            p == pow2(e as nat),
            1 <= p <= m,
            e <= 63,
        decreases m - p,
    {
        proof {
            lemma_pow2_unfold((e + 1) as nat);
            lemma2_to64();
            lemma2_to64_rest();
            if e >= 63 {
                assert(pow2(63) == 0x8000_0000_0000_0000);
                assert(false);
            }
        }
        p = p * 2;
        e = e + 1;
    }
    proof {
        lemma_floor_log2_unique(m as nat, e as nat);
    }
    let mut d: u64 = 1;
    let mut k: u64 = 0;
    let span: u64 = if e <= 52 { 52 - e } else { e - 52 };
    while k < span
        invariant
            d == pow2(k as nat),
            k <= span <= 52,
        decreases span - k,
    {
        proof {
            lemma_pow2_unfold((k + 1) as nat);
            lemma2_to64();
            lemma2_to64_rest();
        }
        d = d * 2;
        k = k + 1;
    }
    let sig: u64;
    if e <= 52 {
        proof {
            lemma_pow2_adds(e as nat, (52 - e) as nat);
            lemma_pow2_unfold((e + 1) as nat);
            assert(p * d == HIDDEN_BIT);
            assert(m * d >= p * d) by (nonlinear_arith)
                requires
                    m >= p,
            ;
            assert(m * d < 2 * p * d) by (nonlinear_arith)
                requires
                    m < 2 * p,
                    d >= 1,
            ;
            assert(2 * p * d == 2 * (p * d)) by (nonlinear_arith);
        }
        sig = m * d;
    } else {
        proof {
            lemma_pow2_adds((e - 52) as nat, 52);
            assert(d * HIDDEN_BIT == p);
            lemma_pow2_pos((e - 52) as nat);
            assert(m / d >= HIDDEN_BIT) by (nonlinear_arith)
                requires
                    m >= d * HIDDEN_BIT,
                    d >= 1,
            ;
            assert(m / d < 2 * HIDDEN_BIT) by (nonlinear_arith)
                requires
                    m < 2 * (d * HIDDEN_BIT),
                    d >= 1,
            ;
        }
        let q = m / d;
        let r = m % d;
        if r > d - r || (r == d - r && q % 2 == 1) {
            sig = q + 1;
        } else {
            sig = q;
        }
    }
    assert(HIDDEN_BIT <= sig <= 2 * HIDDEN_BIT);
    assert((1022 + e) * HIDDEN_BIT <= 1085 * HIDDEN_BIT) by (nonlinear_arith)
        requires
            e <= 63,
    ;
    (1022 + e) * HIDDEN_BIT + sig
}

/// The pattern of the number nearest to `u`.
pub fn from_unsigned(u: u64) -> (bits: u64)
    ensures
        bits == int_bits(u as int),
        !is_nan(bits),
{
    from_magnitude(u)
}

/// The pattern of the number nearest to `i`.
pub fn from_int(i: i64) -> (bits: u64)
    ensures
        bits == int_bits(i as int),
        !is_nan(bits),
{
    if i < 0 {
        let m: u64 = ((-(i + 1)) as u64) + 1;
        SIGN_BIT + from_magnitude(m)
    } else {
        from_magnitude(i as u64)
    }
}

} // verus!

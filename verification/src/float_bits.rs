//! IEEE-754 binary32 numbers held as their bit patterns.
//!
//! Script values carry `f32` numbers.  The library keeps such a number as
//! its 32-bit encoding (`f32::to_bits`) and decides the predicates the
//! validation ABI needs (finite, sign, magnitude bound, integral value)
//! from the encoding: bit 31 is the sign, bits 23..31 the biased exponent
//! and bits 0..23 the fraction.

use vstd::prelude::*;

verus! {

pub open spec fn two_pow(k: nat) -> nat
    decreases k,
{
    if k == 0 { 1 } else { 2 * two_pow((k - 1) as nat) }
}

/// Biased exponent field.
pub open spec fn f32_exponent(b: u32) -> nat {
    ((b as nat) / 0x80_0000) % 0x100
}

/// Fraction field.
pub open spec fn f32_fraction(b: u32) -> nat {
    (b as nat) % 0x80_0000
}

/// Encoding without its sign bit; for two numbers that are not NaN this
/// orders them as their absolute values order.
pub open spec fn f32_magnitude(b: u32) -> nat {
    (b as nat) % 0x8000_0000
}

pub open spec fn f32_sign_bit(b: u32) -> bool {
    b >= 0x8000_0000
}

pub open spec fn f32_is_nan(b: u32) -> bool {
    f32_exponent(b) == 0xff && f32_fraction(b) != 0
}

pub open spec fn f32_is_finite(b: u32) -> bool {
    f32_exponent(b) != 0xff
}

/// `+0.0` or `-0.0`.
pub open spec fn f32_is_zero(b: u32) -> bool {
    f32_magnitude(b) == 0
}

/// `x >= 0.0`: false for NaN, true for both zeros.
pub open spec fn f32_nonnegative(b: u32) -> bool {
    !f32_is_nan(b) && (!f32_sign_bit(b) || f32_is_zero(b))
}

/// `x > 0.0`.
pub open spec fn f32_positive(b: u32) -> bool {
    !f32_is_nan(b) && !f32_sign_bit(b) && !f32_is_zero(b)
}

/// Encoding of `1_000_000.0`.
pub const F32_ONE_MILLION: u32 = 0x4974_2400;

/// Encoding of `1.0`.
pub const F32_ONE: u32 = 0x3f80_0000;

/// Encoding of `-1.0`.
pub const F32_MINUS_ONE: u32 = 0xbf80_0000;

/// `x.abs() <= 1_000_000.0`: false for NaN.
pub open spec fn f32_abs_within_million(b: u32) -> bool {
    !f32_is_nan(b) && f32_magnitude(b) <= F32_ONE_MILLION
}

/// The value of a non-negative finite encoding when it is a whole number
/// (both zeros give `0`); `None` for a fractional value.
pub open spec fn f32_whole_value(b: u32) -> Option<nat> {
    let e = f32_exponent(b);
    let m = f32_fraction(b) + 0x80_0000;
    if f32_is_zero(b) {
        Some(0)
    } else if e < 127 {
        None
    } else if e >= 150 {
        Some(m * two_pow((e - 150) as nat))
    } else if m % two_pow((150 - e) as nat) == 0 {
        Some(m / two_pow((150 - e) as nat))
    } else {
        None
    }
}

pub fn f32_is_finite_exec(b: u32) -> (r: bool)
    ensures
        r == f32_is_finite(b),
{
    (b / 0x80_0000) % 0x100 != 0xff
}

pub fn f32_is_nan_exec(b: u32) -> (r: bool)
    ensures
        r == f32_is_nan(b),
{
    (b / 0x80_0000) % 0x100 == 0xff && b % 0x80_0000 != 0
}

pub fn f32_nonnegative_exec(b: u32) -> (r: bool)
    ensures
        r == f32_nonnegative(b),
{
    !f32_is_nan_exec(b) && (b < 0x8000_0000 || b % 0x8000_0000 == 0)
}

pub fn f32_positive_exec(b: u32) -> (r: bool)
    ensures
        r == f32_positive(b),
{
    !f32_is_nan_exec(b) && b < 0x8000_0000 && b % 0x8000_0000 != 0
}

pub fn f32_is_zero_exec(b: u32) -> (r: bool)
    ensures
        r == f32_is_zero(b),
{
    b % 0x8000_0000 == 0
}

pub fn f32_abs_within_million_exec(b: u32) -> (r: bool)
    ensures
        r == f32_abs_within_million(b),
{
    !f32_is_nan_exec(b) && b % 0x8000_0000 <= F32_ONE_MILLION
}

proof fn lemma_two_pow_positive(k: nat)
    ensures
        two_pow(k) >= 1,
    decreases k,
{
    if k > 0 {
        lemma_two_pow_positive((k - 1) as nat);
    }
}

proof fn lemma_two_pow_monotone(a: nat, b: nat)
    requires
        a <= b,
    ensures
        two_pow(a) <= two_pow(b),
    decreases b,
{
    if a < b {
        lemma_two_pow_monotone(a, (b - 1) as nat);
        lemma_two_pow_positive((b - 1) as nat);
    }
}

proof fn lemma_two_pow_9()
    ensures
        two_pow(8) == 256,
        two_pow(9) == 512,
{
    reveal_with_fuel(two_pow, 10);
}

proof fn lemma_two_pow_31()
    ensures
        two_pow(31) == 0x8000_0000,
{
    reveal_with_fuel(two_pow, 32);
}

/// `2^k` for `k < 32`.
fn two_pow_exec(k: u32) -> (r: u64)
    requires
        k < 32,
    ensures
        r == two_pow(k as nat),
{
    let mut p: u64 = 1;
    let mut i: u32 = 0;
    while i < k
        invariant
            i <= k < 32,
            p == two_pow(i as nat),
        decreases k - i,
    {
        proof {
            lemma_two_pow_monotone((i + 1) as nat, 31);
            lemma_two_pow_31();
        }
        p = p * 2;
        i = i + 1;
    }
    p
}

/// The value of a whole, non-negative, finite number no larger than
/// `u32::MAX`; `None` for any other encoding.
pub fn f32_whole_u32(b: u32) -> (r: Option<u32>)
    ensures
        r == (if !f32_is_nan(b) && f32_is_finite(b) && f32_nonnegative(b) && f32_whole_value(b) is Some
            && f32_whole_value(b)->0 <= u32::MAX {
            Some(f32_whole_value(b)->0 as u32)
        } else {
            None
        }),
{
    if !f32_is_finite_exec(b) || !f32_nonnegative_exec(b) {
        return None;
    }
    if f32_is_zero_exec(b) {
        return Some(0);
    }
    let e: u32 = (b / 0x80_0000) % 0x100;
    let m: u64 = (b % 0x80_0000) as u64 + 0x80_0000;
    if e < 127 {
        return None;
    }
    if e >= 159 {
        proof {
            lemma_two_pow_monotone(9, (e - 150) as nat);
            lemma_two_pow_9();
            assert(m * two_pow((e - 150) as nat) >= 0x80_0000 * 512) by (nonlinear_arith)
                requires
                    m >= 0x80_0000,
                    two_pow((e - 150) as nat) >= 512;
        }
        return None;
    }
    if e >= 150 {
        let p = two_pow_exec(e - 150);
        proof {
            lemma_two_pow_monotone((e - 150) as nat, 8);
            lemma_two_pow_9();
            assert(m * p <= 0xff_ffff * 256) by (nonlinear_arith)
                requires
                    m <= 0xff_ffff,
                    p <= 256;
        }
        let v = m * p;
        return Some(v as u32);
    }
    let p = two_pow_exec(150 - e);
    proof {
        lemma_two_pow_positive((150 - e) as nat);
    }
    if m % p != 0 {
        return None;
    }
    proof {
        assert(m / p <= m) by (nonlinear_arith)
            requires
                p >= 1;
    }
    Some((m / p) as u32)
}

/// Shifts a positive subnormal significand up until its leading bit is bit
/// 23, lowering the exponent by one per shift.
pub open spec fn normalize(exp: int, mant: int) -> (int, int)
    decreases 0x100_0000 - mant,
{
    if mant <= 0 || mant >= 0x80_0000 {
        (exp, mant)
    } else {
        normalize(exp - 1, mant * 2)
    }
}

/// The binary64 encoding of the binary32 number `b` (`f64::from`): both
/// zeros and infinities keep their sign, finite numbers are exact, and a
/// NaN stays a NaN carrying its payload, quieted.
pub open spec fn f32_widened(b: u32) -> u64 {
    let s: int = if f32_sign_bit(b) { 0x8000_0000_0000_0000 } else { 0 };
    let e = f32_exponent(b) as int;
    let m = f32_fraction(b) as int;
    (if e == 0xff {
        if m == 0 {
            s + 0x7ff * 0x10_0000_0000_0000
        } else {
            s + 0x7ff * 0x10_0000_0000_0000 + (if m >= 0x40_0000 { m } else { m + 0x40_0000 }) * 0x2000_0000
        }
    } else if e == 0 && m == 0 {
        s
    } else {
        let n = if e == 0 { normalize(897, m) } else { (e + 896, m + 0x80_0000) };
        s + n.0 * 0x10_0000_0000_0000 + (n.1 - 0x80_0000) * 0x2000_0000
    }) as u64
}

proof fn lemma_normalize(exp: int, mant: int, j: nat)
    requires
        0 < mant < 0x80_0000,
        j <= 23,
        mant >= two_pow(j),
    ensures
        0x80_0000 <= normalize(exp, mant).1 < 0x100_0000,
        exp - (23 - j) <= normalize(exp, mant).0 < exp,
    decreases 0x80_0000 - mant,
{
    if j == 23 {
        lemma_two_pow_23();
        assert(false);
    }
    assert(normalize(exp, mant) == normalize(exp - 1, mant * 2));
    if mant * 2 < 0x80_0000 {
        assert(two_pow(j + 1) == 2 * two_pow(j));
        lemma_normalize(exp - 1, mant * 2, j + 1);
    } else {
        assert(normalize(exp - 1, mant * 2) == (exp - 1, mant * 2));
        if j < 22 {
            assert(two_pow(j + 1) == 2 * two_pow(j));
        }
    }
}

proof fn lemma_two_pow_23()
    ensures
        two_pow(23) == 0x80_0000,
{
    reveal_with_fuel(two_pow, 24);
}

/// `f64::from` on encodings.
pub fn f32_widen(b: u32) -> (r: u64)
    ensures
        r == f32_widened(b),
{
    let sign: u64 = if b >= 0x8000_0000 { 0x8000_0000_0000_0000 } else { 0 };
    let e: u64 = ((b / 0x80_0000) % 0x100) as u64;
    let m: u64 = (b % 0x80_0000) as u64;
    if e == 0xff {
        if m == 0 {
            return sign + 0x7ff * 0x10_0000_0000_0000;
        }
        let quiet: u64 = if m >= 0x40_0000 { m } else { m + 0x40_0000 };
        return sign + 0x7ff * 0x10_0000_0000_0000 + quiet * 0x2000_0000;
    }
    if e == 0 && m == 0 {
        return sign;
    }
    let mut exp: u64;
    let mut mant: u64;
    if e == 0 {
        exp = 897;
        mant = m;
        proof {
            lemma_normalize(897, m as int, 0);
        }
        let ghost target = normalize(897, m as int);
        while mant < 0x80_0000
            invariant
                0 < mant < 0x100_0000,
                874 <= target.0 <= exp <= 897,
                normalize(exp as int, mant as int) == target,
            decreases 0x100_0000 - mant,
        {
            proof {
                lemma_normalize(exp as int, mant as int, 0);
            }
            mant = mant * 2;
            exp = exp - 1;
        }
    } else {
        exp = e + 896;
        mant = m + 0x80_0000;
    }
    sign + exp * 0x10_0000_0000_0000 + (mant - 0x80_0000) * 0x2000_0000
}


/// Biased exponent field of a binary64 encoding.
pub open spec fn f64_exponent(b: u64) -> nat {
    ((b as nat) / 0x10_0000_0000_0000) % 0x800
}

/// Fraction field of a binary64 encoding.
pub open spec fn f64_fraction(b: u64) -> nat {
    (b as nat) % 0x10_0000_0000_0000
}

pub open spec fn f64_is_nan(b: u64) -> bool {
    f64_exponent(b) == 0x7ff && f64_fraction(b) != 0
}

pub open spec fn f64_is_finite(b: u64) -> bool {
    f64_exponent(b) != 0x7ff
}

/// `+0.0` or `-0.0`.
pub open spec fn f64_is_zero(b: u64) -> bool {
    (b as nat) % 0x8000_0000_0000_0000 == 0
}

/// `x >= 0.0`: false for NaN, true for both zeros.
pub open spec fn f64_nonnegative(b: u64) -> bool {
    !f64_is_nan(b) && (b < 0x8000_0000_0000_0000 || f64_is_zero(b))
}

/// The value of a non-negative finite binary64 encoding when it is a
/// whole number (both zeros give `0`); `None` for a fractional value.
pub open spec fn f64_whole_value(b: u64) -> Option<nat> {
    let e = f64_exponent(b);
    let m = f64_fraction(b) + 0x10_0000_0000_0000;
    if f64_is_zero(b) {
        Some(0)
    } else if e < 1023 {
        None
    } else if e >= 1075 {
        Some(m * two_pow((e - 1075) as nat))
    } else if m % two_pow((1075 - e) as nat) == 0 {
        Some(m / two_pow((1075 - e) as nat))
    } else {
        None
    }
}

proof fn lemma_two_pow_63()
    ensures
        two_pow(52) == 0x10_0000_0000_0000,
        two_pow(63) == 0x8000_0000_0000_0000,
{
    reveal_with_fuel(two_pow, 64);
}

/// `2^k` for `k < 64`.
fn two_pow_exec64(k: u32) -> (r: u64)
    requires
        k < 64,
    ensures
        r == two_pow(k as nat),
{
    let mut p: u64 = 1;
    let mut i: u32 = 0;
    while i < k
        invariant
            i <= k < 64,
            p == two_pow(i as nat),
        decreases k - i,
    {
        proof {
            lemma_two_pow_monotone((i + 1) as nat, 63);
            lemma_two_pow_63();
        }
        p = p * 2;
        i = i + 1;
    }
    p
}

/// The value of a whole, non-negative, finite binary64 number no larger
/// than `u32::MAX`; `None` for any other encoding.
pub fn f64_whole_u32(b: u64) -> (r: Option<u32>)
    ensures
        r == (if f64_is_finite(b) && f64_nonnegative(b) && f64_whole_value(b) is Some
            && f64_whole_value(b)->0 <= u32::MAX {
            Some(f64_whole_value(b)->0 as u32)
        } else {
            None
        }),
{
    let e: u64 = (b / 0x10_0000_0000_0000) % 0x800;
    let frac: u64 = b % 0x10_0000_0000_0000;
    let zero = b % 0x8000_0000_0000_0000 == 0;
    let nan = e == 0x7ff && frac != 0;
    if e == 0x7ff || nan || !(b < 0x8000_0000_0000_0000 || zero) {
        return None;
    }
    if zero {
        return Some(0);
    }
    let m: u64 = frac + 0x10_0000_0000_0000;
    if e < 1023 {
        return None;
    }
    if e >= 1075 {
        proof {
            lemma_two_pow_positive((e - 1075) as nat);
            assert(m * two_pow((e - 1075) as nat) >= 0x10_0000_0000_0000) by (nonlinear_arith)
                requires
                    m >= 0x10_0000_0000_0000,
                    two_pow((e - 1075) as nat) >= 1;
        }
        return None;
    }
    let p = two_pow_exec64((1075 - e) as u32);
    proof {
        lemma_two_pow_positive((1075 - e) as nat);
    }
    if m % p != 0 {
        return None;
    }
    let v = m / p;
    if v > 0xffff_ffff {
        return None;
    }
    Some(v as u32)
}

/// The range checks on binary32 numbers, read on their encodings: a finite
/// number of magnitude at most one million has a magnitude field of at most
/// the encoding of `1_000_000.0`; it is also non-negative exactly when its
/// sign bit is clear or it is `-0.0`, positive exactly when its encoding is
/// between `1` and that of one million, and non-zero exactly when its
/// magnitude field is.
pub proof fn lemma_bounded_encodings(b: u32)
    ensures
        (f32_is_finite(b) && f32_abs_within_million(b)) == ((b as nat) % 0x8000_0000 <= 0x4974_2400),
        (f32_is_finite(b) && f32_abs_within_million(b) && f32_nonnegative(b)) == (b <= 0x4974_2400 || b == 0x8000_0000),
        (f32_is_finite(b) && f32_abs_within_million(b) && f32_positive(b)) == (1 <= b <= 0x4974_2400),
        (f32_is_finite(b) && f32_abs_within_million(b) && !f32_is_zero(b))
            == (0 < (b as nat) % 0x8000_0000 <= 0x4974_2400),
        (f32_is_finite(b) && f32_nonnegative(b)) == (b < 0x7f80_0000 || b == 0x8000_0000),
{
    let m = (b as nat) % 0x8000_0000;
    if b < 0x8000_0000 {
        assert(m == b as nat);
    } else {
        assert(m == b as nat - 0x8000_0000);
    }
    if m <= 0x4974_2400 {
        assert(m / 0x80_0000 <= 0x92) by (nonlinear_arith)
            requires m <= 0x4974_2400;
        assert((b as nat) / 0x80_0000 == m / 0x80_0000 || (b as nat) / 0x80_0000 == m / 0x80_0000 + 0x100);
        assert(f32_exponent(b) <= 0x92);
    }
    if b < 0x8000_0000 {
        assert(f32_exponent(b) == (b as nat) / 0x80_0000);
        if b < 0x7f80_0000 {
            assert((b as nat) / 0x80_0000 < 0xff);
        } else {
            assert((b as nat) / 0x80_0000 == 0xff);
        }
    }
}

/// A binary32 number is finite exactly when its magnitude field lies below
/// that of infinity, and `>= 0.0` exactly when it is at most `+inf` or is
/// `-0.0`.
pub proof fn lemma_finite_encoding(b: u32)
    ensures
        f32_is_finite(b) == ((b as nat) % 0x8000_0000 < 0x7f80_0000),
        f32_nonnegative(b) == (b <= 0x7f80_0000 || b == 0x8000_0000),
{
    let m = (b as nat) % 0x8000_0000;
    if b < 0x8000_0000 {
        assert(m == b as nat);
        assert(f32_exponent(b) == (b as nat) / 0x80_0000);
    } else {
        assert(m == b as nat - 0x8000_0000);
        assert(f32_exponent(b) == m / 0x80_0000);
    }
}

} // verus!
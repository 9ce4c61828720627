//! Single-precision samples as IEEE 754 bit patterns.
//!
//! A sample is the `u32` that holds the 32 bits of a binary32 number. The
//! functions here scale integers into that form and back, with the rounding
//! (to nearest, ties to even) that a floating point unit applies.

use vstd::arithmetic::div_mod::lemma_fundamental_div_mod;
use vstd::arithmetic::power2::{
    lemma2_to64, lemma_pow2_adds, lemma_pow2_pos, lemma_pow2_strictly_increases,
    lemma_pow2_unfold, pow2,
};
use vstd::bits::{lemma_u64_pow2_no_overflow, lemma_u64_shl_is_mul, lemma_u64_shr_is_div};
use vstd::prelude::*;

verus! {

/// The bits of 0.0.
pub const ZERO: u32 = 0;

/// The bits of 1.0.
pub const ONE: u32 = 0x3F80_0000;

/// The bits of positive infinity; what lies above, up to the sign bit, is NaN.
pub const INFINITY: u32 = 0x7F80_0000;

/// The position of the highest set bit of `n`.
pub open spec fn msb(n: nat) -> nat
    decreases n,
{
    if n <= 1 {
        0
    } else {
        1 + msb(n / 2)
    }
}

/// `x / d` rounded to the nearest integer, ties to the even one.
pub open spec fn round_even(x: nat, d: nat) -> nat {
    let q = x / d;
    let r = x % d;
    if 2 * r < d || (2 * r == d && q % 2 == 0) {
        q
    } else {
        q + 1
    }
}

/// `x` rounded to `digits` significant bits.
pub open spec fn round_to(x: nat, digits: nat) -> nat {
    if msb(x) < digits {
        x
    } else {
        let unit = pow2((msb(x) + 1 - digits) as nat);
        round_even(x, unit) * unit
    }
}

/// The magnitude bits: everything but the sign.
pub open spec fn magnitude(bits: u32) -> nat {
    (bits % 0x8000_0000) as nat
}

/// Whether the sign bit is set.
pub open spec fn is_negative(bits: u32) -> bool {
    bits >= 0x8000_0000
}

pub open spec fn is_nan(bits: u32) -> bool {
    magnitude(bits) > INFINITY
}

/// The significand of a finite number as an integer: the number's magnitude is
/// `significand * 2^(ulp_exponent - 149)`.
pub open spec fn significand(bits: u32) -> nat {
    let mag = magnitude(bits);
    if mag / 0x80_0000 == 0 {
        mag % 0x80_0000
    } else {
        0x80_0000 + mag % 0x80_0000
    }
}

/// The exponent of the last place, counted from that of the smallest number.
pub open spec fn ulp_exponent(bits: u32) -> nat {
    let e = magnitude(bits) / 0x80_0000;
    if e == 0 {
        0
    } else {
        (e - 1) as nat
    }
}

/// The finite number that `bits` stands for, in units of the smallest number,
/// 2^-149.
pub open spec fn units(bits: u32) -> int {
    let size = (significand(bits) * pow2(ulp_exponent(bits))) as int;
    if is_negative(bits) {
        -size
    } else {
        size
    }
}

/// The magnitude bits of `r / 2^shift`, where `r` has at most 24 significant bits.
pub open spec fn exact_bits(r: nat, shift: nat) -> int {
    if r == 0 {
        0
    } else {
        let e = msb(r);
        let s = if e <= 23 {
            r * pow2((23 - e) as nat)
        } else {
            r / pow2((e - 23) as nat)
        };
        (e + 127 - shift) * 0x80_0000 + (s - 0x80_0000)
    }
}

/// The bits of the number nearest to `v / 2^shift`.
pub open spec fn from_ratio(v: int, shift: nat) -> int {
    if v < 0 {
        0x8000_0000 + exact_bits(round_to((-v) as nat, 24), shift)
    } else {
        exact_bits(round_to(v as nat, 24), shift)
    }
}

/// The integer that `bits`, clamped to [-1, 1], becomes when multiplied by
/// `scale`, rounded to `digits` significant bits and cut off at the point.
/// NaN becomes 0.
pub open spec fn to_scaled(bits: u32, scale: nat, digits: nat) -> int {
    if is_nan(bits) {
        0
    } else {
        let v = if magnitude(bits) >= ONE {
            scale as int
        } else {
            (round_to(significand(bits) * scale, digits) / pow2(
                (149 - ulp_exponent(bits)) as nat,
            )) as int
        };
        if is_negative(bits) {
            -v
        } else {
            v
        }
    }
}

pub proof fn lemma_msb_bounds(n: nat)
    requires
        n > 0,
    ensures
        pow2(msb(n)) <= n < pow2(msb(n) + 1),
    decreases n,
{
    lemma2_to64();
    if n > 1 {
        lemma_msb_bounds(n / 2);
        lemma_pow2_unfold(msb(n));
        lemma_pow2_unfold(msb(n) + 1);
    }
}

proof fn lemma_msb_unique(n: nat, e: nat)
    requires
        pow2(e) <= n < pow2(e + 1),
    ensures
        msb(n) == e,
    decreases n,
{
    lemma2_to64();
    lemma_pow2_pos(e);
    if n == 1 {
        if e > 0 {
            lemma_pow2_strictly_increases(0, e);
        }
    } else {
        if e == 0 {
            assert(false);
        }
        lemma_pow2_unfold(e);
        lemma_pow2_unfold(e + 1);
        lemma_msb_unique(n / 2, (e - 1) as nat);
    }
}

/// A number below `2^k` has its highest bit below position `k`.
pub proof fn lemma_msb_below(n: nat, k: nat)
    requires
        0 < n < pow2(k),
    ensures
        msb(n) < k,
{
    lemma_msb_bounds(n);
    if msb(n) > k {
        lemma_pow2_strictly_increases(k, msb(n));
    }
}

fn highest_bit(n: u64) -> (e: u32)
    requires
        n > 0,
    ensures
        e == msb(n as nat),
        e < 64,
{
    let mut k: u64 = n;
    let mut e: u32 = 0;
    proof {
        lemma2_to64();
        lemma_msb_below(n as nat, 64);
    }
    while k > 1
        invariant
            0 < k <= n,
            msb(n as nat) == e + msb(k as nat),
            e + msb(k as nat) < 64,
        decreases k,
    {
        k = k / 2;
        e = e + 1;
    }
    e
}

/// The number of units in a power of two, for exponents that fit.
fn power_of_two(k: u32) -> (r: u64)
    requires
        k < 64,
    ensures
        r == pow2(k as nat),
{
    proof {
        lemma_u64_pow2_no_overflow(k as nat);
        lemma_u64_shl_is_mul(1, k as u64);
    }
    1u64 << (k as u64)
}

/// Rounds `x` to `digits` significant bits.
pub(crate) fn rounded(x: u64, digits: u32) -> (r: u128)
    requires
        0 < digits < 64,
    ensures
        r == round_to(x as nat, digits as nat),
        r <= 2 * x,
{
    if x == 0 {
        return 0;
    }
    let e: u32 = highest_bit(x);
    if e < digits {
        return x as u128;
    }
    let unit: u64 = power_of_two(e + 1 - digits);
    proof {
        lemma_msb_bounds(x as nat);
        lemma_pow2_pos((e + 1 - digits) as nat);
        if e + 1 - digits < e {
            lemma_pow2_strictly_increases((e + 1 - digits) as nat, e as nat);
        }
        assert(unit <= x);
        lemma_fundamental_div_mod(x as int, unit as int);
        assert((x / unit) * unit <= x && (x / unit + 1) * unit <= 2 * x) by (nonlinear_arith)
            requires
                unit > 0,
                unit <= x,
                x == unit * (x / unit) + x % unit,
                x % unit >= 0,
        ;
    }
    let q: u64 = x / unit;
    let rest: u64 = x % unit;
    if rest < unit - rest || (rest == unit - rest && q % 2 == 0) {
        q as u128 * unit as u128
    } else {
        (q as u128 + 1) * unit as u128
    }
}

/// A sample kept within [-1, 1]; NaN stays what it is.
pub open spec fn clamped(bits: u32) -> u32 {
    if is_nan(bits) || magnitude(bits) <= ONE {
        bits
    } else if is_negative(bits) {
        (0x8000_0000 + ONE) as u32
    } else {
        ONE
    }
}

pub fn clamp_unit(bits: u32) -> (r: u32)
    ensures
        r == clamped(bits),
{
    let mag: u32 = bits % 0x8000_0000;
    if mag > INFINITY || mag <= ONE {
        bits
    } else if bits >= 0x8000_0000 {
        0x8000_0000 + ONE
    } else {
        ONE
    }
}

proof fn lemma_significand_range(r: nat, e: nat)
    requires
        pow2(e) <= r < pow2(e + 1),
    ensures
        e <= 23 ==> 0x80_0000 <= r * pow2((23 - e) as nat) < 0x100_0000,
        e > 23 ==> 0x80_0000 <= r / pow2((e - 23) as nat) < 0x100_0000,
{
    lemma2_to64();
    if e <= 23 {
        let k = (23 - e) as nat;
        lemma_pow2_adds(e, k);
        lemma_pow2_adds(e + 1, k);
        lemma_pow2_pos(k);
        let a = pow2(e);
        let b = pow2(e + 1);
        let m = pow2(k);
        assert(a * m <= r * m < b * m) by (nonlinear_arith)
            requires
                a <= r < b,
                m > 0,
        ;
    } else {
        let k = (e - 23) as nat;
        lemma_pow2_adds(23, k);
        lemma_pow2_adds(24, k);
        lemma_pow2_pos(k);
        let m = pow2(k);
        assert(0x80_0000 <= r / m < 0x100_0000) by (nonlinear_arith)
            requires
                0x80_0000 * m <= r < 0x100_0000 * m,
                m > 0,
        ;
    }
}

/// The bits of the number nearest to `v / 2^shift`.
pub fn ratio_bits(v: i32, shift: u32) -> (r: u32)
    requires
        shift <= 126,
    ensures
        r == from_ratio(v as int, shift as nat),
{
    let mag: u64 = if v < 0 {
        (-(v as i64)) as u64
    } else {
        v as u64
    };
    let near: u64 = rounded(mag, 24) as u64;
    let mut bits: u32 = 0;
    if near != 0 {
        let e: u32 = highest_bit(near);
        proof {
            lemma2_to64();
            lemma_msb_bounds(near as nat);
            lemma_significand_range(near as nat, e as nat);
            if e > 23 {
                lemma_pow2_pos((e - 23) as nat);
            }
        }
        let s: u64 = if e <= 23 {
            near * power_of_two(23 - e)
        } else {
            near / power_of_two(e - 23)
        };
        bits = (e + 127 - shift) * 0x80_0000 + (s as u32 - 0x80_0000);
    }
    if v < 0 {
        0x8000_0000 + bits
    } else {
        bits
    }
}

proof fn lemma_scaled_range(sig: nat, scale: nat, digits: nat, sh: nat)
    requires
        sig < 0x100_0000,
        scale < pow2(digits),
        digits > 0,
        24 <= sh,
    ensures
        round_to(sig * scale, digits) / pow2(sh) <= scale,
{
    lemma2_to64();
    let p = sig * scale;
    let m = scale * 0x100_0000;
    assert(p <= m) by (nonlinear_arith)
        requires
            p == sig * scale,
            m == scale * 0x100_0000,
            sig < 0x100_0000,
    ;
    let r = round_to(p, digits);
    assert(r <= m) by {
        if msb(p) >= digits {
            lemma_pow2_adds(24, digits);
            let top = pow2(digits);
            assert(p < 0x100_0000 * top) by (nonlinear_arith)
                requires
                    p == sig * scale,
                    sig < 0x100_0000,
                    scale < top,
            ;
            assert(p > 0);
            lemma_msb_below(p, 24 + digits);
            let k = (msb(p) + 1 - digits) as nat;
            let unit = pow2(k);
            lemma_pow2_pos(k);
            lemma_pow2_adds(k, (24 - k) as nat);
            let rest = pow2((24 - k) as nat);
            let n = scale * rest;
            assert(n * unit == m) by (nonlinear_arith)
                requires
                    n == scale * rest,
                    unit * rest == 0x100_0000,
                    m == scale * 0x100_0000,
            ;
            lemma_fundamental_div_mod(p as int, unit as int);
            let q = p / unit;
            let c = round_even(p, unit);
            assert(c <= n) by (nonlinear_arith)
                requires
                    p <= m,
                    n * unit == m,
                    unit > 0,
                    p == unit * q + p % unit,
                    0 <= p % unit,
                    c == q || (c == q + 1 && p % unit > 0),
            ;
            assert(c * unit <= m) by (nonlinear_arith)
                requires
                    c <= n,
                    n * unit == m,
                    unit > 0,
            ;
        }
    }
    if sh > 24 {
        lemma_pow2_strictly_increases(24, sh);
    }
    let d = pow2(sh);
    assert(r / d <= scale) by (nonlinear_arith)
        requires
            r <= scale * 0x100_0000,
            d >= 0x100_0000,
    ;
}

/// Rounding does not carry a number past a power of two.
proof fn lemma_round_to_below(x: nat, digits: nat, k: nat)
    requires
        x <= pow2(k),
        digits > 0,
    ensures
        round_to(x, digits) <= pow2(k),
{
    if x > 0 && msb(x) >= digits {
        lemma_msb_bounds(x);
        if msb(x) > k {
            lemma_pow2_strictly_increases(k, msb(x));
        }
        let low = (msb(x) + 1 - digits) as nat;
        lemma_pow2_adds(low, (k - low) as nat);
        lemma_pow2_pos(low);
        let unit = pow2(low);
        let rest = pow2((k - low) as nat);
        lemma_fundamental_div_mod(x as int, unit as int);
        let q = x / unit;
        let c = round_even(x, unit);
        assert(c * unit <= unit * rest) by (nonlinear_arith)
            requires
                x <= unit * rest,
                unit > 0,
                x == unit * q + x % unit,
                0 <= x % unit,
                c == q || (c == q + 1 && x % unit > 0),
        ;
    }
}

/// The number nearest to `v / 2^shift` lies within [-1, 1] where `v / 2^shift`
/// does.
pub proof fn lemma_ratio_within_unit(v: int, shift: nat)
    requires
        -pow2(shift) <= v <= pow2(shift),
        shift <= 126,
    ensures
        v >= 0 ==> 0 <= from_ratio(v, shift) <= ONE,
        v < 0 ==> 0x8000_0000 <= from_ratio(v, shift) <= 0x8000_0000 + ONE,
{
    let x: nat = if v < 0 {
        (-v) as nat
    } else {
        v as nat
    };
    lemma_round_to_below(x, 24, shift);
    let r = round_to(x, 24);
    if r > 0 {
        let e = msb(r);
        lemma_msb_bounds(r);
        lemma_significand_range(r, e);
        if e > shift {
            lemma_pow2_strictly_increases(shift, e);
        }
        if e == shift {
            lemma2_to64();
            assert(r == pow2(e));
            if e <= 23 {
                lemma_pow2_adds(e, (23 - e) as nat);
            } else {
                let k = (e - 23) as nat;
                lemma_pow2_adds(23, k);
                lemma_pow2_pos(k);
                let m = pow2(k);
                assert(r / m == 0x80_0000) by (nonlinear_arith)
                    requires
                        r == 0x80_0000 * m,
                        m > 0,
                ;
            }
        }
    }
}

/// Clamps `bits` to [-1, 1], multiplies by `scale` and cuts off at the point.
pub fn scaled(bits: u32, scale: u32, digits: u32) -> (r: i64)
    requires
        24 <= digits < 64,
        scale < pow2(digits as nat),
        scale < 0x8000_0000,
    ensures
        r == to_scaled(bits, scale as nat, digits as nat),
        -scale <= r <= scale,
{
    let mag: u32 = bits % 0x8000_0000;
    if mag > INFINITY {
        return 0;
    }
    let v: i64 = if mag >= ONE {
        scale as i64
    } else {
        let exp: u32 = mag / 0x80_0000;
        let frac: u32 = mag % 0x80_0000;
        let sig: u64 = if exp == 0 {
            frac as u64
        } else {
            0x80_0000 + frac as u64
        };
        let ulp: u32 = if exp == 0 {
            0
        } else {
            exp - 1
        };
        let sh: u32 = 149 - ulp;
        assert(sig * scale < 0x80_0000_0000_0000) by (nonlinear_arith)
            requires
                sig < 0x100_0000,
                scale < 0x8000_0000,
        ;
        let near: u64 = rounded(sig * scale as u64, digits) as u64;
        proof {
            lemma_scaled_range(sig as nat, scale as nat, digits as nat, sh as nat);
            lemma2_to64();
            lemma_pow2_pos(sh as nat);
            if sh > 64 {
                lemma_pow2_strictly_increases(64, sh as nat);
            }
            if sh >= 64 {
                vstd::arithmetic::div_mod::lemma_basic_div(near as int, pow2(sh as nat) as int);
            } else {
                lemma_u64_shr_is_div(near, sh as u64);
            }
        }
        if sh >= 64 {
            0
        } else {
            (near >> (sh as u64)) as i64
        }
    };
    if bits >= 0x8000_0000 {
        -v
    } else {
        v
    }
}

/// Rounding to `digits` bits moves a number by at most its `2^digits`th part.
proof fn lemma_round_error(x: nat, digits: nat)
    requires
        digits > 0,
    ensures
        (round_to(x, digits) - x) * pow2(digits) <= x,
        (x - round_to(x, digits)) * pow2(digits) <= x,
{
    if x > 0 && msb(x) >= digits {
        lemma_msb_bounds(x);
        let k = (msb(x) + 1 - digits) as nat;
        lemma_pow2_adds(k, digits);
        lemma_pow2_unfold(msb(x) + 1);
        lemma_pow2_pos(k);
        lemma_pow2_pos(digits);
        let unit = pow2(k) as int;
        let part = pow2(digits) as int;
        lemma_fundamental_div_mod(x as int, unit);
        let q = (x / pow2(k)) as int;
        let c = round_even(x, pow2(k)) as int;
        let moved = c * unit - x;
        assert(-unit <= 2 * moved <= unit) by (nonlinear_arith)
            requires
                x == unit * q + x % (unit as nat),
                0 <= x % (unit as nat) < unit,
                moved == c * unit - x,
                c == q && 2 * (x % (unit as nat)) <= unit || c == q + 1 && 2 * (x % (unit as nat))
                    >= unit,
        ;
        assert(moved * part <= x && -moved * part <= x) by (nonlinear_arith)
            requires
                -unit <= 2 * moved <= unit,
                unit * part <= 2 * x,
                part > 0,
        ;
    } else {
        assert(round_to(x, digits) == x);
    }
}

/// A number rounded to 24 bits has no set bit below its highest 24.
proof fn lemma_rounded_fits(x: nat)
    ensures
        ({
            let r = round_to(x, 24);
            msb(r) > 23 ==> r % pow2((msb(r) - 23) as nat) == 0
        }),
{
    lemma2_to64();
    if x > 0 && msb(x) >= 24 {
        let e = msb(x);
        let k = (e - 23) as nat;
        lemma_msb_bounds(x);
        lemma_significand_range(x, e);
        lemma_pow2_pos(k);
        lemma_pow2_unfold(k + 1);
        lemma_pow2_adds(23, k);
        lemma_pow2_adds(24, k);
        lemma_pow2_unfold(e + 2);
        let unit = pow2(k);
        let c = round_even(x, unit);
        let r = round_to(x, 24);
        assert(r == c * unit);
        assert(0x80_0000 <= c <= 0x100_0000);
        if c < 0x100_0000 {
            assert(0x80_0000 * unit <= c * unit < 0x100_0000 * unit) by (nonlinear_arith)
                requires
                    0x80_0000 <= c < 0x100_0000,
                    unit > 0,
            ;
            lemma_msb_unique(r, e);
            vstd::arithmetic::div_mod::lemma_mod_multiples_basic(c as int, unit as int);
        } else {
            lemma_pow2_unfold(e + 1);
            lemma_msb_unique(r, e + 1);
            assert(r == 0x80_0000 * pow2(k + 1));
            lemma_pow2_pos(k + 1);
            vstd::arithmetic::div_mod::lemma_mod_multiples_basic(
                0x80_0000,
                pow2(k + 1) as int,
            );
        }
    }
}

/// The bits of `r / 2^shift` stand for `r / 2^shift`.
proof fn lemma_exact_bits_units(r: nat, shift: nat)
    requires
        shift <= 126,
        msb(r) > 23 ==> r % pow2((msb(r) - 23) as nat) == 0,
        msb(r) <= shift + 1,
    ensures
        0 <= exact_bits(r, shift) < INFINITY,
        units(exact_bits(r, shift) as u32) == r * pow2((149 - shift) as nat),
        units((0x8000_0000 + exact_bits(r, shift)) as u32) == -(r * pow2((149 - shift) as nat)),
{
    lemma2_to64();
    if r == 0 {
        assert(significand(0) == 0 && ulp_exponent(0) == 0);
        assert(significand(0x8000_0000) == 0 && ulp_exponent(0x8000_0000) == 0);
        assert(r * pow2((149 - shift) as nat) == 0) by (nonlinear_arith)
            requires
                r == 0,
        ;
    } else {
        let e = msb(r);
        lemma_msb_bounds(r);
        lemma_significand_range(r, e);
        let s: nat = if e <= 23 {
            r * pow2((23 - e) as nat)
        } else {
            r / pow2((e - 23) as nat)
        };
        let field = e + 127 - shift;
        let mag = field * 0x80_0000 + (s - 0x80_0000);
        assert(exact_bits(r, shift) == mag);
        assert(1 <= field <= 128);
        let pos = mag as u32;
        let neg = (0x8000_0000 + mag) as u32;
        assert(magnitude(pos) == mag && magnitude(neg) == mag);
        assert(significand(pos) == s && significand(neg) == s);
        let u = (field - 1) as nat;
        assert(ulp_exponent(pos) == u && ulp_exponent(neg) == u);
        let rest = pow2((149 - shift) as nat);
        if e <= 23 {
            let m = pow2((23 - e) as nat);
            lemma_pow2_adds((23 - e) as nat, u);
            assert(s * pow2(u) == r * rest) by (nonlinear_arith)
                requires
                    s == r * m,
                    m * pow2(u) == rest,
            ;
        } else {
            let m = pow2((e - 23) as nat);
            lemma_pow2_pos((e - 23) as nat);
            lemma_fundamental_div_mod(r as int, m as int);
            lemma_pow2_adds((e - 23) as nat, (149 - shift) as nat);
            assert(s * pow2(u) == r * rest) by (nonlinear_arith)
                requires
                    r == m * s,
                    m * rest == pow2(u),
            ;
        }
    }
}

/// How far a sample `s / 2^k` within the unit, scaled by `2^sh - 1`, cut off and
/// rounded, may be from where scaling by `2^sh` would have put it.
proof fn lemma_scaling_error(s: nat, k: nat, scale: nat, digits: nat, sh: nat)
    requires
        s <= pow2(k),
        scale + 1 == pow2(sh),
        scale < pow2(digits),
        digits > 0,
    ensures
        ({
            let v = round_to(s * scale, digits) / pow2(k);
            -3 * pow2(k) <= v * pow2(k) - s * pow2(sh) <= 3 * pow2(k)
        }),
{
    lemma_pow2_pos(k);
    lemma_pow2_pos(digits);
    let p = s * scale;
    let near = round_to(p, digits);
    lemma_round_error(p, digits);
    let d = pow2(k) as int;
    let part = pow2(digits) as int;
    let moved = near - p;
    assert(p <= d * scale) by (nonlinear_arith)
        requires
            p == s * scale,
            s <= d,
            scale >= 0,
    ;
    assert(d * scale < d * part) by (nonlinear_arith)
        requires
            scale < part,
            d > 0,
    ;
    assert(-d <= moved <= d) by (nonlinear_arith)
        requires
            moved * part <= p,
            -moved * part <= p,
            p < d * part,
            part > 0,
    ;
    lemma_fundamental_div_mod(near as int, d);
    let v = near / pow2(k);
    assert(near - d < v * d <= near) by (nonlinear_arith)
        requires
            near == d * v + near % (d as nat),
            0 <= near % (d as nat) < d,
    ;
    assert(s * pow2(sh) == p + s) by (nonlinear_arith)
        requires
            scale + 1 == pow2(sh),
            p == s * scale,
    ;
}

/// A sample that is clamped, scaled by `2^sh - 1` to an integer and read back as so
/// many parts of `2^sh` moves by at most 3 of these parts, or by 131 where the
/// integer may have more than 24 bits.
pub proof fn lemma_scaled_round_trip(bits: u32, scale: nat, digits: nat, sh: nat)
    requires
        !is_nan(bits),
        sh <= 31,
        scale + 1 == pow2(sh),
        24 <= digits,
        scale < pow2(digits),
    ensures
        ({
            let v = to_scaled(bits, scale, digits);
            let moved = units(from_ratio(v, sh) as u32) - units(clamped(bits));
            let bound: int = if sh <= 24 {
                3
            } else {
                131
            };
            &&& -scale <= v <= scale
            &&& -bound * pow2(149) <= moved * pow2(sh) <= bound * pow2(149)
        }),
{
    lemma2_to64();
    if sh < 31 {
        lemma_pow2_strictly_increases(sh, 31);
    }
    let one = pow2(149) as int;
    let step = pow2(sh) as int;
    let bound: int = if sh <= 24 {
        3
    } else {
        131
    };
    let signed_v = to_scaled(bits, scale, digits);
    let v: nat = if magnitude(bits) >= ONE {
        scale
    } else {
        lemma_scaled_range(
            significand(bits),
            scale,
            digits,
            (149 - ulp_exponent(bits)) as nat,
        );
        round_to(significand(bits) * scale, digits) / pow2((149 - ulp_exponent(bits)) as nat)
    };
    assert(signed_v == if is_negative(bits) {
        -v
    } else {
        v as int
    });
    assert(v <= scale);
    let r = round_to(v, 24);
    lemma_round_to_below(v, 24, sh);
    lemma_round_error(v, 24);
    lemma_rounded_fits(v);
    assert(msb(r) <= sh) by {
        if r > 0 {
            lemma_msb_bounds(r);
            if msb(r) > sh {
                lemma_pow2_strictly_increases(sh, msb(r));
            }
        }
    }
    lemma_exact_bits_units(r, sh);
    let slack: int = if sh <= 24 {
        0
    } else {
        128
    };
    assert(v - slack <= r <= v + slack) by {
        if sh <= 24 {
            if sh < 24 {
                lemma_pow2_strictly_increases(sh, 24);
            }
            if v > 0 {
                lemma_msb_below(v, 24);
            }
        }
    }
    let back = r * pow2((149 - sh) as nat);
    lemma_pow2_adds((149 - sh) as nat, sh);
    assert(back * step == r * one) by (nonlinear_arith)
        requires
            back == r * pow2((149 - sh) as nat),
            pow2((149 - sh) as nat) * step == one,
    ;
    let size: int = if magnitude(bits) >= ONE {
        one
    } else {
        (significand(bits) * pow2(ulp_exponent(bits))) as int
    };
    assert(units(clamped(bits)) == if is_negative(bits) {
        -size
    } else {
        size
    }) by {
        if magnitude(bits) >= ONE {
            let c = clamped(bits);
            assert(magnitude(c) == ONE);
            assert(significand(c) == 0x80_0000 && ulp_exponent(c) == 126);
            lemma_pow2_adds(23, 126);
        }
    }
    assert(-bound * one <= (back - size) * step <= bound * one) by {
        if magnitude(bits) >= ONE {
            assert((back - size) * step == (r - step) * one) by (nonlinear_arith)
                requires
                    back * step == r * one,
                    size == one,
            ;
            assert(-bound * one <= (r - step) * one <= bound * one) by (nonlinear_arith)
                requires
                    -bound <= r - step <= bound,
                    one >= 0,
            ;
        } else {
            let s = significand(bits);
            let u = ulp_exponent(bits);
            let k = (149 - u) as nat;
            assert(u <= 125 && s < 0x100_0000);
            if k > 24 {
                lemma_pow2_strictly_increases(24, k);
            }
            lemma_scaling_error(s, k, scale, digits, sh);
            lemma_pow2_adds(u, k);
            lemma_pow2_pos(k);
            lemma_pow2_pos(u);
            let d = pow2(k) as int;
            let w = pow2(u) as int;
            let gap = r * d - s * step;
            assert(-bound * d <= gap <= bound * d) by (nonlinear_arith)
                requires
                    -3 * d <= v * d - s * step <= 3 * d,
                    v - slack <= r <= v + slack,
                    bound == 3 + slack,
                    gap == r * d - s * step,
                    d > 0,
            ;
            assert((back - size) * step == w * gap) by (nonlinear_arith)
                requires
                    back * step == r * one,
                    size == s * w,
                    w * d == one,
                    gap == r * d - s * step,
            ;
            assert(-bound * one <= w * gap <= bound * one) by (nonlinear_arith)
                requires
                    -bound * d <= gap <= bound * d,
                    w * d == one,
                    w > 0,
            ;
        }
    }
    let moved = units(from_ratio(signed_v, sh) as u32) - units(clamped(bits));
    if is_negative(bits) {
        if v == 0 {
            assert(r == 0);
            assert(back == 0) by (nonlinear_arith)
                requires
                    back == r * pow2((149 - sh) as nat),
                    r == 0,
            ;
        }
        assert(moved == -(back - size));
        assert(moved * step == -((back - size) * step)) by (nonlinear_arith)
            requires
                moved == -(back - size),
        ;
    } else {
        assert(moved == back - size);
        assert(moved * step == (back - size) * step);
    }
    assert(-bound * one == -(bound * one)) by (nonlinear_arith);
    assert(-bound * one <= moved * step <= bound * one);
}

proof fn lemma_units_of_parts(e: nat, m: nat, bits: u32)
    requires
        bits == e * 0x80_0000 + m,
        m < 0x80_0000,
        e < 255,
    ensures
        units(bits) == if e == 0 {
            m as int
        } else {
            ((0x80_0000 + m) * pow2((e - 1) as nat)) as int
        },
{
    lemma2_to64();
    assert(magnitude(bits) == bits);
    assert(bits as nat / 0x80_0000 == e && bits as nat % 0x80_0000 == m);
    assert(m * 1 == m);
}

/// Bit patterns of numbers that are not negative are ordered as the numbers are:
/// the greater pattern stands for the greater number.
pub proof fn law_patterns_are_ordered(a: u32, b: u32)
    requires
        a < b < INFINITY,
    ensures
        0 <= units(a) < units(b),
{
    let (ea, ma) = ((a / 0x80_0000) as nat, (a % 0x80_0000) as nat);
    let (eb, mb) = ((b / 0x80_0000) as nat, (b % 0x80_0000) as nat);
    lemma_units_of_parts(ea, ma, a);
    lemma_units_of_parts(eb, mb, b);
    lemma2_to64();
    if eb > 0 {
        let pb = pow2((eb - 1) as nat);
        lemma_pow2_pos((eb - 1) as nat);
        if ea == eb {
            assert((0x80_0000 + ma) * pb < (0x80_0000 + mb) * pb) by (nonlinear_arith)
                requires
                    ma < mb,
                    pb > 0,
            ;
        } else if ea == 0 {
            assert((0x80_0000 + mb) * pb >= 0x80_0000) by (nonlinear_arith)
                requires
                    pb >= 1,
            ;
        } else {
            let pa = pow2((ea - 1) as nat);
            lemma_pow2_pos((ea - 1) as nat);
            lemma_pow2_unfold(ea);
            if ea < eb - 1 {
                lemma_pow2_strictly_increases(ea, (eb - 1) as nat);
            }
            assert(2 * pa <= pb);
            assert((0x80_0000 + ma) * pa < (0x80_0000 + mb) * pb) by (nonlinear_arith)
                requires
                    2 * pa <= pb,
                    pa > 0,
                    ma < 0x80_0000,
            ;
        }
        if ea > 0 {
            let pa = pow2((ea - 1) as nat);
            lemma_pow2_pos((ea - 1) as nat);
            assert((0x80_0000 + ma) * pa >= 0) by (nonlinear_arith)
                requires
                    pa > 0,
            ;
        }
    }
}

/// Three more in the exponent is eight times the number.
pub proof fn lemma_eight_times(bits: u32)
    requires
        0x80_0000 <= bits < 252 * 0x80_0000,
    ensures
        units((bits + 3 * 0x80_0000) as u32) == 8 * units(bits),
{
    let (e, m) = ((bits / 0x80_0000) as nat, (bits % 0x80_0000) as nat);
    lemma_units_of_parts(e, m, bits);
    lemma_units_of_parts(e + 3, m, (bits + 3 * 0x80_0000) as u32);
    lemma2_to64();
    lemma_pow2_adds((e - 1) as nat, 3);
    let p = pow2((e - 1) as nat);
    assert((0x80_0000 + m) * (p * 8) == 8 * ((0x80_0000 + m) * p)) by (nonlinear_arith);
}

/// Clamping brings every number to the nearest one within [-1, 1]: what lies within
/// stays, and what lies beyond goes to the end that it lies beyond.
pub proof fn law_clamping_goes_to_the_nearest_end(bits: u32)
    requires
        !is_nan(bits),
    ensures
        magnitude(clamped(bits)) <= ONE,
        is_negative(clamped(bits)) == is_negative(bits),
        magnitude(bits) <= ONE ==> clamped(bits) == bits,
        magnitude(bits) >= ONE ==> magnitude(clamped(bits)) == ONE,
        clamped(clamped(bits)) == clamped(bits),
{
}

/// Numbers of at most 24 bits are turned into samples without loss: the sample for
/// `v / 2^shift` is that number.
pub proof fn law_small_ratios_are_exact(v: int, shift: nat)
    requires
        -0x100_0000 < v < 0x100_0000,
        -pow2(shift) <= v <= pow2(shift),
        shift <= 31,
    ensures
        units(from_ratio(v, shift) as u32) * pow2(shift) == v * pow2(149),
{
    lemma2_to64();
    lemma_ratio_within_unit(v, shift);
    let x: nat = if v < 0 {
        (-v) as nat
    } else {
        v as nat
    };
    if x > 0 {
        lemma_msb_below(x, 24);
        lemma_pow2_unfold(shift + 1);
        lemma_msb_below(x, shift + 1);
    }
    assert(round_to(x, 24) == x);
    lemma_exact_bits_units(x, shift);
    lemma_pow2_adds((149 - shift) as nat, shift);
    let rest = pow2((149 - shift) as nat) as int;
    let step = pow2(shift) as int;
    let u = units(from_ratio(v, shift) as u32);
    assert(u == v * rest) by (nonlinear_arith)
        requires
            v >= 0 ==> u == x * rest,
            v < 0 ==> u == -(x * rest),
            v >= 0 ==> x == v,
            v < 0 ==> x == -v,
    ;
    assert(u * step == v * (rest * step)) by (nonlinear_arith)
        requires
            u == v * rest,
    ;
}

/// A sample is scaled towards zero: its sign is kept, full scale and beyond come to the
/// ends of the range, and within it the integer is the whole part of the rounded
/// product, never more.
pub proof fn law_scaling_cuts_off_towards_zero(bits: u32, scale: nat, digits: nat)
    ensures
        is_nan(bits) ==> to_scaled(bits, scale, digits) == 0,
        !is_nan(bits) && !is_negative(bits) ==> to_scaled(bits, scale, digits) >= 0,
        !is_nan(bits) && is_negative(bits) ==> to_scaled(bits, scale, digits) <= 0,
        !is_nan(bits) && magnitude(bits) >= ONE ==> to_scaled(bits, scale, digits) == if is_negative(
            bits,
        ) {
            -scale
        } else {
            scale as int
        },
        magnitude(bits) < ONE ==> {
            let v = if is_negative(bits) {
                -to_scaled(bits, scale, digits)
            } else {
                to_scaled(bits, scale, digits)
            };
            let near = round_to(significand(bits) * scale, digits);
            let one = pow2((149 - ulp_exponent(bits)) as nat);
            v * one <= near < (v + 1) * one
        },
{
    if magnitude(bits) < ONE {
        let near = round_to(significand(bits) * scale, digits);
        let one = pow2((149 - ulp_exponent(bits)) as nat);
        lemma_pow2_pos((149 - ulp_exponent(bits)) as nat);
        lemma_fundamental_div_mod(near as int, one as int);
        let q = (near / one) as int;
        assert(q >= 0) by (nonlinear_arith)
            requires
                q == near / one,
                one > 0,
        ;
        assert(q * one <= near < (q + 1) * one) by (nonlinear_arith)
            requires
                near == one * q + near % one,
                0 <= near % one < one,
        ;
    }
}

} // verus!

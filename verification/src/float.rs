//! Binary floating-point numbers read through their bits.
//!
//! A number is the triple of a sign, an exponent field and a fraction
//! field. Rounding to an integer is done on those fields alone.

use vstd::prelude::*;
use vstd::arithmetic::power2::{
    lemma2_to64, lemma2_to64_rest, lemma_pow2_strictly_increases, lemma_pow2_unfold, pow2,
};
use crate::model::FloatBits;

verus! {

/// The sign bit is set.
pub open spec fn is_negative(f: FloatBits) -> bool {
    match f {
        FloatBits::Single(b) => b >= 0x8000_0000,
        FloatBits::Double(b) => b >= 0x8000_0000_0000_0000,
    }
}

/// The number of bits of the fraction field.
pub open spec fn fraction_bits(f: FloatBits) -> nat {
    match f {
        FloatBits::Single(_) => 23,
        FloatBits::Double(_) => 52,
    }
}

/// The bias of the exponent field.
pub open spec fn exponent_bias(f: FloatBits) -> int {
    match f {
        FloatBits::Single(_) => 127,
        FloatBits::Double(_) => 1023,
    }
}

/// The exponent field.
pub open spec fn exponent_field(f: FloatBits) -> int {
    match f {
        FloatBits::Single(b) => (b as int / 0x80_0000) % 256,
        FloatBits::Double(b) => (b as int / 0x10_0000_0000_0000) % 2048,
    }
}

/// The fraction field.
pub open spec fn fraction_field(f: FloatBits) -> int {
    match f {
        FloatBits::Single(b) => b as int % 0x80_0000,
        FloatBits::Double(b) => b as int % 0x10_0000_0000_0000,
    }
}

/// The exponent field is all ones: the number is an infinity or not a
/// number at all.
pub open spec fn is_special(f: FloatBits) -> bool {
    exponent_field(f) == 2 * exponent_bias(f) + 1
}

/// The integer `m` of which the magnitude is `m` times a power of two: the
/// fraction, with the implicit leading one unless the exponent field is
/// zero.
pub open spec fn significand(f: FloatBits) -> int {
    if exponent_field(f) == 0 {
        fraction_field(f)
    } else {
        pow2(fraction_bits(f)) + fraction_field(f)
    }
}

/// The power of two by which the significand is scaled.
pub open spec fn scale(f: FloatBits) -> int {
    (if exponent_field(f) == 0 {
        1
    } else {
        exponent_field(f)
    }) - exponent_bias(f) - fraction_bits(f)
}

/// `m` times two to the power `e`, rounded to the nearest integer, halves
/// upwards.
pub open spec fn round_scaled(m: int, e: int) -> int {
    if e >= 0 {
        m * pow2(e as nat)
    } else {
        (2 * m + pow2((-e) as nat)) / (2 * pow2((-e) as nat) as int)
    }
}

/// The number rounded to the nearest integer, halves away from zero, and
/// brought into the range of an unsigned 32-bit integer: zero for what is
/// not a number and for every negative number, the largest value for what
/// lies above it.
pub open spec fn rounded_u32(f: FloatBits) -> u32 {
    if is_special(f) {
        if fraction_field(f) != 0 || is_negative(f) {
            0
        } else {
            u32::MAX
        }
    } else if is_negative(f) {
        0
    } else if round_scaled(significand(f), scale(f)) > u32::MAX {
        u32::MAX
    } else {
        round_scaled(significand(f), scale(f)) as u32
    }
}

/// Two to the power `k`.
fn power_of_two(k: u64) -> (r: u64)
    requires
        k <= 62,
    ensures
        r == pow2(k as nat),
        r <= 0x4000_0000_0000_0000,
{
    let mut r: u64 = 1;
    let mut i: u64 = 0;
    proof {
        lemma2_to64();
        lemma2_to64_rest();
    }
    while i < k
        invariant
            i <= k <= 62,
            r == pow2(i as nat),
            pow2(62) == 0x4000_0000_0000_0000,
        decreases k - i,
    {
        proof {
            lemma_pow2_unfold((i + 1) as nat);
            if i + 1 < 62 {
                lemma_pow2_strictly_increases((i + 1) as nat, 62);
            }
        }
        r = r * 2;
        i += 1;
    }
    proof {
        if k < 62 {
            lemma_pow2_strictly_increases(k as nat, 62);
        }
    }
    r
}

/// Rounds a number to the nearest unsigned 32-bit integer.
pub fn round_to_u32(f: FloatBits) -> (r: u32)
    ensures
        r == rounded_u32(f),
{
    let (negative, exp, frac, width, bias): (bool, u64, u64, u64, u64) = match f {
        FloatBits::Single(b) => (
            b >= 0x8000_0000,
            ((b / 0x80_0000) % 256) as u64,
            (b % 0x80_0000) as u64,
            23,
            127,
        ),
        FloatBits::Double(b) => (
            b >= 0x8000_0000_0000_0000,
            (b / 0x10_0000_0000_0000) % 2048,
            b % 0x10_0000_0000_0000,
            52,
            1023,
        ),
    };
    if exp == 2 * bias + 1 {
        return if frac != 0 || negative {
            0
        } else {
            u32::MAX
        };
    }
    if negative {
        return 0;
    }
    proof {
        lemma2_to64();
        lemma2_to64_rest();
    }
    if exp == 0 {
        proof {
            let k = (bias + width - 1) as nat;
            lemma_pow2_strictly_increases((width + 1) as nat, k);
            lemma_half_rounds_down(frac as int, pow2(k) as int);
        }
        return 0;
    }
    let m: u64 = power_of_two(width) + frac;
    if exp >= bias + width {
        let e: u64 = exp - bias - width;
        if width == 52 || e >= 9 {
            proof {
                if e >= 9 {
                    if e > 9 {
                        lemma_pow2_strictly_increases(9, e as nat);
                    }
                    lemma_product_grows(m as int, 0x80_0000, pow2(e as nat) as int, 512);
                } else {
                    if e > 0 {
                        lemma_pow2_strictly_increases(0, e as nat);
                    }
                    lemma_product_grows(m as int, 0x10_0000_0000_0000, pow2(e as nat) as int, 1);
                }
            }
            return u32::MAX;
        }
        let p: u64 = power_of_two(e);
        proof {
            if e < 8 {
                lemma_pow2_strictly_increases(e as nat, 8);
            }
            lemma_product_bounded(m as int, 0x100_0000, p as int, 256);
        }
        let v: u64 = m * p;
        return v as u32;
    }
    let k: u64 = bias + width - exp;
    if k >= width + 2 {
        proof {
            if k > width + 2 {
                lemma_pow2_strictly_increases((width + 2) as nat, k as nat);
            }
            lemma_half_rounds_down(m as int, pow2(k as nat) as int);
        }
        return 0;
    }
    let p: u64 = power_of_two(k);
    proof {
        if k < width + 1 {
            lemma_pow2_strictly_increases(k as nat, (width + 1) as nat);
        }
    }
    let v: u64 = (2 * m + p) / (2 * p);
    if v > 0xffff_ffff {
        u32::MAX
    } else {
        v as u32
    }
}

/// A number below half of `p` rounds down to zero when it is divided by
/// `p`.
proof fn lemma_half_rounds_down(m: int, p: int)
    requires
        0 <= m,
        2 * m < p,
    ensures
        (2 * m + p) / (2 * p) == 0,
{
    assert((2 * m + p) / (2 * p) == 0) by (nonlinear_arith)
        requires
            0 <= 2 * m + p < 2 * p,
    ;
}

/// A product of two numbers that are at least `a` and `b` is at least
/// `a * b`.
proof fn lemma_product_grows(m: int, a: int, p: int, b: int)
    requires
        0 <= a <= m,
        0 <= b <= p,
    ensures
        m * p >= a * b,
{
    assert(m * p >= a * b) by (nonlinear_arith)
        requires
            0 <= a <= m,
            0 <= b <= p,
    ;
}

/// A product of two numbers that are below `a` and at most `b` is below
/// `a * b`.
proof fn lemma_product_bounded(m: int, a: int, p: int, b: int)
    requires
        0 <= m < a,
        0 < p <= b,
    ensures
        0 <= m * p < a * b,
{
    assert(0 <= m * p < a * b) by (nonlinear_arith)
        requires
            0 <= m < a,
            0 < p <= b,
    ;
}

/// The number is a real number that is not negative: neither an infinity
/// nor not-a-number, and its sign bit is clear.
pub open spec fn is_plain(f: FloatBits) -> bool {
    !is_special(f) && !is_negative(f)
}

/// Whether the number is finite and its sign bit is clear.
pub fn is_finite_and_not_negative(f: FloatBits) -> (r: bool)
    ensures
        r == is_plain(f),
{
    match f {
        FloatBits::Single(b) => b < 0x8000_0000 && (b / 0x80_0000) % 256 != 255,
        FloatBits::Double(b) => b < 0x8000_0000_0000_0000 && (b / 0x10_0000_0000_0000) % 2048
            != 2047,
    }
}

} // verus!

//! The interval rounding policy: from the oracle's continuous interval to
//! a whole day count.
//!
//! The oracle reports each candidate interval as a day count with a
//! fractional part, carried here as the bit pattern of an `f32`.  The
//! policy fixed for this engine is: round half up, with a minimum of one
//! day.  Values that are not positive real numbers (negative values,
//! zeros, NaN) also yield the one-day minimum, and values beyond `u32`
//! saturate, so every bit pattern maps to a positive day count.
//!
//! The rounding is computed on the bit pattern itself with integer
//! arithmetic — sign, exponent and significand are taken apart explicitly
//! — so the policy is verified rather than delegated to floating point.

use vstd::arithmetic::div_mod::{lemma_basic_div, lemma_div_nonincreasing};
use vstd::arithmetic::mul::lemma_mul_inequality;
use vstd::arithmetic::power2::{
    lemma2_to64, lemma2_to64_rest, lemma_pow2_adds, lemma_pow2_pos, lemma_pow2_strictly_increases,
    pow2,
};
use vstd::prelude::*;

verus! {

/// Sign bit of an `f32` bit pattern: 0 nonnegative, 1 negative.
pub open spec fn f32_sign(bits: u32) -> u32 {
    bits / 0x8000_0000
}

/// Biased exponent field of an `f32` bit pattern.
pub open spec fn f32_exp(bits: u32) -> u32 {
    (bits / 0x0080_0000) % 0x100
}

/// Fraction field of an `f32` bit pattern.
pub open spec fn f32_frac(bits: u32) -> u32 {
    bits % 0x0080_0000
}

/// The integer significand of the encoded value: the fraction field with
/// the implicit leading bit added for normal numbers.
pub open spec fn f32_significand(bits: u32) -> nat {
    if f32_exp(bits) == 0 {
        f32_frac(bits) as nat
    } else {
        f32_frac(bits) as nat + 0x0080_0000
    }
}

/// The power-of-two scale of the encoded value: a finite `f32` encodes
/// `significand * 2^scale`.
pub open spec fn f32_scale(bits: u32) -> int {
    if f32_exp(bits) == 0 {
        -149
    } else {
        f32_exp(bits) - 150
    }
}

/// `m * 2^e`, rounded half up to a whole number.  For a nonnegative
/// scale the value is already whole; otherwise adding half the divisor
/// before the floor division rounds halves upward.
pub open spec fn round_half_up(m: nat, e: int) -> nat {
    if e >= 0 {
        m * pow2(e as nat)
    } else {
        (m + pow2((-e - 1) as nat)) / pow2((-e) as nat)
    }
}

/// The day count scheduled for an oracle interval with bit pattern
/// `bits`: the value rounded half up, at least one day, saturated at
/// `u32::MAX`; NaN and every nonpositive value yield the minimum.
pub open spec fn spec_interval_days(bits: u32) -> u32 {
    if f32_sign(bits) == 1 {
        1u32
    } else if f32_exp(bits) == 0xFF {
        if f32_frac(bits) == 0 {
            u32::MAX
        } else {
            1u32
        }
    } else {
        let r = round_half_up(f32_significand(bits), f32_scale(bits));
        if r == 0 {
            1u32
        } else if r > u32::MAX {
            u32::MAX
        } else {
            r as u32
        }
    }
}

/// `2^e` as a machine word.
fn pow2_u64(e: u32) -> (p: u64)
    requires
        e < 64,
    ensures
        p as nat == pow2(e as nat),
{
    let mut p: u64 = 1;
    let mut i: u32 = 0;
    assert(p as nat == pow2(0)) by {
        lemma2_to64();
    }
    while i < e
        invariant
            i <= e < 64,
            p as nat == pow2(i as nat),
        decreases e - i,
    {
        proof {
            lemma_pow2_strictly_increases(i as nat + 1, 64);
            lemma_pow2_adds(i as nat, 1);
            lemma2_to64();
            lemma2_to64_rest();
        }
        p = p * 2;
        i = i + 1;
    }
    p
}

/// Applies the rounding policy to an oracle interval's bit pattern.
pub fn interval_days(bits: u32) -> (days: u32)
    ensures
        days == spec_interval_days(bits),
{
    let sign = bits / 0x8000_0000;
    let exp = (bits / 0x0080_0000) % 0x100;
    let frac = bits % 0x0080_0000;
    if sign == 1 {
        return 1;
    }
    if exp == 0xFF {
        return if frac == 0 {
            u32::MAX
        } else {
            1
        };
    }
    if exp == 0 {
        // A subnormal is far below one half, so it rounds to the minimum.
        proof {
            lemma_pow2_strictly_increases(23, 148);
            lemma_pow2_adds(148, 1);
            lemma2_to64();
            lemma_basic_div(frac as nat + pow2(148) as int, pow2(149) as int);
        }
        return 1;
    }
    let m: u64 = (frac as u64) + 0x0080_0000;
    if exp >= 150 {
        let shift = exp - 150;
        if shift >= 32 {
            // significand * 2^shift >= 2^23 * 2^32, beyond u32: saturate.
            proof {
                lemma2_to64();
                lemma_pow2_strictly_increases(32, 23 + shift as nat);
                lemma_pow2_adds(23, shift as nat);
                lemma_mul_inequality(
                    pow2(23) as int,
                    m as int,
                    pow2(shift as nat) as int,
                );
            }
            return u32::MAX;
        }
        let p = pow2_u64(shift);
        proof {
            lemma2_to64();
            if shift > 0 {
                lemma_pow2_strictly_increases(0, shift as nat);
            }
            lemma_pow2_strictly_increases(shift as nat, 32);
            lemma_mul_inequality(m as int, 0x0100_0000, p as int);
            lemma_mul_inequality(1, p as int, m as int);
        }
        let v = m * p;
        proof {
            assert(f32_significand(bits) == m as nat);
            assert(f32_scale(bits) == shift as int);
            assert(v as nat == round_half_up(f32_significand(bits), f32_scale(bits)));
            assert(v as nat >= m as nat);
        }
        if v > 0xFFFF_FFFF {
            u32::MAX
        } else {
            v as u32
        }
    } else {
        let k = 150 - exp;
        if k >= 25 {
            // significand + 2^(k-1) < 2^k: the value is below one half
            // and rounds to the minimum.
            proof {
                if k > 25 {
                    lemma_pow2_strictly_increases(24, (k - 1) as nat);
                }
                lemma_pow2_adds((k - 1) as nat, 1);
                lemma2_to64();
                lemma_basic_div(m as int + pow2((k - 1) as nat) as int, pow2(k as nat) as int);
            }
            return 1;
        }
        let half = pow2_u64(k - 1);
        let p = pow2_u64(k);
        proof {
            lemma_pow2_strictly_increases((k - 1) as nat, 24);
            lemma_pow2_strictly_increases(k as nat, 25);
            lemma_pow2_pos(k as nat);
            lemma2_to64();
            lemma_div_nonincreasing(m as int + half as int, p as int);
        }
        let v = (m + half) / p;
        proof {
            assert(f32_significand(bits) == m as nat);
            assert(f32_scale(bits) == exp - 150);
            assert(v as nat == round_half_up(f32_significand(bits), f32_scale(bits)));
            assert(v as nat <= m as nat + half as nat);
        }
        if v == 0 {
            1
        } else {
            v as u32
        }
    }
}

} // verus!

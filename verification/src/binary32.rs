//! Numbers of the G-code fields arrive as IEEE 754 binary32 bit patterns.
//! This module converts such a pattern to an integer type the way Rust's `as`
//! does: the value is truncated toward zero, NaN becomes 0, and values out of
//! range (infinities included) saturate at the bounds of the target type.
use vstd::prelude::*;
use vstd::arithmetic::power2::*;
use vstd::arithmetic::mul::*;
use vstd::bits::*;

verus! {

/// The biased exponent field (bits 23..31).
pub open spec fn exponent_field(bits: u32) -> int {
    (bits as int / 0x80_0000) % 0x100
}

/// The fraction field (bits 0..23).
pub open spec fn fraction_field(bits: u32) -> int {
    bits as int % 0x80_0000
}

/// The sign bit.
pub open spec fn is_negative(bits: u32) -> bool {
    bits >= 0x8000_0000
}

/// The pattern encodes a NaN.
pub open spec fn is_nan(bits: u32) -> bool {
    exponent_field(bits) == 0xff && fraction_field(bits) != 0
}

/// Magnitude of the encoded number, truncated toward zero.
/// NaN counts as 0 and an infinity as 2^128, above every finite binary32 magnitude.
pub open spec fn truncated_magnitude(bits: u32) -> nat {
    let e = exponent_field(bits);
    let f = fraction_field(bits);
    if e == 0xff {
        if f == 0 {
            pow2(128)
        } else {
            0
        }
    } else {
        // significand and power of two of the value `m * 2^(k - 150)`
        let m = if e == 0 { f } else { f + 0x80_0000 };
        let k = if e == 0 { 1 } else { e };
        if k >= 150 {
            (m * pow2((k - 150) as nat)) as nat
        } else {
            (m / pow2((150 - k) as nat) as int) as nat
        }
    }
}

/// The encoded number truncated toward zero (NaN as 0, infinities as +-2^128).
pub open spec fn truncated_value(bits: u32) -> int {
    if is_negative(bits) {
        -truncated_magnitude(bits)
    } else {
        truncated_magnitude(bits) as int
    }
}

pub open spec fn clamp(x: int, lo: int, hi: int) -> int {
    if x < lo {
        lo
    } else if x > hi {
        hi
    } else {
        x
    }
}

/// `value as i16` for the number whose pattern is `bits`.
pub open spec fn as_i16(bits: u32) -> i16 {
    clamp(truncated_value(bits), i16::MIN as int, i16::MAX as int) as i16
}

/// `value as u8` for the number whose pattern is `bits`.
pub open spec fn as_u8(bits: u32) -> u8 {
    clamp(truncated_value(bits), 0, u8::MAX as int) as u8
}

/// `value as u16` for the number whose pattern is `bits`.
pub open spec fn as_u16(bits: u32) -> u16 {
    clamp(truncated_value(bits), 0, u16::MAX as int) as u16
}

/// `value as u32` for the number whose pattern is `bits`.
pub open spec fn as_u32(bits: u32) -> u32 {
    clamp(truncated_value(bits), 0, u32::MAX as int) as u32
}

/// Bound of the intermediate result: above every target type's range.
pub open spec fn wide_limit() -> int {
    0x100_0000_0000
}

proof fn lemma_fields(bits: u32)
    ensures
        (bits >> 23u32) & 0xffu32 == exponent_field(bits),
        bits & 0x7f_ffffu32 == fraction_field(bits),
        (bits >> 31u32 == 1u32) == is_negative(bits),
{
    assert((bits >> 23u32) & 0xffu32 == (bits / 0x80_0000u32) % 0x100u32) by (bit_vector);
    assert(bits & 0x7f_ffffu32 == bits % 0x80_0000u32) by (bit_vector);
    assert((bits >> 31u32 == 1u32) == (bits >= 0x8000_0000u32)) by (bit_vector);
}

/// The magnitude truncated toward zero, capped at `wide_limit()`.
fn capped_magnitude(bits: u32) -> (r: u64)
    ensures
        r == clamp(truncated_magnitude(bits) as int, 0, wide_limit()),
{
    proof {
        lemma_fields(bits);
        lemma2_to64();
        lemma2_to64_rest();
    }
    let e = (bits >> 23u32) & 0xffu32;
    let f = bits & 0x7f_ffffu32;
    if e == 0xff {
        if f == 0 {
            proof {
                lemma_pow2_strictly_increases(40, 128);
            }
            return 0x100_0000_0000;
        } else {
            return 0;
        }
    }
    let m: u64 = if e == 0 { f as u64 } else { f as u64 + 0x80_0000 };
    let k: u32 = if e == 0 { 1 } else { e };
    assert(m < 0x100_0000);
    if k >= 150 {
        let sh = k - 150;
        if sh >= 17 {
            proof {
                if sh > 17 {
                    lemma_pow2_strictly_increases(17, sh as nat);
                }
                lemma_mul_inequality(0x80_0000, m as int, pow2(sh as nat) as int);
                lemma_mul_inequality(pow2(17) as int, pow2(sh as nat) as int, 0x80_0000);
                lemma_mul_is_commutative(0x80_0000, pow2(sh as nat) as int);
                lemma_mul_is_commutative(0x80_0000, pow2(17) as int);
            }
            0x100_0000_0000
        } else {
            proof {
                if sh < 16 {
                    lemma_pow2_strictly_increases(sh as nat, 16);
                }
                lemma_mul_inequality(m as int, 0x100_0000, pow2(sh as nat) as int);
                lemma_mul_inequality(pow2(sh as nat) as int, pow2(16) as int, 0x100_0000);
                lemma_mul_is_commutative(0x100_0000, pow2(sh as nat) as int);
                lemma_u64_shl_is_mul(m, sh as u64);
            }
            m << (sh as u64)
        }
    } else {
        let sh = 150 - k;
        if sh >= 24 {
            proof {
                if sh > 24 {
                    lemma_pow2_strictly_increases(24, sh as nat);
                }
                vstd::arithmetic::div_mod::lemma_basic_div(m as int, pow2(sh as nat) as int);
            }
            0
        } else {
            proof {
                lemma_u64_shr_is_div(m, sh as u64);
            }
            m >> (sh as u64)
        }
    }
}

/// The number truncated toward zero, clamped to +-`wide_limit()`.
fn truncated_wide(bits: u32) -> (r: i64)
    ensures
        r == clamp(truncated_value(bits), -wide_limit(), wide_limit()),
{
    proof {
        lemma_fields(bits);
    }
    let mag = capped_magnitude(bits);
    if bits >> 31u32 == 1u32 {
        -(mag as i64)
    } else {
        mag as i64
    }
}

/// `value as i16`, with `value` given by its binary32 pattern.
pub fn to_i16(bits: u32) -> (r: i16)
    ensures
        r == as_i16(bits),
{
    let v = truncated_wide(bits);
    if v < -32768 {
        -32768
    } else if v > 32767 {
        32767
    } else {
        v as i16
    }
}

/// `value as u8`, with `value` given by its binary32 pattern.
pub fn to_u8(bits: u32) -> (r: u8)
    ensures
        r == as_u8(bits),
{
    let v = truncated_wide(bits);
    if v < 0 {
        0
    } else if v > 255 {
        255
    } else {
        v as u8
    }
}

/// `value as u16`, with `value` given by its binary32 pattern.
pub fn to_u16(bits: u32) -> (r: u16)
    ensures
        r == as_u16(bits),
{
    let v = truncated_wide(bits);
    if v < 0 {
        0
    } else if v > 65535 {
        65535
    } else {
        v as u16
    }
}

/// `value as u32`, with `value` given by its binary32 pattern.
pub fn to_u32(bits: u32) -> (r: u32)
    ensures
        r == as_u32(bits),
{
    let v = truncated_wide(bits);
    if v < 0 {
        0
    } else if v > 0xffff_ffff {
        0xffff_ffff
    } else {
        v as u32
    }
}

} // verus!

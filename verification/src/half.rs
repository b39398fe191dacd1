//! Half-precision numbers as bit patterns.
//!
//! A 32-bit float has a sign, 8 exponent bits with bias 127 and 23 fraction bits;
//! a 16-bit one has a sign, 5 exponent bits with bias 15 and 10 fraction bits.

use vstd::prelude::*;

verus! {

/// The sign of a 32-bit float.
pub open spec fn sign32(bits: u32) -> int {
    bits as int / 0x8000_0000
}

/// The exponent field of a 32-bit float.
pub open spec fn exponent32(bits: u32) -> int {
    bits as int / 0x80_0000 % 0x100
}

/// The fraction field of a 32-bit float.
pub open spec fn fraction32(bits: u32) -> int {
    bits as int % 0x80_0000
}

/// The sign of a 16-bit float.
pub open spec fn sign16(bits: u16) -> int {
    bits as int / 0x8000
}

/// The exponent field of a 16-bit float.
pub open spec fn exponent16(bits: u16) -> int {
    bits as int / 0x400 % 0x20
}

/// The fraction field of a 16-bit float.
pub open spec fn fraction16(bits: u16) -> int {
    bits as int % 0x400
}

/// The half-precision number for a 32-bit float: the fraction is cut off, a number
/// too small for a normal half becomes a zero of its sign, and one too large, an
/// infinity or a not-a-number becomes an infinity of its sign.
pub open spec fn half_of(bits: u32) -> int {
    let exponent = exponent32(bits) - 127 + 15;
    sign32(bits) * 0x8000 + if exponent <= 0 {
        0
    } else if exponent >= 31 {
        0x7C00
    } else {
        exponent * 0x400 + fraction32(bits) / 0x2000
    }
}

/// The 32-bit float for a half-precision number. The exponent is rebiased also for
/// a half without the implicit leading bit, and every not-a-number becomes the one
/// quiet pattern.
pub open spec fn single_of(bits: u16) -> int {
    let exponent = exponent16(bits);
    let fraction = fraction16(bits);
    if exponent == 0 && fraction == 0 {
        sign16(bits) * 0x8000_0000
    } else if exponent == 31 && fraction == 0 {
        sign16(bits) * 0x8000_0000 + 0x7F80_0000
    } else if exponent == 31 {
        0x7FC0_0000
    } else {
        sign16(bits) * 0x8000_0000 + (exponent - 15 + 127) * 0x80_0000 + fraction * 0x2000
    }
}

/// Converts the bits of a 32-bit float to a half.
pub fn f32_to_f16(bits: u32) -> (r: u16)
    ensures
        r == half_of(bits),
{
    let sign: u32 = (bits >> 31) & 1;
    let exp: u32 = (bits >> 23) & 0xFF;
    let frac: u32 = bits & 0x7F_FFFF;
    assert(sign == bits / 0x8000_0000 && exp == bits / 0x80_0000 % 0x100 && frac == bits
        % 0x80_0000) by (bit_vector)
        requires
            sign == (bits >> 31) & 1,
            exp == (bits >> 23) & 0xFF,
            frac == bits & 0x7F_FFFF,
    ;
    assert(sign <= 1 && exp < 0x100 && frac < 0x80_0000);
    let signed: u32 = sign << 15;
    assert(signed == sign * 0x8000) by (bit_vector)
        requires
            signed == sign << 15,
            sign <= 1,
    ;
    let new_exp: i32 = exp as i32 - 127 + 15;
    if new_exp <= 0 {
        return signed as u16;
    }
    if new_exp >= 31 {
        let r: u32 = signed | 0x7C00;
        assert(r == sign * 0x8000 + 0x7C00) by (bit_vector)
            requires
                r == (sign << 15) | 0x7C00,
                sign <= 1,
        ;
        return r as u16;
    }
    let e: u32 = new_exp as u32;
    let r: u32 = signed | (e << 10) | (frac >> 13);
    assert(r == sign * 0x8000 + e * 0x400 + frac / 0x2000 && r < 0x1_0000) by (bit_vector)
        requires
            r == (sign << 15) | (e << 10) | (frac >> 13),
            sign <= 1,
            e < 31,
            frac < 0x80_0000,
    ;
    r as u16
}

/// Converts a half to the bits of a 32-bit float.
pub fn f16_to_f32(bits: u16) -> (r: u32)
    ensures
        r == single_of(bits),
{
    let sign: u32 = ((bits >> 15) & 1) as u32;
    let exp: u32 = ((bits >> 10) & 0x1F) as u32;
    let frac: u32 = (bits & 0x3FF) as u32;
    assert(sign == bits / 0x8000 && exp == bits / 0x400 % 0x20 && frac == bits % 0x400)
        by (bit_vector)
        requires
            sign == ((bits >> 15) & 1) as u32,
            exp == ((bits >> 10) & 0x1F) as u32,
            frac == (bits & 0x3FF) as u32,
    ;
    let signed: u32 = sign << 31;
    assert(signed == sign * 0x8000_0000) by (bit_vector)
        requires
            signed == sign << 31,
            sign <= 1,
    ;
    if exp == 0 && frac == 0 {
        return signed;
    }
    if exp == 0x1F {
        return if frac == 0 {
            let r: u32 = signed | 0x7F80_0000;
            assert(r == sign * 0x8000_0000 + 0x7F80_0000) by (bit_vector)
                requires
                    r == (sign << 31) | 0x7F80_0000,
                    sign <= 1,
            ;
            r
        } else {
            0x7FC0_0000
        };
    }
    let e: u32 = exp + 112;
    let r: u32 = signed | (e << 23) | (frac << 13);
    assert(r == sign * 0x8000_0000 + e * 0x80_0000 + frac * 0x2000) by (bit_vector)
        requires
            r == (sign << 31) | (e << 23) | (frac << 13),
            sign <= 1,
            e < 143,
            frac < 0x400,
    ;
    r
}

/// Two halves in one word, the first in the low bits.
pub open spec fn packed(lo: int, hi: int) -> int {
    lo + hi * 0x1_0000
}

/// Packs two 32-bit floats as halves into one word.
pub fn pack_f16x2(lo: u32, hi: u32) -> (r: u32)
    ensures
        r == packed(half_of(lo), half_of(hi)),
{
    let lo_bits: u32 = f32_to_f16(lo) as u32;
    let hi_bits: u32 = f32_to_f16(hi) as u32;
    pack_halves(lo_bits, hi_bits)
}

/// Packs the low 16 bits of two converted values into one word.
pub fn pack_halves(h0: u32, h1: u32) -> (r: u32)
    ensures
        r == packed(h0 as int % 0x1_0000, h1 as int % 0x1_0000),
{
    let r: u32 = (h0 & 0xFFFF) | (h1 << 16);
    assert(r == h0 % 0x1_0000 + (h1 % 0x1_0000) * 0x1_0000) by (bit_vector)
        requires
            r == (h0 & 0xFFFF) | (h1 << 16),
    ;
    r
}

/// Widening a half and narrowing it again gives it back, except for the numbers
/// without an implicit leading bit and for a not-a-number.
pub proof fn half_survives_widening(bits: u16)
    requires
        exponent16(bits) != 0 || fraction16(bits) == 0,
        exponent16(bits) != 31 || fraction16(bits) == 0,
    ensures
        0 <= single_of(bits) <= u32::MAX,
        half_of(single_of(bits) as u32) == bits,
{
    let s = single_of(bits) as u32;
    let (sg, e, f) = (sign16(bits), exponent16(bits), fraction16(bits));
    assert(bits == sg * 0x8000 + e * 0x400 + f && 0 <= sg <= 1);
    if e == 0 {
        assert(sign32(s) == sg && exponent32(s) == 0);
    } else if e == 31 {
        assert(s == sg * 0x8000_0000 + 0x7F80_0000);
        assert(sign32(s) == sg && exponent32(s) == 255);
    } else {
        assert(s == sg * 0x8000_0000 + (e + 112) * 0x80_0000 + f * 0x2000);
        assert(sign32(s) == sg && exponent32(s) == e + 112 && fraction32(s) == f * 0x2000);
    }
}

/// Narrowing a float within the normal range of a half and widening it again only
/// clears the fraction bits that a half does not have. A number that uses none of
/// them, such as a small integer, comes back unchanged.
pub proof fn narrowing_truncates(bits: u32)
    requires
        112 < exponent32(bits) < 143,
    ensures
        0 <= half_of(bits) <= u16::MAX,
        single_of(half_of(bits) as u16) == bits - bits % 0x2000,
        bits % 0x2000 == 0 ==> single_of(half_of(bits) as u16) == bits,
{
    let h = half_of(bits) as u16;
    let (sg, e, f) = (sign32(bits), exponent32(bits), fraction32(bits));
    assert(bits == sg * 0x8000_0000 + e * 0x80_0000 + f && 0 <= sg <= 1);
    assert(h == sg * 0x8000 + (e - 112) * 0x400 + f / 0x2000);
    assert(sign16(h) == sg && exponent16(h) == e - 112 && fraction16(h) == f / 0x2000);
    assert(f / 0x2000 * 0x2000 == f - f % 0x2000);
    assert(bits as int % 0x2000 == f % 0x2000);
}

/// A packed word gives both halves back.
pub proof fn packing_keeps_both_halves(lo: u16, hi: u16)
    ensures
        0 <= packed(lo as int, hi as int) <= u32::MAX,
        packed(lo as int, hi as int) % 0x1_0000 == lo,
        packed(lo as int, hi as int) / 0x1_0000 == hi,
{
}

} // verus!

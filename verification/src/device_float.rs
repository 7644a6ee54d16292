use vstd::prelude::*;

use crate::encoding::{spec_i32_of_u32, spec_u32_of_i32};

verus! {

/// The fields of the device's 32-bit float, as plain values. The wire
/// layout, most to least significant, is 24 mantissa bits, one sign
/// bit, and a 7-bit biased exponent; the value stands for
/// `sign * mantissa / 2^24 * 2^(exponent - 64)`. Arithmetic on the
/// represented real number is the caller's business; this type pins
/// down the bit layout.
#[derive(Debug, Clone, Copy, PartialEq, Eq, Structural)]
pub struct DeviceFloatParts {
    /// The 24 mantissa bits (the upper three bytes of the word).
    pub mantissa: u32,
    /// Whether the sign bit (bit 7 of the last byte) is set.
    pub negative: bool,
    /// The 7 biased exponent bits (the low bits of the last byte).
    pub exponent: u8,
}

impl DeviceFloatParts {
    /// Whether both fields fit their bit widths.
    pub open spec fn wf(&self) -> bool {
        self.mantissa < 0x100_0000 && self.exponent < 0x80
    }

    /// The 32-bit word the fields pack into.
    pub open spec fn spec_bits(&self) -> u32 {
        (self.mantissa << 8) | (if self.negative {
            0x80u32
        } else {
            0u32
        }) | (self.exponent as u32)
    }
}

/// The fields packed in a 32-bit word.
pub open spec fn spec_split_bits(bits: u32) -> DeviceFloatParts {
    DeviceFloatParts {
        mantissa: bits >> 8,
        negative: bits & 0x80 != 0,
        exponent: (bits & 0x7F) as u8,
    }
}

/// The unsigned word with the same bits as a signed device float.
pub fn i32_bits(value: i32) -> (r: u32)
    ensures
        r == spec_u32_of_i32(value),
{
    if value >= 0 {
        value as u32
    } else {
        ((value as i64) + 0x1_0000_0000i64) as u32
    }
}

/// The signed device float with the same bits as an unsigned word.
pub fn i32_from_bits(bits: u32) -> (r: i32)
    ensures
        r == spec_i32_of_u32(bits),
{
    if bits < 0x8000_0000 {
        bits as i32
    } else {
        ((bits as i64) - 0x1_0000_0000i64) as i32
    }
}

/// Splits a device float into mantissa, sign and biased exponent.
pub fn split_device_float(value: i32) -> (r: DeviceFloatParts)
    ensures
        r == spec_split_bits(spec_u32_of_i32(value)),
        r.wf(),
{
    let bits = i32_bits(value);
    let r = DeviceFloatParts {
        mantissa: bits >> 8u32,
        negative: bits & 0x80 != 0,
        exponent: (bits & 0x7F) as u8,
    };
    proof {
        let b = spec_u32_of_i32(value);
        assert(b >> 8 < 0x100_0000 && b & 0x7F < 0x80) by (bit_vector);
    }
    r
}

/// Packs mantissa, sign and biased exponent into a device float.
pub fn pack_device_float(parts: &DeviceFloatParts) -> (r: i32)
    requires
        parts.wf(),
    ensures
        r == spec_i32_of_u32(parts.spec_bits()),
{
    let bits = (parts.mantissa << 8u32) | (if parts.negative {
        0x80u32
    } else {
        0u32
    }) | (parts.exponent as u32);
    i32_from_bits(bits)
}

/// The signed-unsigned bit reinterpretation is its own inverse.
pub proof fn lemma_i32_bits_round_trip(value: i32)
    ensures
        spec_i32_of_u32(spec_u32_of_i32(value)) == value,
{
}

/// Splitting a device float and packing the parts again yields the
/// same word: every 32-bit value is reachable from the parts form.
pub proof fn lemma_device_float_bits_round_trip(value: i32)
    ensures
        spec_i32_of_u32(spec_split_bits(spec_u32_of_i32(value)).spec_bits()) == value,
{
    let b = spec_u32_of_i32(value);
    assert(((b >> 8) << 8) | (if b & 0x80 != 0 {
        0x80u32
    } else {
        0u32
    }) | ((((b & 0x7F) as u8)) as u32) == b) by (bit_vector);
}

/// Packing well-formed parts and splitting again yields the same
/// parts: no information is lost in the packed word.
pub proof fn lemma_device_float_parts_round_trip(parts: DeviceFloatParts)
    requires
        parts.wf(),
    ensures
        spec_split_bits(spec_u32_of_i32(spec_i32_of_u32(parts.spec_bits()))) == parts,
{
    let m = parts.mantissa;
    let e = parts.exponent;
    let s: u32 = if parts.negative {
        0x80
    } else {
        0
    };
    let b = (m << 8) | s | (e as u32);
    assert(m < 0x100_0000 && e < 0x80 && (s == 0 || s == 0x80) ==> ((((m << 8) | s | (e as u32))
        >> 8) == m) && ((((m << 8) | s | (e as u32)) & 0x80 != 0) == (s == 0x80)) && ((((m << 8)
        | s | (e as u32)) & 0x7F) as u8 == e)) by (bit_vector);
    assert(spec_u32_of_i32(spec_i32_of_u32(b)) == b);
}

} // verus!

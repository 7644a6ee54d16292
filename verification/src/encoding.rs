use vstd::prelude::*;
use vstd::string::*;

use crate::errors::{DecodeError, DecodeResult};

verus! {

// ---------------------------------------------------------------------------
// Big-endian byte order
// ---------------------------------------------------------------------------

/// The two big-endian bytes of a 16-bit value.
pub open spec fn spec_u16_be(v: u16) -> Seq<u8> {
    seq![((v >> 8) & 0xFF) as u8, (v & 0xFF) as u8]
}

/// The 16-bit value read from two big-endian bytes.
pub open spec fn spec_u16_from_be(s: Seq<u8>) -> u16
    recommends
        s.len() == 2,
{
    ((s[0] as u16) << 8) | (s[1] as u16)
}

/// The four big-endian bytes of a 32-bit value.
pub open spec fn spec_u32_be(v: u32) -> Seq<u8> {
    seq![
        ((v >> 24) & 0xFF) as u8,
        ((v >> 16) & 0xFF) as u8,
        ((v >> 8) & 0xFF) as u8,
        (v & 0xFF) as u8,
    ]
}

/// The 32-bit value read from four big-endian bytes.
pub open spec fn spec_u32_from_be(s: Seq<u8>) -> u32
    recommends
        s.len() == 4,
{
    ((s[0] as u32) << 24) | ((s[1] as u32) << 16) | ((s[2] as u32) << 8) | (s[3] as u32)
}

/// The unsigned 32-bit value with the same two's-complement bits as `v`.
pub open spec fn spec_u32_of_i32(v: i32) -> u32 {
    if v >= 0 {
        v as u32
    } else {
        (v + 0x1_0000_0000) as u32
    }
}

/// The signed 32-bit value with the same two's-complement bits as `v`.
pub open spec fn spec_i32_of_u32(v: u32) -> i32 {
    if v < 0x8000_0000 {
        v as i32
    } else {
        (v - 0x1_0000_0000) as i32
    }
}

/// The four big-endian bytes of a signed 32-bit value.
pub open spec fn spec_i32_be(v: i32) -> Seq<u8> {
    spec_u32_be(spec_u32_of_i32(v))
}

/// The signed 32-bit value read from four big-endian bytes.
pub open spec fn spec_i32_from_be(s: Seq<u8>) -> i32
    recommends
        s.len() == 4,
{
    spec_i32_of_u32(spec_u32_from_be(s))
}

pub proof fn lemma_u16_be_round_trip(v: u16)
    ensures
        spec_u16_from_be(spec_u16_be(v)) == v,
{
    assert((((((v >> 8) & 0xFF) as u8) as u16) << 8) | (((v & 0xFF) as u8) as u16) == v)
        by (bit_vector);
}

pub proof fn lemma_u32_be_round_trip(v: u32)
    ensures
        spec_u32_from_be(spec_u32_be(v)) == v,
{
    assert((((((v >> 24) & 0xFF) as u8) as u32) << 24) | (((((v >> 16) & 0xFF) as u8) as u32)
        << 16) | (((((v >> 8) & 0xFF) as u8) as u32) << 8) | (((v & 0xFF) as u8) as u32) == v)
        by (bit_vector);
}

/// Re-encoding the value read from two big-endian bytes gives the same
/// two bytes back.
pub proof fn lemma_u16_from_to_be(s: Seq<u8>)
    requires
        s.len() == 2,
    ensures
        spec_u16_be(spec_u16_from_be(s)) == s,
{
    let b0 = s[0];
    let b1 = s[1];
    assert(((((((b0 as u16) << 8) | (b1 as u16)) >> 8) & 0xFF) as u8 == b0) && (((((b0 as u16)
        << 8) | (b1 as u16)) & 0xFF) as u8 == b1)) by (bit_vector);
    assert(spec_u16_be(spec_u16_from_be(s)) =~= s);
}

/// Re-encoding the value read from four big-endian bytes gives the same
/// four bytes back.
pub proof fn lemma_u32_from_to_be(s: Seq<u8>)
    requires
        s.len() == 4,
    ensures
        spec_u32_be(spec_u32_from_be(s)) == s,
{
    let b0 = s[0];
    let b1 = s[1];
    let b2 = s[2];
    let b3 = s[3];
    let v = ((b0 as u32) << 24) | ((b1 as u32) << 16) | ((b2 as u32) << 8) | (b3 as u32);
    assert(((((((b0 as u32) << 24) | ((b1 as u32) << 16) | ((b2 as u32) << 8) | (b3 as u32))
        >> 24) & 0xFF) as u8 == b0) && ((((((b0 as u32) << 24) | ((b1 as u32) << 16) | ((
    b2 as u32) << 8) | (b3 as u32)) >> 16) & 0xFF) as u8 == b1) && ((((((b0 as u32) << 24) | ((
    b1 as u32) << 16) | ((b2 as u32) << 8) | (b3 as u32)) >> 8) & 0xFF) as u8 == b2) && (((((
    b0 as u32) << 24) | ((b1 as u32) << 16) | ((b2 as u32) << 8) | (b3 as u32)) & 0xFF) as u8
        == b3)) by (bit_vector);
    assert(spec_u32_be(spec_u32_from_be(s)) =~= s);
}

pub proof fn lemma_i32_be_round_trip(v: i32)
    ensures
        spec_i32_from_be(spec_i32_be(v)) == v,
{
    lemma_u32_be_round_trip(spec_u32_of_i32(v));
}

// ---------------------------------------------------------------------------
// Packed booleans
// ---------------------------------------------------------------------------

/// 1 if index `i` of `bs` exists and is set, else 0.
pub open spec fn bool_val(bs: Seq<bool>, i: int) -> u8 {
    if 0 <= i < bs.len() && bs[i] {
        1
    } else {
        0
    }
}

/// Byte `k` of the packed representation of `bs`: booleans `8k` to
/// `8k + 7`, least significant bit first; missing booleans are clear.
pub open spec fn spec_bool_byte(bs: Seq<bool>, k: int) -> u8 {
    (bool_val(bs, 8 * k) + 2 * bool_val(bs, 8 * k + 1) + 4 * bool_val(bs, 8 * k + 2) + 8
        * bool_val(bs, 8 * k + 3) + 16 * bool_val(bs, 8 * k + 4) + 32 * bool_val(bs, 8 * k + 5)
        + 64 * bool_val(bs, 8 * k + 6) + 128 * bool_val(bs, 8 * k + 7)) as u8
}

/// The packed representation of `bs`: one byte for each group of eight
/// booleans, the last group padded with clear bits.
pub open spec fn spec_bools_bytes(bs: Seq<bool>) -> Seq<u8> {
    Seq::new((bs.len() + 7) / 8, |k: int| spec_bool_byte(bs, k))
}

/// The single-bit mask for bit position `j` of a byte.
pub open spec fn spec_bit_mask(j: int) -> u8
    recommends
        0 <= j < 8,
{
    if j == 0 {
        0x01
    } else if j == 1 {
        0x02
    } else if j == 2 {
        0x04
    } else if j == 3 {
        0x08
    } else if j == 4 {
        0x10
    } else if j == 5 {
        0x20
    } else if j == 6 {
        0x40
    } else {
        0x80
    }
}

/// Whether bit `j` (least significant first) of byte `b` is set.
pub open spec fn byte_bit(b: u8, j: int) -> bool
    recommends
        0 <= j < 8,
{
    b & spec_bit_mask(j) != 0
}

/// The `n` booleans unpacked from `bytes`: boolean `i` is bit `i % 8` of
/// byte `i / 8`. Surplus bits of the last byte are ignored.
pub open spec fn spec_parse_bools(bytes: Seq<u8>, n: nat) -> Seq<bool>
    recommends
        8 * bytes.len() >= n,
{
    Seq::new(n, |i: int| byte_bit(bytes[i / 8], i % 8))
}

/// Each bit of a packed byte reads back the boolean it was packed from.
pub proof fn lemma_bool_byte_bits(bs: Seq<bool>, k: int, j: int)
    requires
        0 <= j < 8,
    ensures
        byte_bit(spec_bool_byte(bs, k), j) == (bool_val(bs, 8 * k + j) == 1),
{
    let x0 = bool_val(bs, 8 * k);
    let x1 = bool_val(bs, 8 * k + 1);
    let x2 = bool_val(bs, 8 * k + 2);
    let x3 = bool_val(bs, 8 * k + 3);
    let x4 = bool_val(bs, 8 * k + 4);
    let x5 = bool_val(bs, 8 * k + 5);
    let x6 = bool_val(bs, 8 * k + 6);
    let x7 = bool_val(bs, 8 * k + 7);
    let b = (x0 + 2 * x1 + 4 * x2 + 8 * x3 + 16 * x4 + 32 * x5 + 64 * x6 + 128 * x7) as u8;
    assert(x0 <= 1 && x1 <= 1 && x2 <= 1 && x3 <= 1 && x4 <= 1 && x5 <= 1 && x6 <= 1 && x7 <= 1
        && b == (x0 + 2 * x1 + 4 * x2 + 8 * x3 + 16 * x4 + 32 * x5 + 64 * x6 + 128 * x7) as u8
        ==> ((b & 0x01 != 0) == (x0 == 1)) && ((b & 0x02 != 0) == (x1 == 1)) && ((b & 0x04 != 0)
        == (x2 == 1)) && ((b & 0x08 != 0) == (x3 == 1)) && ((b & 0x10 != 0) == (x4 == 1)) && ((b
        & 0x20 != 0) == (x5 == 1)) && ((b & 0x40 != 0) == (x6 == 1)) && ((b & 0x80 != 0) == (x7
        == 1))) by (bit_vector);
}

/// Unpacking a packed boolean sequence at its own length yields the
/// sequence itself.
pub proof fn lemma_bools_round_trip(bs: Seq<bool>)
    ensures
        spec_parse_bools(spec_bools_bytes(bs), bs.len()) == bs,
{
    let bytes = spec_bools_bytes(bs);
    assert forall|i: int| 0 <= i < bs.len() implies spec_parse_bools(bytes, bs.len())[i] == bs[i]
    by {
        lemma_bool_byte_bits(bs, i / 8, i % 8);
        assert(8 * (i / 8) + i % 8 == i);
    }
    assert(spec_parse_bools(spec_bools_bytes(bs), bs.len()) =~= bs);
}

// ---------------------------------------------------------------------------
// Encoder
// ---------------------------------------------------------------------------

/// A byte-oriented big-endian writer that grows an internal buffer.
pub struct Encoder {
    buffer: Vec<u8>,
}

impl View for Encoder {
    type V = Seq<u8>;

    closed spec fn view(&self) -> Seq<u8> {
        self.buffer@
    }
}

impl Encoder {
    /// A fresh encoder with an empty buffer.
    pub fn new() -> (r: Self)
        ensures
            r@ == Seq::<u8>::empty(),
    {
        Self { buffer: Vec::with_capacity(16) }
    }

    /// A capacity hint; the contents are unchanged.
    pub fn reserve(&mut self, additional: usize)
        ensures
            final(self)@ == old(self)@,
    {
        self.buffer.reserve(additional);
    }

    /// The number of bytes written so far.
    pub fn position(&self) -> (r: usize)
        ensures
            r == self@.len(),
    {
        self.buffer.len()
    }

    pub fn write_u8(&mut self, value: u8)
        ensures
            final(self)@ == old(self)@.push(value),
    {
        self.buffer.push(value);
    }

    pub fn write_u16(&mut self, value: u16)
        ensures
            final(self)@ == old(self)@ + spec_u16_be(value),
    {
        self.buffer.push(((value >> 8) & 0xFF) as u8);
        self.buffer.push((value & 0xFF) as u8);
        assert(self@ =~= old(self)@ + spec_u16_be(value));
    }

    pub fn write_u32(&mut self, value: u32)
        ensures
            final(self)@ == old(self)@ + spec_u32_be(value),
    {
        self.buffer.push(((value >> 24) & 0xFF) as u8);
        self.buffer.push(((value >> 16) & 0xFF) as u8);
        self.buffer.push(((value >> 8) & 0xFF) as u8);
        self.buffer.push((value & 0xFF) as u8);
        assert(self@ =~= old(self)@ + spec_u32_be(value));
    }

    pub fn write_i32(&mut self, value: i32)
        ensures
            final(self)@ == old(self)@ + spec_i32_be(value),
    {
        let unsigned: u32 = if value >= 0 {
            value as u32
        } else {
            ((value as i64) + 0x1_0000_0000i64) as u32
        };
        assert(unsigned == spec_u32_of_i32(value));
        self.write_u32(unsigned);
    }

    /// Appends the UTF-8 bytes of `value` followed by a terminating NUL.
    pub fn write_string(&mut self, value: &str)
        ensures
            final(self)@ == old(self)@ + value.spec_bytes() + seq![0u8],
    {
        let bytes = value.as_bytes_vec();
        self.write_bytes(bytes.as_slice());
        self.write_u8(0);
    }

    /// Appends the packed representation of `values` (one byte per eight
    /// booleans, least significant bit first).
    pub fn write_bools(&mut self, values: &[bool])
        ensures
            final(self)@ == old(self)@ + spec_bools_bytes(values@),
    {
        let n = values.len();
        let byte_length = n / 8 + (if n % 8 != 0 {
            1usize
        } else {
            0usize
        });
        assert(byte_length == (values@.len() + 7) / 8);
        self.buffer.reserve(byte_length);
        let mut i: usize = 0;
        while i < byte_length
            invariant
                i <= byte_length,
                values@.len() == n,
                byte_length == (values@.len() + 7) / 8,
                8 * byte_length <= values@.len() + 7,
                self@ == old(self)@ + spec_bools_bytes(values@).take(i as int),
            decreases byte_length - i,
        {
            assert(i * 8 + 7 <= values@.len() + 7);
            let base = i * 8;
            let byte = Self::pack_byte(values, base);
            assert(byte == spec_bool_byte(values@, i as int));
            self.write_u8(byte);
            proof {
                assert(spec_bools_bytes(values@).take(i + 1) =~= spec_bools_bytes(
                    values@,
                ).take(i as int).push(spec_bool_byte(values@, i as int)));
            }
            i = i + 1;
        }
        proof {
            assert(spec_bools_bytes(values@).take(byte_length as int) =~= spec_bools_bytes(
                values@,
            ));
        }
    }

    /// One byte of the packed representation: the eight booleans starting
    /// at `base`, missing ones clear.
    fn pack_byte(values: &[bool], base: usize) -> (byte: u8)
        requires
            base + 7 <= usize::MAX,
        ensures
            byte == (bool_val(values@, base as int) + 2 * bool_val(values@, base as int + 1) + 4
                * bool_val(values@, base as int + 2) + 8 * bool_val(values@, base as int + 3) + 16
                * bool_val(values@, base as int + 4) + 32 * bool_val(values@, base as int + 5)
                + 64 * bool_val(values@, base as int + 6) + 128 * bool_val(
                values@,
                base as int + 7,
            )) as u8,
    {
        let b0 = Self::bool_at(values, base);
        let b1 = Self::bool_at(values, base + 1);
        let b2 = Self::bool_at(values, base + 2);
        let b3 = Self::bool_at(values, base + 3);
        let b4 = Self::bool_at(values, base + 4);
        let b5 = Self::bool_at(values, base + 5);
        let b6 = Self::bool_at(values, base + 6);
        let b7 = Self::bool_at(values, base + 7);
        b0 + 2 * b1 + 4 * b2 + 8 * b3 + 16 * b4 + 32 * b5 + 64 * b6 + 128 * b7
    }

    /// 1 if index `i` of `values` exists and is set, else 0.
    fn bool_at(values: &[bool], i: usize) -> (r: u8)
        ensures
            r == bool_val(values@, i as int),
    {
        if i < values.len() && values[i] {
            1
        } else {
            0
        }
    }

    /// Appends raw bytes unchanged.
    pub fn write_bytes(&mut self, value: &[u8])
        ensures
            final(self)@ == old(self)@ + value@,
    {
        self.buffer.extend_from_slice(value);
    }

    /// Gives up the encoder and yields the bytes written.
    pub fn finish(self) -> (r: Vec<u8>)
        ensures
            r@ == self@,
    {
        self.buffer
    }
}


// ---------------------------------------------------------------------------
// Decoder
// ---------------------------------------------------------------------------

/// The index of the first NUL byte of `s`, or -1 if there is none.
pub open spec fn first_nul(s: Seq<u8>) -> int
    decreases s.len(),
{
    if s.len() == 0 {
        -1
    } else if s[0] == 0 {
        0
    } else {
        let r = first_nul(s.skip(1));
        if r < 0 {
            -1
        } else {
            1 + r
        }
    }
}

/// `first_nul` finds exactly the first NUL: if the first `n` bytes are
/// non-NUL and byte `n` (if any) is NUL, the result is `n`, or -1 when
/// the whole sequence is NUL-free.
pub proof fn lemma_first_nul(s: Seq<u8>, n: int)
    requires
        0 <= n <= s.len(),
        forall|j: int| 0 <= j < n ==> s[j] != 0,
        n < s.len() ==> s[n] == 0,
    ensures
        n == s.len() ==> first_nul(s) == -1,
        n < s.len() ==> first_nul(s) == n,
    decreases s.len(),
{
    if s.len() == 0 {
    } else if s[0] == 0 {
    } else {
        assert(forall|j: int| 0 <= j < n - 1 ==> s.skip(1)[j] == s[j + 1] && s[j + 1] != 0);
        lemma_first_nul(s.skip(1), n - 1);
    }
}

/// What `String::from_utf8_lossy` makes of a byte sequence.
pub uninterp spec fn utf8_lossy_of(bytes: Seq<u8>) -> Seq<char>;

/// Relies on String::from_utf8_lossy: the result depends on the bytes
/// alone, and valid UTF-8 is decoded without replacement.
#[verifier::external_body]
fn utf8_lossy(bytes: &[u8]) -> (r: String)
    ensures
        r@ == utf8_lossy_of(bytes@),
        vstd::utf8::valid_utf8(bytes@) ==> r@ == vstd::utf8::decode_utf8(bytes@),
{
    String::from_utf8_lossy(bytes).into_owned()
}

/// A byte-oriented big-endian reader over a copied buffer, advancing a
/// read position.
pub struct Decoder {
    data: Vec<u8>,
    pos: usize,
}

impl Decoder {
    #[verifier::type_invariant]
    closed spec fn inv(&self) -> bool {
        self.pos <= self.data@.len()
    }

    /// The bytes not yet consumed.
    pub closed spec fn remaining_bytes(&self) -> Seq<u8> {
        self.data@.skip(self.pos as int)
    }

    /// The number of bytes consumed so far.
    pub closed spec fn spec_position(&self) -> int {
        self.pos as int
    }

    /// A fresh decoder at the start of a copy of `buffer`.
    pub fn new(buffer: &[u8]) -> (r: Self)
        ensures
            r.remaining_bytes() == buffer@,
            r.spec_position() == 0,
    {
        let r = Self { data: vstd::slice::slice_to_vec(buffer), pos: 0 };
        proof {
            assert(r.remaining_bytes() =~= buffer@);
        }
        r
    }

    /// The number of bytes consumed so far.
    pub fn position(&self) -> (r: usize)
        ensures
            r == self.spec_position(),
    {
        self.pos
    }

    /// The number of bytes not yet consumed.
    pub fn remaining(&self) -> (r: usize)
        ensures
            r == self.remaining_bytes().len(),
    {
        proof {
            use_type_invariant(&*self);
        }
        self.data.len() - self.pos
    }

    pub fn read_u8(&mut self) -> (r: DecodeResult<u8>)
        ensures
            ({
                let rem = old(self).remaining_bytes();
                match r {
                    Ok(v) => rem.len() >= 1 && v == rem[0] && final(self).remaining_bytes()
                        == rem.skip(1) && final(self).spec_position() == old(self).spec_position()
                        + 1,
                    Err(e) => e == DecodeError::MissingData && rem.len() == 0 && *final(self)
                        == *old(self),
                }
            }),
    {
        proof {
            use_type_invariant(&*self);
        }
        if self.pos < self.data.len() {
            let b = self.data[self.pos];
            self.pos = self.pos + 1;
            proof {
                assert(self.remaining_bytes() =~= old(self).remaining_bytes().skip(1));
            }
            Ok(b)
        } else {
            Err(DecodeError::MissingData)
        }
    }

    pub fn read_u16(&mut self) -> (r: DecodeResult<u16>)
        ensures
            ({
                let rem = old(self).remaining_bytes();
                match r {
                    Ok(v) => rem.len() >= 2 && v == spec_u16_from_be(rem.take(2)) && final(self).remaining_bytes() == rem.skip(2) && final(self).spec_position() == old(self).spec_position() + 2,
                    Err(e) => e == DecodeError::MissingData && rem.len() < 2 && *final(self)
                        == *old(self),
                }
            }),
    {
        proof {
            use_type_invariant(&*self);
        }
        let len = self.data.len();
        if len - self.pos < 2 {
            return Err(DecodeError::MissingData);
        }
        let b0 = self.data[self.pos];
        let b1 = self.data[self.pos + 1];
        self.pos = self.pos + 2;
        let v = ((b0 as u16) << 8u16) | (b1 as u16);
        proof {
            let rem = old(self).remaining_bytes();
            assert(rem.take(2)[0] == b0 && rem.take(2)[1] == b1);
            assert(self.remaining_bytes() =~= rem.skip(2));
        }
        Ok(v)
    }

    pub fn read_u32(&mut self) -> (r: DecodeResult<u32>)
        ensures
            ({
                let rem = old(self).remaining_bytes();
                match r {
                    Ok(v) => rem.len() >= 4 && v == spec_u32_from_be(rem.take(4)) && final(self).remaining_bytes() == rem.skip(4) && final(self).spec_position() == old(self).spec_position() + 4,
                    Err(e) => e == DecodeError::MissingData && rem.len() < 4 && *final(self)
                        == *old(self),
                }
            }),
    {
        proof {
            use_type_invariant(&*self);
        }
        let len = self.data.len();
        if len - self.pos < 4 {
            return Err(DecodeError::MissingData);
        }
        let b0 = self.data[self.pos];
        let b1 = self.data[self.pos + 1];
        let b2 = self.data[self.pos + 2];
        let b3 = self.data[self.pos + 3];
        self.pos = self.pos + 4;
        let v = ((b0 as u32) << 24u32) | ((b1 as u32) << 16u32) | ((b2 as u32) << 8u32) | (
        b3 as u32);
        proof {
            let rem = old(self).remaining_bytes();
            assert(rem.take(4)[0] == b0 && rem.take(4)[1] == b1 && rem.take(4)[2] == b2
                && rem.take(4)[3] == b3);
            assert(self.remaining_bytes() =~= rem.skip(4));
        }
        Ok(v)
    }

    pub fn read_i32(&mut self) -> (r: DecodeResult<i32>)
        ensures
            ({
                let rem = old(self).remaining_bytes();
                match r {
                    Ok(v) => rem.len() >= 4 && v == spec_i32_from_be(rem.take(4)) && final(self).remaining_bytes() == rem.skip(4) && final(self).spec_position() == old(self).spec_position() + 4,
                    Err(e) => e == DecodeError::MissingData && rem.len() < 4 && *final(self)
                        == *old(self),
                }
            }),
    {
        let unsigned = match self.read_u32() {
            Ok(v) => v,
            Err(e) => {
                return Err(e);
            },
        };
        if unsigned < 0x8000_0000 {
            Ok(unsigned as i32)
        } else {
            Ok(((unsigned as i64) - 0x1_0000_0000i64) as i32)
        }
    }

    /// Reads bytes to the first NUL (consumed but not returned) and
    /// decodes them as UTF-8, replacing invalid sequences.
    pub fn read_string(&mut self) -> (r: DecodeResult<String>)
        ensures
            ({
                let rem = old(self).remaining_bytes();
                match r {
                    Ok(s) => first_nul(rem) >= 0 && s@ == utf8_lossy_of(
                        rem.take(first_nul(rem)),
                    ) && (vstd::utf8::valid_utf8(rem.take(first_nul(rem))) ==> s@
                        == vstd::utf8::decode_utf8(rem.take(first_nul(rem)))) && final(self).remaining_bytes() == rem.skip(first_nul(rem) + 1),
                    Err(e) => e == DecodeError::MissingData && first_nul(rem) == -1 && final(self).remaining_bytes().len() == 0,
                }
            }),
    {
        let ghost rem = self.remaining_bytes();
        let mut bytes: Vec<u8> = Vec::new();
        loop
            invariant
                rem == old(self).remaining_bytes(),
                bytes@.len() <= rem.len(),
                bytes@ == rem.take(bytes@.len() as int),
                forall|j: int| 0 <= j < bytes@.len() ==> rem[j] != 0,
                self.remaining_bytes() == rem.skip(bytes@.len() as int),
            decreases rem.len() - bytes@.len(),
        {
            let ghost n0 = bytes@.len() as int;
            let byte = match self.read_u8() {
                Ok(b) => b,
                Err(_) => {
                    proof {
                        lemma_first_nul(rem, n0);
                    }
                    return Err(DecodeError::MissingData);
                },
            };
            assert(byte == rem[n0]);
            if byte == 0 {
                proof {
                    lemma_first_nul(rem, n0);
                    assert(self.remaining_bytes() =~= rem.skip(n0 + 1));
                }
                let text = utf8_lossy(bytes.as_slice());
                return Ok(text);
            }
            bytes.push(byte);
            proof {
                assert(bytes@ =~= rem.take(n0 + 1));
                assert(self.remaining_bytes() =~= rem.skip(n0 + 1));
            }
        }
    }

    /// Reads `ceil(length / 8)` bytes and unpacks exactly `length`
    /// booleans from them, ignoring surplus bits.
    pub fn read_bools(&mut self, length: usize) -> (r: DecodeResult<Vec<bool>>)
        ensures
            ({
                let rem = old(self).remaining_bytes();
                let nb = (length + 7) / 8;
                match r {
                    Ok(v) => rem.len() >= nb && v@ == spec_parse_bools(
                        rem.take(nb as int),
                        length as nat,
                    ) && final(self).remaining_bytes() == rem.skip(nb as int),
                    Err(e) => e == DecodeError::MissingData && rem.len() < nb && final(self).remaining_bytes().len() == 0,
                }
            }),
    {
        let ghost rem = self.remaining_bytes();
        let byte_length = length / 8 + (if length % 8 != 0 {
            1usize
        } else {
            0usize
        });
        assert(byte_length == (length + 7) / 8);
        let mut values: Vec<bool> = Vec::with_capacity(length);
        let mut k: usize = 0;
        while k < byte_length
            invariant
                rem == old(self).remaining_bytes(),
                k <= byte_length,
                byte_length == (length + 7) / 8,
                8 * byte_length <= length + 7,
                length <= usize::MAX,
                values@.len() == if 8 * k <= length {
                    8 * k
                } else {
                    length as int
                },
                rem.len() >= k,
                forall|i: int| 0 <= i < values@.len() ==> values@[i] == byte_bit(
                    rem[i / 8],
                    i % 8,
                ),
                self.remaining_bytes() == rem.skip(k as int),
            decreases byte_length - k,
        {
            let byte = match self.read_u8() {
                Ok(b) => b,
                Err(_) => {
                    return Err(DecodeError::MissingData);
                },
            };
            assert(byte == rem[k as int]);
            let mut i2: usize = 0;
            while i2 < 8 && values.len() < length
                invariant
                    rem == old(self).remaining_bytes(),
                    i2 <= 8,
                    k < byte_length,
                    byte_length == (length + 7) / 8,
                    8 * byte_length <= length + 7,
                    length <= usize::MAX,
                    byte == rem[k as int],
                    rem.len() >= k + 1,
                    values@.len() == if 8 * k + i2 <= length {
                        8 * k + i2
                    } else {
                        length as int
                    },
                    forall|i: int| 0 <= i < values@.len() ==> values@[i] == byte_bit(
                        rem[i / 8],
                        i % 8,
                    ),
                    self.remaining_bytes() == rem.skip(k + 1),
                decreases 8 - i2,
            {
                let ghost n0 = values@.len() as int;
                values.push((byte & bit_mask(i2)) > 0);
                proof {
                    assert(n0 == 8 * k + i2);
                    assert(n0 / 8 == k && n0 % 8 == i2 as int);
                    assert(values@[n0] == byte_bit(rem[n0 / 8], n0 % 8));
                }
                i2 = i2 + 1;
            }
            k = k + 1;
        }
        proof {
            assert(values@ =~= spec_parse_bools(rem.take(byte_length as int), length as nat));
        }
        Ok(values)
    }

    /// Reads exactly `length` raw bytes.
    pub fn read_bytes(&mut self, length: usize) -> (r: DecodeResult<Vec<u8>>)
        ensures
            ({
                let rem = old(self).remaining_bytes();
                match r {
                    Ok(v) => rem.len() >= length && v@ == rem.take(length as int) && final(self).remaining_bytes() == rem.skip(length as int) && final(self).spec_position()
                        == old(self).spec_position() + length,
                    Err(e) => e == DecodeError::MissingData && rem.len() < length && *final(self)
                        == *old(self),
                }
            }),
    {
        proof {
            use_type_invariant(&*self);
        }
        let len = self.data.len();
        if len - self.pos < length {
            return Err(DecodeError::MissingData);
        }
        let bytes = vstd::slice::slice_to_vec(
            vstd::slice::slice_subrange(self.data.as_slice(), self.pos, self.pos + length),
        );
        self.pos = self.pos + length;
        proof {
            assert(bytes@ =~= old(self).remaining_bytes().take(length as int));
            assert(self.remaining_bytes() =~= old(self).remaining_bytes().skip(length as int));
        }
        Ok(bytes)
    }
}

/// The single-bit mask for bit position `j` of a byte.
fn bit_mask(j: usize) -> (r: u8)
    requires
        j < 8,
    ensures
        r == spec_bit_mask(j as int),
{
    if j == 0 {
        0x01
    } else if j == 1 {
        0x02
    } else if j == 2 {
        0x04
    } else if j == 3 {
        0x08
    } else if j == 4 {
        0x10
    } else if j == 5 {
        0x20
    } else if j == 6 {
        0x40
    } else {
        0x80
    }
}

} // verus!

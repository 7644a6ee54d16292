use vstd::prelude::*;
use vstd::string::StringSliceAdditionalSpecFns;

use crate::encoding::{
    first_nul, lemma_bool_byte_bits, lemma_u32_be_round_trip, spec_bool_byte, spec_bools_bytes,
    spec_i32_be, spec_i32_from_be, spec_parse_bools, spec_u32_be, spec_u32_from_be,
    utf8_lossy_of, Decoder, Encoder,
};
use crate::errors::{DecodeError, DecodeResult, EncodeResult};
use crate::real_time_clock::{spec_parse_rtc, RealTimeClock};

verus! {

// ---------------------------------------------------------------------------
// Lists of 32-bit words
// ---------------------------------------------------------------------------

/// The concatenated big-endian bytes of a list of 32-bit values.
pub open spec fn spec_i32s_bytes(vs: Seq<i32>) -> Seq<u8>
    decreases vs.len(),
{
    if vs.len() == 0 {
        Seq::empty()
    } else {
        spec_i32_be(vs[0]) + spec_i32s_bytes(vs.skip(1))
    }
}

/// Appending one value appends its four bytes.
pub proof fn lemma_i32s_bytes_push(vs: Seq<i32>, x: i32)
    ensures
        spec_i32s_bytes(vs.push(x)) == spec_i32s_bytes(vs) + spec_i32_be(x),
    decreases vs.len(),
{
    if vs.len() == 0 {
        assert(vs.push(x)[0] == x);
        assert(vs.push(x).skip(1) =~= vs);
        assert(spec_i32s_bytes(vs.push(x)) == spec_i32_be(x) + spec_i32s_bytes(vs));
        assert(spec_i32s_bytes(vs) == Seq::<u8>::empty());
        assert(spec_i32_be(x) + Seq::<u8>::empty() =~= Seq::<u8>::empty() + spec_i32_be(x));
    } else {
        assert(vs.push(x)[0] == vs[0]);
        assert(vs.push(x).skip(1) =~= vs.skip(1).push(x));
        lemma_i32s_bytes_push(vs.skip(1), x);
        assert(spec_i32s_bytes(vs.push(x)) == spec_i32_be(vs[0]) + (spec_i32s_bytes(vs.skip(1))
            + spec_i32_be(x)));
        assert(spec_i32_be(vs[0]) + (spec_i32s_bytes(vs.skip(1)) + spec_i32_be(x)) =~= (
        spec_i32_be(vs[0]) + spec_i32s_bytes(vs.skip(1))) + spec_i32_be(x));
    }
}

/// The byte count is four per value.
pub proof fn lemma_i32s_bytes_len(vs: Seq<i32>)
    ensures
        spec_i32s_bytes(vs).len() == 4 * vs.len(),
    decreases vs.len(),
{
    if vs.len() > 0 {
        lemma_i32s_bytes_len(vs.skip(1));
    }
}

/// What decoding reads from all of `b` as big-endian 32-bit values: a
/// tail shorter than one value is missing data.
pub open spec fn spec_parse_i32s(b: Seq<u8>) -> Result<Seq<i32>, DecodeError>
    decreases b.len(),
{
    if b.len() == 0 {
        Ok(Seq::empty())
    } else if b.len() < 4 {
        Err(DecodeError::MissingData)
    } else {
        match spec_parse_i32s(b.skip(4)) {
            Ok(rest) => Ok(seq![spec_i32_from_be(b.take(4))] + rest),
            Err(e) => Err(e),
        }
    }
}

/// The recursive parse, characterized pointwise: a whole number of
/// words parses to each word in order; anything else is missing data.
pub proof fn lemma_parse_i32s_pointwise(b: Seq<u8>)
    ensures
        b.len() % 4 == 0 ==> spec_parse_i32s(b) == Ok::<Seq<i32>, DecodeError>(
            Seq::new(b.len() / 4, |j: int| spec_i32_from_be(b.subrange(4 * j, 4 * j + 4))),
        ),
        b.len() % 4 != 0 ==> spec_parse_i32s(b) == Err::<Seq<i32>, DecodeError>(
            DecodeError::MissingData,
        ),
    decreases b.len(),
{
    if b.len() == 0 {
        assert(Seq::new(0, |j: int| spec_i32_from_be(b.subrange(4 * j, 4 * j + 4)))
            =~= Seq::<i32>::empty());
    } else if b.len() < 4 {
    } else {
        lemma_parse_i32s_pointwise(b.skip(4));
        assert(b.skip(4).len() % 4 == b.len() % 4);
        if b.len() % 4 == 0 {
            let tail = Seq::new(
                b.skip(4).len() / 4,
                |j: int| spec_i32_from_be(b.skip(4).subrange(4 * j, 4 * j + 4)),
            );
            assert(spec_parse_i32s(b.skip(4)) == Ok::<Seq<i32>, DecodeError>(tail));
            assert(spec_parse_i32s(b) == Ok::<Seq<i32>, DecodeError>(
                seq![spec_i32_from_be(b.take(4))] + tail,
            ));
            assert forall|j: int| 0 <= j < tail.len() implies #[trigger] b.skip(4).subrange(
                4 * j,
                4 * j + 4,
            ) =~= b.subrange(4 * (j + 1), 4 * (j + 1) + 4) by {
            }
            assert(b.take(4) =~= b.subrange(0, 4));
            assert(seq![spec_i32_from_be(b.take(4))] + tail =~= Seq::new(
                b.len() / 4,
                |j: int| spec_i32_from_be(b.subrange(4 * j, 4 * j + 4)),
            ));
        } else {
            assert(spec_parse_i32s(b.skip(4)) == Err::<Seq<i32>, DecodeError>(
                DecodeError::MissingData,
            ));
        }
    }
}

/// Decoding the encoding of any list of 32-bit values yields the list
/// back.
pub proof fn lemma_i32s_round_trip(vs: Seq<i32>)
    ensures
        spec_parse_i32s(spec_i32s_bytes(vs)) == Ok::<Seq<i32>, DecodeError>(vs),
    decreases vs.len(),
{
    if vs.len() == 0 {
        assert(vs =~= Seq::<i32>::empty());
        assert(spec_parse_i32s(spec_i32s_bytes(vs)) == Ok::<Seq<i32>, DecodeError>(vs));
    } else {
        let b = spec_i32s_bytes(vs);
        lemma_i32s_bytes_len(vs.skip(1));
        assert(b.take(4) =~= spec_i32_be(vs[0]));
        assert(b.skip(4) =~= spec_i32s_bytes(vs.skip(1)));
        crate::encoding::lemma_i32_be_round_trip(vs[0]);
        lemma_i32s_round_trip(vs.skip(1));
        assert(spec_i32_from_be(b.take(4)) == vs[0]);
        assert(spec_parse_i32s(b.skip(4)) == Ok::<Seq<i32>, DecodeError>(vs.skip(1)));
        assert(spec_parse_i32s(b) == Ok::<Seq<i32>, DecodeError>(seq![vs[0]] + vs.skip(1)));
        assert(seq![vs[0]] + vs.skip(1) =~= vs);
    }
}

/// The response to a read-counters request: one big-endian 32-bit
/// value per element read.
#[derive(Debug, PartialEq)]
pub struct ReadCountersResponse {
    pub values: Vec<i32>,
}

impl ReadCountersResponse {
    /// Appends four big-endian bytes per value; never fails.
    pub fn encode(&self, encoder: &mut Encoder) -> (r: EncodeResult)
        ensures
            r matches Ok(u) && final(encoder)@ == old(encoder)@ + spec_i32s_bytes(self.values@),
    {
        encoder.reserve(self.values.len());
        let mut i: usize = 0;
        while i < self.values.len()
            invariant
                i <= self.values@.len(),
                encoder@ == old(encoder)@ + spec_i32s_bytes(self.values@.take(i as int)),
            decreases self.values@.len() - i,
        {
            encoder.write_i32(self.values[i]);
            proof {
                lemma_i32s_bytes_push(self.values@.take(i as int), self.values@[i as int]);
                assert(self.values@.take(i + 1) =~= self.values@.take(i as int).push(
                    self.values@[i as int],
                ));
            }
            i = i + 1;
        }
        proof {
            assert(self.values@.take(self.values@.len() as int) =~= self.values@);
        }
        Ok(())
    }

    /// Builds the response body as a byte vector.
    pub fn encode_to_bytes(&self) -> (r: Result<Vec<u8>, crate::errors::EncodeError>)
        ensures
            r matches Ok(v) && v@ == spec_i32s_bytes(self.values@),
    {
        let mut encoder = Encoder::new();
        let _ = self.encode(&mut encoder);
        Ok(encoder.finish())
    }

    /// Reads big-endian 32-bit values until the input is exhausted.
    pub fn decode(decoder: &mut Decoder) -> (r: DecodeResult<Self>)
        ensures
            ({
                let rem = old(decoder).remaining_bytes();
                match r {
                    Ok(p) => spec_parse_i32s(rem) == Ok::<Seq<i32>, DecodeError>(p.values@)
                        && final(decoder).remaining_bytes().len() == 0,
                    Err(e) => spec_parse_i32s(rem) == Err::<Seq<i32>, DecodeError>(e),
                }
            }),
    {
        let ghost rem = decoder.remaining_bytes();
        let mut values: Vec<i32> = Vec::new();
        loop
            invariant
                rem == old(decoder).remaining_bytes(),
                rem.len() >= 4 * values@.len(),
                decoder.remaining_bytes() == rem.skip(4 * values@.len() as int),
                forall|j: int| 0 <= j < values@.len() ==> values@[j] == spec_i32_from_be(
                    rem.subrange(4 * j, 4 * j + 4),
                ),
            decreases rem.len() - 4 * values@.len(),
        {
            if decoder.remaining() == 0 {
                proof {
                    lemma_parse_i32s_pointwise(rem);
                    assert(values@ =~= Seq::new(
                        rem.len() / 4,
                        |j: int| spec_i32_from_be(rem.subrange(4 * j, 4 * j + 4)),
                    ));
                }
                return Ok(ReadCountersResponse { values });
            }
            let ghost n0 = values@.len() as int;
            let word = match decoder.read_i32() {
                Ok(v) => v,
                Err(e) => {
                    proof {
                        lemma_parse_i32s_pointwise(rem);
                    }
                    return Err(e);
                },
            };
            values.push(word);
            proof {
                assert(rem.skip(4 * n0).take(4) =~= rem.subrange(4 * n0, 4 * n0 + 4));
                assert(rem.skip(4 * n0).skip(4) =~= rem.skip(4 * (n0 + 1)));
            }
        }
    }

    /// Reads a response from all of `buffer`.
    pub fn decode_from_bytes(buffer: &[u8]) -> (r: DecodeResult<Self>)
        ensures
            match r {
                Ok(p) => spec_parse_i32s(buffer@) == Ok::<Seq<i32>, DecodeError>(p.values@),
                Err(e) => spec_parse_i32s(buffer@) == Err::<Seq<i32>, DecodeError>(e),
            },
    {
        let mut decoder = Decoder::new(buffer);
        ReadCountersResponse::decode(&mut decoder)
    }
}

/// The response to a read-registers request: one big-endian 32-bit
/// value per element read.
#[derive(Debug, PartialEq)]
pub struct ReadRegistersResponse {
    pub values: Vec<i32>,
}

impl ReadRegistersResponse {
    /// Appends four big-endian bytes per value; never fails.
    pub fn encode(&self, encoder: &mut Encoder) -> (r: EncodeResult)
        ensures
            r matches Ok(u) && final(encoder)@ == old(encoder)@ + spec_i32s_bytes(self.values@),
    {
        encoder.reserve(self.values.len());
        let mut i: usize = 0;
        while i < self.values.len()
            invariant
                i <= self.values@.len(),
                encoder@ == old(encoder)@ + spec_i32s_bytes(self.values@.take(i as int)),
            decreases self.values@.len() - i,
        {
            encoder.write_i32(self.values[i]);
            proof {
                lemma_i32s_bytes_push(self.values@.take(i as int), self.values@[i as int]);
                assert(self.values@.take(i + 1) =~= self.values@.take(i as int).push(
                    self.values@[i as int],
                ));
            }
            i = i + 1;
        }
        proof {
            assert(self.values@.take(self.values@.len() as int) =~= self.values@);
        }
        Ok(())
    }

    /// Builds the response body as a byte vector.
    pub fn encode_to_bytes(&self) -> (r: Result<Vec<u8>, crate::errors::EncodeError>)
        ensures
            r matches Ok(v) && v@ == spec_i32s_bytes(self.values@),
    {
        let mut encoder = Encoder::new();
        let _ = self.encode(&mut encoder);
        Ok(encoder.finish())
    }

    /// Reads big-endian 32-bit values until the input is exhausted.
    pub fn decode(decoder: &mut Decoder) -> (r: DecodeResult<Self>)
        ensures
            ({
                let rem = old(decoder).remaining_bytes();
                match r {
                    Ok(p) => spec_parse_i32s(rem) == Ok::<Seq<i32>, DecodeError>(p.values@)
                        && final(decoder).remaining_bytes().len() == 0,
                    Err(e) => spec_parse_i32s(rem) == Err::<Seq<i32>, DecodeError>(e),
                }
            }),
    {
        let ghost rem = decoder.remaining_bytes();
        let mut values: Vec<i32> = Vec::new();
        loop
            invariant
                rem == old(decoder).remaining_bytes(),
                rem.len() >= 4 * values@.len(),
                decoder.remaining_bytes() == rem.skip(4 * values@.len() as int),
                forall|j: int| 0 <= j < values@.len() ==> values@[j] == spec_i32_from_be(
                    rem.subrange(4 * j, 4 * j + 4),
                ),
            decreases rem.len() - 4 * values@.len(),
        {
            if decoder.remaining() == 0 {
                proof {
                    lemma_parse_i32s_pointwise(rem);
                    assert(values@ =~= Seq::new(
                        rem.len() / 4,
                        |j: int| spec_i32_from_be(rem.subrange(4 * j, 4 * j + 4)),
                    ));
                }
                return Ok(ReadRegistersResponse { values });
            }
            let ghost n0 = values@.len() as int;
            let word = match decoder.read_i32() {
                Ok(v) => v,
                Err(e) => {
                    proof {
                        lemma_parse_i32s_pointwise(rem);
                    }
                    return Err(e);
                },
            };
            values.push(word);
            proof {
                assert(rem.skip(4 * n0).take(4) =~= rem.subrange(4 * n0, 4 * n0 + 4));
                assert(rem.skip(4 * n0).skip(4) =~= rem.skip(4 * (n0 + 1)));
            }
        }
    }

    /// Reads a response from all of `buffer`.
    pub fn decode_from_bytes(buffer: &[u8]) -> (r: DecodeResult<Self>)
        ensures
            match r {
                Ok(p) => spec_parse_i32s(buffer@) == Ok::<Seq<i32>, DecodeError>(p.values@),
                Err(e) => spec_parse_i32s(buffer@) == Err::<Seq<i32>, DecodeError>(e),
            },
    {
        let mut decoder = Decoder::new(buffer);
        ReadRegistersResponse::decode(&mut decoder)
    }
}

/// The response to a read-flags request: the booleans packed
/// eight to a byte, the last byte padded with clear bits.
#[derive(Debug, PartialEq)]
pub struct ReadFlagsResponse {
    pub values: Vec<bool>,
}

impl ReadFlagsResponse {
    /// Appends the packed booleans; never fails.
    pub fn encode(&self, encoder: &mut Encoder) -> (r: EncodeResult)
        ensures
            r matches Ok(u) && final(encoder)@ == old(encoder)@ + spec_bools_bytes(self.values@),
    {
        encoder.write_bools(self.values.as_slice());
        Ok(())
    }

    /// Builds the response body as a byte vector.
    pub fn encode_to_bytes(&self) -> (r: Result<Vec<u8>, crate::errors::EncodeError>)
        ensures
            r matches Ok(v) && v@ == spec_bools_bytes(self.values@),
    {
        let mut encoder = Encoder::new();
        let _ = self.encode(&mut encoder);
        Ok(encoder.finish())
    }

    /// Unpacks every byte of the input into eight booleans; never
    /// fails. The element count is known only up to the padding.
    pub fn decode(decoder: &mut Decoder) -> (r: DecodeResult<Self>)
        requires
            old(decoder).remaining_bytes().len() <= usize::MAX / 8,
        ensures
            ({
                let rem = old(decoder).remaining_bytes();
                r matches Ok(p) && p.values@ == spec_parse_bools(rem, (8 * rem.len()) as nat)
                    && final(decoder).remaining_bytes().len() == 0
            }),
    {
        let ghost rem = decoder.remaining_bytes();
        let count = decoder.remaining();
        let values = match decoder.read_bools(count * 8) {
            Ok(v) => v,
            Err(e) => {
                proof {
                    assert(false);
                }
                Vec::new()
            },
        };
        proof {
            assert(rem.take(rem.len() as int) =~= rem);
            assert(values@ =~= spec_parse_bools(rem, (8 * rem.len()) as nat));
        }
        Ok(ReadFlagsResponse { values })
    }

    /// Reads a response from all of `buffer`.
    pub fn decode_from_bytes(buffer: &[u8]) -> (r: DecodeResult<Self>)
        requires
            buffer@.len() <= usize::MAX / 8,
        ensures
            r matches Ok(p) && p.values@ == spec_parse_bools(buffer@, (8 * buffer@.len()) as nat),
    {
        let mut decoder = Decoder::new(buffer);
        ReadFlagsResponse::decode(&mut decoder)
    }
}

/// The response to a read-inputs request: the booleans packed
/// eight to a byte, the last byte padded with clear bits.
#[derive(Debug, PartialEq)]
pub struct ReadInputsResponse {
    pub values: Vec<bool>,
}

impl ReadInputsResponse {
    /// Appends the packed booleans; never fails.
    pub fn encode(&self, encoder: &mut Encoder) -> (r: EncodeResult)
        ensures
            r matches Ok(u) && final(encoder)@ == old(encoder)@ + spec_bools_bytes(self.values@),
    {
        encoder.write_bools(self.values.as_slice());
        Ok(())
    }

    /// Builds the response body as a byte vector.
    pub fn encode_to_bytes(&self) -> (r: Result<Vec<u8>, crate::errors::EncodeError>)
        ensures
            r matches Ok(v) && v@ == spec_bools_bytes(self.values@),
    {
        let mut encoder = Encoder::new();
        let _ = self.encode(&mut encoder);
        Ok(encoder.finish())
    }

    /// Unpacks every byte of the input into eight booleans; never
    /// fails. The element count is known only up to the padding.
    pub fn decode(decoder: &mut Decoder) -> (r: DecodeResult<Self>)
        requires
            old(decoder).remaining_bytes().len() <= usize::MAX / 8,
        ensures
            ({
                let rem = old(decoder).remaining_bytes();
                r matches Ok(p) && p.values@ == spec_parse_bools(rem, (8 * rem.len()) as nat)
                    && final(decoder).remaining_bytes().len() == 0
            }),
    {
        let ghost rem = decoder.remaining_bytes();
        let count = decoder.remaining();
        let values = match decoder.read_bools(count * 8) {
            Ok(v) => v,
            Err(e) => {
                proof {
                    assert(false);
                }
                Vec::new()
            },
        };
        proof {
            assert(rem.take(rem.len() as int) =~= rem);
            assert(values@ =~= spec_parse_bools(rem, (8 * rem.len()) as nat));
        }
        Ok(ReadInputsResponse { values })
    }

    /// Reads a response from all of `buffer`.
    pub fn decode_from_bytes(buffer: &[u8]) -> (r: DecodeResult<Self>)
        requires
            buffer@.len() <= usize::MAX / 8,
        ensures
            r matches Ok(p) && p.values@ == spec_parse_bools(buffer@, (8 * buffer@.len()) as nat),
    {
        let mut decoder = Decoder::new(buffer);
        ReadInputsResponse::decode(&mut decoder)
    }
}

/// The response to a read-outputs request: the booleans packed
/// eight to a byte, the last byte padded with clear bits.
#[derive(Debug, PartialEq)]
pub struct ReadOutputsResponse {
    pub values: Vec<bool>,
}

impl ReadOutputsResponse {
    /// Appends the packed booleans; never fails.
    pub fn encode(&self, encoder: &mut Encoder) -> (r: EncodeResult)
        ensures
            r matches Ok(u) && final(encoder)@ == old(encoder)@ + spec_bools_bytes(self.values@),
    {
        encoder.write_bools(self.values.as_slice());
        Ok(())
    }

    /// Builds the response body as a byte vector.
    pub fn encode_to_bytes(&self) -> (r: Result<Vec<u8>, crate::errors::EncodeError>)
        ensures
            r matches Ok(v) && v@ == spec_bools_bytes(self.values@),
    {
        let mut encoder = Encoder::new();
        let _ = self.encode(&mut encoder);
        Ok(encoder.finish())
    }

    /// Unpacks every byte of the input into eight booleans; never
    /// fails. The element count is known only up to the padding.
    pub fn decode(decoder: &mut Decoder) -> (r: DecodeResult<Self>)
        requires
            old(decoder).remaining_bytes().len() <= usize::MAX / 8,
        ensures
            ({
                let rem = old(decoder).remaining_bytes();
                r matches Ok(p) && p.values@ == spec_parse_bools(rem, (8 * rem.len()) as nat)
                    && final(decoder).remaining_bytes().len() == 0
            }),
    {
        let ghost rem = decoder.remaining_bytes();
        let count = decoder.remaining();
        let values = match decoder.read_bools(count * 8) {
            Ok(v) => v,
            Err(e) => {
                proof {
                    assert(false);
                }
                Vec::new()
            },
        };
        proof {
            assert(rem.take(rem.len() as int) =~= rem);
            assert(values@ =~= spec_parse_bools(rem, (8 * rem.len()) as nat));
        }
        Ok(ReadOutputsResponse { values })
    }

    /// Reads a response from all of `buffer`.
    pub fn decode_from_bytes(buffer: &[u8]) -> (r: DecodeResult<Self>)
        requires
            buffer@.len() <= usize::MAX / 8,
        ensures
            r matches Ok(p) && p.values@ == spec_parse_bools(buffer@, (8 * buffer@.len()) as nat),
    {
        let mut decoder = Decoder::new(buffer);
        ReadOutputsResponse::decode(&mut decoder)
    }
}

/// Unpacking a packed boolean list at the padded length yields the
/// list followed by clear padding bits.
pub proof fn lemma_bools_padded_round_trip(vs: Seq<bool>)
    ensures
        ({
            let decoded = spec_parse_bools(
                spec_bools_bytes(vs),
                (8 * spec_bools_bytes(vs).len()) as nat,
            );
            decoded.len() == 8 * ((vs.len() + 7) / 8) && decoded.take(vs.len() as int) == vs
                && (forall|i: int| vs.len() <= i < decoded.len() ==> !decoded[i])
        }),
{
    let bytes = spec_bools_bytes(vs);
    let decoded = spec_parse_bools(bytes, (8 * bytes.len()) as nat);
    assert forall|i: int| 0 <= i < decoded.len() implies decoded[i] == (crate::encoding::bool_val(
        vs,
        i,
    ) == 1) by {
        lemma_bool_byte_bits(vs, i / 8, i % 8);
        assert(8 * (i / 8) + i % 8 == i);
    }
    assert(decoded.take(vs.len() as int) =~= vs);
}

/// The response to a read-display-register request: one big-endian
/// 32-bit value.
#[derive(Debug, Clone, Copy, PartialEq, Eq, Structural)]
pub struct ReadDisplayRegisterResponse {
    pub register: u32,
}

/// What decoding a display-register response reads from the first four
/// bytes of `b`.
pub open spec fn spec_parse_display_register(b: Seq<u8>) -> Result<u32, DecodeError> {
    if b.len() < 4 {
        Err(DecodeError::MissingData)
    } else {
        Ok(spec_u32_from_be(b.take(4)))
    }
}

impl ReadDisplayRegisterResponse {
    /// Writes the register value, big-endian; never fails.
    pub fn encode(&self, encoder: &mut Encoder) -> (r: EncodeResult)
        ensures
            r matches Ok(u) && final(encoder)@ == old(encoder)@ + spec_u32_be(self.register),
    {
        encoder.write_u32(self.register);
        Ok(())
    }

    /// Reads the register value, big-endian.
    pub fn decode(decoder: &mut Decoder) -> (r: DecodeResult<Self>)
        ensures
            ({
                let rem = old(decoder).remaining_bytes();
                match r {
                    Ok(p) => spec_parse_display_register(rem) == Ok::<u32, DecodeError>(
                        p.register,
                    ) && final(decoder).remaining_bytes() == rem.skip(4),
                    Err(e) => spec_parse_display_register(rem) == Err::<u32, DecodeError>(e),
                }
            }),
    {
        let register = decoder.read_u32()?;
        Ok(ReadDisplayRegisterResponse { register })
    }

    /// Reads a response from all of `buffer`; trailing bytes are
    /// ignored.
    pub fn decode_from_bytes(buffer: &[u8]) -> (r: DecodeResult<Self>)
        ensures
            match r {
                Ok(p) => spec_parse_display_register(buffer@) == Ok::<u32, DecodeError>(
                    p.register,
                ),
                Err(e) => spec_parse_display_register(buffer@) == Err::<u32, DecodeError>(e),
            },
    {
        let mut decoder = Decoder::new(buffer);
        ReadDisplayRegisterResponse::decode(&mut decoder)
    }

    /// Decoding the encoding of any register value yields it back.
    pub proof fn lemma_round_trip(register: u32)
        ensures
            spec_parse_display_register(spec_u32_be(register)) == Ok::<u32, DecodeError>(
                register,
            ),
    {
        assert(spec_u32_be(register).take(4) =~= spec_u32_be(register));
        lemma_u32_be_round_trip(register);
    }
}

/// The response to a station-number query: the 8-bit station address.
#[derive(Debug, Clone, Copy, PartialEq, Eq, Structural)]
pub struct ReadSBusStationNumberResponse {
    pub station: u8,
}

impl ReadSBusStationNumberResponse {
    /// Writes the station byte; never fails.
    pub fn encode(&self, encoder: &mut Encoder) -> (r: EncodeResult)
        ensures
            r matches Ok(u) && final(encoder)@ == old(encoder)@.push(self.station),
    {
        encoder.write_u8(self.station);
        Ok(())
    }

    /// Reads the station byte.
    pub fn decode(decoder: &mut Decoder) -> (r: DecodeResult<Self>)
        ensures
            ({
                let rem = old(decoder).remaining_bytes();
                match r {
                    Ok(p) => rem.len() >= 1 && p.station == rem[0] && final(decoder).remaining_bytes() == rem.skip(1),
                    Err(e) => e == DecodeError::MissingData && rem.len() == 0,
                }
            }),
    {
        let station = decoder.read_u8()?;
        Ok(ReadSBusStationNumberResponse { station })
    }

    /// Reads a response from all of `buffer`; trailing bytes are
    /// ignored.
    pub fn decode_from_bytes(buffer: &[u8]) -> (r: DecodeResult<Self>)
        ensures
            match r {
                Ok(p) => buffer@.len() >= 1 && p.station == buffer@[0],
                Err(e) => e == DecodeError::MissingData && buffer@.len() == 0,
            },
    {
        let mut decoder = Decoder::new(buffer);
        ReadSBusStationNumberResponse::decode(&mut decoder)
    }
}

/// The response to a read-real-time-clock request: the eight clock
/// fields in binary-coded decimal.
#[derive(Debug, Clone, Copy, PartialEq, Eq, Structural)]
pub struct ReadRealTimeClockResponse {
    pub rtc: RealTimeClock,
}

impl ReadRealTimeClockResponse {
    /// Appends the eight clock bytes; a field above 99 fails with
    /// `Overflow` and leaves the encoder unchanged.
    pub fn encode(&self, encoder: &mut Encoder) -> (r: EncodeResult)
        ensures
            match r {
                Ok(u) => self.rtc.valid() && final(encoder)@ == old(encoder)@
                    + self.rtc.spec_bytes(),
                Err(e) => e == crate::errors::EncodeError::Overflow && !self.rtc.valid()
                    && *final(encoder) == *old(encoder),
            },
    {
        self.rtc.encode(encoder)
    }

    /// Reads the eight clock bytes.
    pub fn decode(decoder: &mut Decoder) -> (r: DecodeResult<Self>)
        ensures
            ({
                let rem = old(decoder).remaining_bytes();
                match r {
                    Ok(p) => spec_parse_rtc(rem) == Ok::<RealTimeClock, DecodeError>(p.rtc)
                        && p.rtc.valid() && final(decoder).remaining_bytes() == rem.skip(8),
                    Err(e) => spec_parse_rtc(rem) == Err::<RealTimeClock, DecodeError>(e),
                }
            }),
    {
        let rtc = RealTimeClock::decode(decoder)?;
        Ok(ReadRealTimeClockResponse { rtc })
    }

    /// Reads a response from all of `buffer`; trailing bytes are
    /// ignored.
    pub fn decode_from_bytes(buffer: &[u8]) -> (r: DecodeResult<Self>)
        ensures
            match r {
                Ok(p) => spec_parse_rtc(buffer@) == Ok::<RealTimeClock, DecodeError>(p.rtc)
                    && p.rtc.valid(),
                Err(e) => spec_parse_rtc(buffer@) == Err::<RealTimeClock, DecodeError>(e),
            },
    {
        let mut decoder = Decoder::new(buffer);
        ReadRealTimeClockResponse::decode(&mut decoder)
    }
}

/// The response to a firmware-version request: a NUL-terminated string,
/// decoded as UTF-8 with replacement of invalid sequences.
#[derive(Debug, PartialEq)]
pub struct ReadFirmwareVersionResponse {
    pub version: String,
}

/// What decoding a firmware-version response reads from `b`: the bytes
/// to the first NUL, decoded leniently; with no NUL the data is
/// incomplete.
pub open spec fn spec_parse_firmware_version(b: Seq<u8>) -> Result<Seq<char>, DecodeError> {
    if first_nul(b) < 0 {
        Err(DecodeError::MissingData)
    } else {
        Ok(utf8_lossy_of(b.take(first_nul(b))))
    }
}

impl ReadFirmwareVersionResponse {
    /// Appends the UTF-8 bytes of the version and a terminating NUL;
    /// never fails.
    pub fn encode(&self, encoder: &mut Encoder) -> (r: EncodeResult)
        ensures
            r matches Ok(u) && final(encoder)@ == old(encoder)@ + vstd::utf8::encode_utf8(self.version@)
                + seq![0u8],
    {
        encoder.write_string(self.version.as_str());
        Ok(())
    }

    /// Reads the bytes to the first NUL and decodes them leniently.
    pub fn decode(decoder: &mut Decoder) -> (r: DecodeResult<Self>)
        ensures
            ({
                let rem = old(decoder).remaining_bytes();
                match r {
                    Ok(p) => spec_parse_firmware_version(rem) == Ok::<Seq<char>, DecodeError>(
                        p.version@,
                    ) && (vstd::utf8::valid_utf8(rem.take(first_nul(rem))) ==> p.version@
                        == vstd::utf8::decode_utf8(rem.take(first_nul(rem)))) && final(decoder).remaining_bytes() == rem.skip(first_nul(rem) + 1),
                    Err(e) => spec_parse_firmware_version(rem) == Err::<Seq<char>, DecodeError>(
                        e,
                    ),
                }
            }),
    {
        let version = decoder.read_string()?;
        Ok(ReadFirmwareVersionResponse { version })
    }

    /// Reads a response from all of `buffer`; bytes after the NUL are
    /// ignored.
    pub fn decode_from_bytes(buffer: &[u8]) -> (r: DecodeResult<Self>)
        ensures
            match r {
                Ok(p) => spec_parse_firmware_version(buffer@) == Ok::<Seq<char>, DecodeError>(
                    p.version@,
                ),
                Err(e) => spec_parse_firmware_version(buffer@) == Err::<Seq<char>, DecodeError>(
                    e,
                ),
            },
    {
        let mut decoder = Decoder::new(buffer);
        ReadFirmwareVersionResponse::decode(&mut decoder)
    }
}

/// A NUL-free version string is framed losslessly: parsing its encoded
/// form stops exactly at the terminator and hands the UTF-8 decoder
/// exactly the bytes that were written. (What the lenient UTF-8
/// decoder makes of them is pinned separately: valid UTF-8, which
/// encoding a string always produces, is decoded without replacement.)
pub proof fn lemma_firmware_version_framing(version: Seq<char>)
    requires
        forall|i: int|
            0 <= i < vstd::utf8::encode_utf8(version).len() ==> #[trigger] vstd::utf8::encode_utf8(
                version,
            )[i] != 0,
    ensures
        spec_parse_firmware_version(vstd::utf8::encode_utf8(version) + seq![0u8]) == Ok::<
            Seq<char>,
            DecodeError,
        >(utf8_lossy_of(vstd::utf8::encode_utf8(version))),
        vstd::utf8::valid_utf8(vstd::utf8::encode_utf8(version)),
        vstd::utf8::decode_utf8(vstd::utf8::encode_utf8(version)) == version,
{
    let bytes = vstd::utf8::encode_utf8(version);
    let framed = bytes + seq![0u8];
    crate::encoding::lemma_first_nul(framed, bytes.len() as int);
    assert(first_nul(framed) == bytes.len());
    assert(framed.take(bytes.len() as int) =~= bytes);
    vstd::utf8::encode_utf8_valid_utf8(version);
    vstd::utf8::encode_utf8_decode_utf8(version);
}

/// The response to a read-timers request, laid out as the registers
/// response.
pub type ReadTimersResponse = ReadRegistersResponse;

} // verus!

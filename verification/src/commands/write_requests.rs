use vstd::prelude::*;

use crate::encoding::{
    lemma_bools_round_trip, spec_bools_bytes, spec_i32_from_be, spec_parse_bools, spec_u16_be,
    spec_u16_from_be, Decoder, Encoder,
};
use crate::errors::{DecodeError, DecodeReason, DecodeResult, EncodeError, EncodeResult};
use crate::real_time_clock::{spec_parse_rtc, RealTimeClock};

use super::read_responses::{
    lemma_i32s_bytes_len, lemma_i32s_round_trip, lemma_parse_i32s_pointwise, spec_i32s_bytes,
    spec_parse_i32s,
};

verus! {

// ---------------------------------------------------------------------------
// Word-array writes
// ---------------------------------------------------------------------------

/// The wire bytes of a word-array write request: the byte count of the
/// words plus one, the 16-bit start address, then the big-endian words.
pub open spec fn spec_write_words_bytes(address: u16, values: Seq<i32>) -> Seq<u8>
    recommends
        values.len() <= 63,
{
    seq![(4 * values.len() + 1) as u8] + spec_u16_be(address) + spec_i32s_bytes(values)
}

/// What decoding a word-array write request reads from `b`: the length
/// byte minus one must be a whole number of words, which then follow
/// the address.
pub open spec fn spec_parse_write_words(b: Seq<u8>) -> Result<(u16, Seq<i32>), DecodeError> {
    if b.len() < 1 {
        Err(DecodeError::MissingData)
    } else if b[0] == 0 {
        Err(DecodeError::InvalidData(DecodeReason::InvalidLength))
    } else if (b[0] - 1) % 4 != 0 {
        Err(DecodeError::InvalidData(DecodeReason::InvalidLength))
    } else if b.len() < 3 {
        Err(DecodeError::MissingData)
    } else if b.len() < 3 + (b[0] - 1) {
        Err(DecodeError::MissingData)
    } else {
        Ok(
            (
                spec_u16_from_be(b.subrange(1, 3)),
                Seq::new(
                    ((b[0] - 1) as int / 4) as nat,
                    |j: int| spec_i32_from_be(b.subrange(3 + 4 * j, 3 + 4 * j + 4)),
                ),
            ),
        )
    }
}

/// Decoding the encoding of a word-array write of at most 63 words
/// yields address and words back.
pub proof fn lemma_write_words_round_trip(address: u16, values: Seq<i32>)
    requires
        values.len() <= 63,
    ensures
        spec_parse_write_words(spec_write_words_bytes(address, values)) == Ok::<
            (u16, Seq<i32>),
            DecodeError,
        >((address, values)),
{
    let b = spec_write_words_bytes(address, values);
    let words = spec_i32s_bytes(values);
    lemma_i32s_bytes_len(values);
    assert(b[0] == 4 * values.len() + 1);
    assert(b.subrange(1, 3) =~= spec_u16_be(address));
    crate::encoding::lemma_u16_be_round_trip(address);
    lemma_i32s_round_trip(values);
    lemma_parse_i32s_pointwise(words);
    assert forall|j: int| 0 <= j < values.len() implies #[trigger] b.subrange(
        3 + 4 * j,
        3 + 4 * j + 4,
    ) =~= words.subrange(4 * j, 4 * j + 4) by {
    }
    assert(Seq::new(
        ((b[0] - 1) as int / 4) as nat,
        |j: int| spec_i32_from_be(b.subrange(3 + 4 * j, 3 + 4 * j + 4)),
    ) =~= values);
}

/// A request to write the given words to registers starting at
/// `address`.
#[derive(Debug, PartialEq)]
pub struct WriteRegistersRequest {
    pub address: u16,
    pub values: Vec<i32>,
}

impl WriteRegistersRequest {
    /// Appends length byte, address and words; more than 63 words
    /// overflow the length byte, fail with `Overflow` and leave the
    /// encoder unchanged.
    pub fn encode(&self, encoder: &mut Encoder) -> (r: EncodeResult)
        ensures
            match r {
                Ok(u) => self.values@.len() <= 63 && final(encoder)@ == old(encoder)@
                    + spec_write_words_bytes(self.address, self.values@),
                Err(e) => e == EncodeError::Overflow && self.values@.len() > 63 && *final(encoder)
                    == *old(encoder),
            },
    {
        if self.values.len() > 63 {
            return Err(EncodeError::Overflow);
        }
        encoder.write_u8((4 * self.values.len() + 1) as u8);
        encoder.write_u16(self.address);
        let ghost mid = encoder@;
        encoder.reserve(4 * self.values.len());
        let mut i: usize = 0;
        while i < self.values.len()
            invariant
                i <= self.values@.len(),
                encoder@ == mid + spec_i32s_bytes(self.values@.take(i as int)),
            decreases self.values@.len() - i,
        {
            encoder.write_i32(self.values[i]);
            proof {
                super::read_responses::lemma_i32s_bytes_push(
                    self.values@.take(i as int),
                    self.values@[i as int],
                );
                assert(self.values@.take(i + 1) =~= self.values@.take(i as int).push(
                    self.values@[i as int],
                ));
            }
            i = i + 1;
        }
        proof {
            assert(self.values@.take(self.values@.len() as int) =~= self.values@);
            assert(encoder@ =~= old(encoder)@ + spec_write_words_bytes(
                self.address,
                self.values@,
            ));
        }
        Ok(())
    }

    /// Builds the request body as a byte vector.
    pub fn encode_to_bytes(&self) -> (r: Result<Vec<u8>, EncodeError>)
        ensures
            match r {
                Ok(v) => self.values@.len() <= 63 && v@ == spec_write_words_bytes(
                    self.address,
                    self.values@,
                ),
                Err(e) => e == EncodeError::Overflow && self.values@.len() > 63,
            },
    {
        let mut encoder = Encoder::new();
        self.encode(&mut encoder)?;
        Ok(encoder.finish())
    }

    /// Reads length byte, address and words.
    pub fn decode(decoder: &mut Decoder) -> (r: DecodeResult<Self>)
        ensures
            ({
                let rem = old(decoder).remaining_bytes();
                match r {
                    Ok(q) => spec_parse_write_words(rem) == Ok::<(u16, Seq<i32>), DecodeError>(
                        (q.address, q.values@),
                    ),
                    Err(e) => spec_parse_write_words(rem) == Err::<(u16, Seq<i32>), DecodeError>(
                        e,
                    ),
                }
            }),
    {
        let ghost rem = decoder.remaining_bytes();
        let stored = decoder.read_u8()?;
        if stored == 0 {
            return Err(DecodeError::InvalidData(DecodeReason::InvalidLength));
        }
        let byte_count = stored - 1;
        if byte_count % 4 != 0 {
            return Err(DecodeError::InvalidData(DecodeReason::InvalidLength));
        }
        let count = byte_count / 4;
        let address = match decoder.read_u16() {
            Ok(v) => v,
            Err(e) => {
                return Err(e);
            },
        };
        proof {
            assert(rem.skip(1).take(2) =~= rem.subrange(1, 3));
            assert(rem.skip(1).skip(2) =~= rem.skip(3));
        }
        let mut values: Vec<i32> = Vec::new();
        let mut i: u8 = 0;
        while i < count
            invariant
                rem == old(decoder).remaining_bytes(),
                i <= count,
                count == (rem[0] - 1) / 4,
                rem.len() >= 1 && rem[0] == stored && stored != 0 && (stored - 1) % 4 == 0,
                rem.len() >= 3 + 4 * i,
                values@.len() == i as int,
                forall|j: int| 0 <= j < i ==> values@[j] == spec_i32_from_be(
                    rem.subrange(3 + 4 * j, 3 + 4 * j + 4),
                ),
                decoder.remaining_bytes() == rem.skip(3 + 4 * i),
            decreases count - i,
        {
            let word = match decoder.read_i32() {
                Ok(v) => v,
                Err(e) => {
                    return Err(e);
                },
            };
            proof {
                assert(rem.skip(3 + 4 * i).take(4) =~= rem.subrange(3 + 4 * i, 3 + 4 * i + 4));
                assert(rem.skip(3 + 4 * i).skip(4) =~= rem.skip(3 + 4 * (i + 1)));
            }
            values.push(word);
            i = i + 1;
        }
        proof {
            assert(values@ =~= Seq::new(
                ((rem[0] - 1) as int / 4) as nat,
                |j: int| spec_i32_from_be(rem.subrange(3 + 4 * j, 3 + 4 * j + 4)),
            ));
        }
        Ok(WriteRegistersRequest { address, values })
    }

    /// Reads a request from all of `buffer`; trailing bytes are
    /// ignored.
    pub fn decode_from_bytes(buffer: &[u8]) -> (r: DecodeResult<Self>)
        ensures
            match r {
                Ok(q) => spec_parse_write_words(buffer@) == Ok::<(u16, Seq<i32>), DecodeError>(
                    (q.address, q.values@),
                ),
                Err(e) => spec_parse_write_words(buffer@) == Err::<(u16, Seq<i32>), DecodeError>(
                    e,
                ),
            },
    {
        let mut decoder = Decoder::new(buffer);
        WriteRegistersRequest::decode(&mut decoder)
    }
}

/// A request to write the given words to timers starting at
/// `address`.
#[derive(Debug, PartialEq)]
pub struct WriteTimersRequest {
    pub address: u16,
    pub values: Vec<i32>,
}

impl WriteTimersRequest {
    /// Appends length byte, address and words; more than 63 words
    /// overflow the length byte, fail with `Overflow` and leave the
    /// encoder unchanged.
    pub fn encode(&self, encoder: &mut Encoder) -> (r: EncodeResult)
        ensures
            match r {
                Ok(u) => self.values@.len() <= 63 && final(encoder)@ == old(encoder)@
                    + spec_write_words_bytes(self.address, self.values@),
                Err(e) => e == EncodeError::Overflow && self.values@.len() > 63 && *final(encoder)
                    == *old(encoder),
            },
    {
        if self.values.len() > 63 {
            return Err(EncodeError::Overflow);
        }
        encoder.write_u8((4 * self.values.len() + 1) as u8);
        encoder.write_u16(self.address);
        let ghost mid = encoder@;
        encoder.reserve(4 * self.values.len());
        let mut i: usize = 0;
        while i < self.values.len()
            invariant
                i <= self.values@.len(),
                encoder@ == mid + spec_i32s_bytes(self.values@.take(i as int)),
            decreases self.values@.len() - i,
        {
            encoder.write_i32(self.values[i]);
            proof {
                super::read_responses::lemma_i32s_bytes_push(
                    self.values@.take(i as int),
                    self.values@[i as int],
                );
                assert(self.values@.take(i + 1) =~= self.values@.take(i as int).push(
                    self.values@[i as int],
                ));
            }
            i = i + 1;
        }
        proof {
            assert(self.values@.take(self.values@.len() as int) =~= self.values@);
            assert(encoder@ =~= old(encoder)@ + spec_write_words_bytes(
                self.address,
                self.values@,
            ));
        }
        Ok(())
    }

    /// Builds the request body as a byte vector.
    pub fn encode_to_bytes(&self) -> (r: Result<Vec<u8>, EncodeError>)
        ensures
            match r {
                Ok(v) => self.values@.len() <= 63 && v@ == spec_write_words_bytes(
                    self.address,
                    self.values@,
                ),
                Err(e) => e == EncodeError::Overflow && self.values@.len() > 63,
            },
    {
        let mut encoder = Encoder::new();
        self.encode(&mut encoder)?;
        Ok(encoder.finish())
    }

    /// Reads length byte, address and words.
    pub fn decode(decoder: &mut Decoder) -> (r: DecodeResult<Self>)
        ensures
            ({
                let rem = old(decoder).remaining_bytes();
                match r {
                    Ok(q) => spec_parse_write_words(rem) == Ok::<(u16, Seq<i32>), DecodeError>(
                        (q.address, q.values@),
                    ),
                    Err(e) => spec_parse_write_words(rem) == Err::<(u16, Seq<i32>), DecodeError>(
                        e,
                    ),
                }
            }),
    {
        let ghost rem = decoder.remaining_bytes();
        let stored = decoder.read_u8()?;
        if stored == 0 {
            return Err(DecodeError::InvalidData(DecodeReason::InvalidLength));
        }
        let byte_count = stored - 1;
        if byte_count % 4 != 0 {
            return Err(DecodeError::InvalidData(DecodeReason::InvalidLength));
        }
        let count = byte_count / 4;
        let address = match decoder.read_u16() {
            Ok(v) => v,
            Err(e) => {
                return Err(e);
            },
        };
        proof {
            assert(rem.skip(1).take(2) =~= rem.subrange(1, 3));
            assert(rem.skip(1).skip(2) =~= rem.skip(3));
        }
        let mut values: Vec<i32> = Vec::new();
        let mut i: u8 = 0;
        while i < count
            invariant
                rem == old(decoder).remaining_bytes(),
                i <= count,
                count == (rem[0] - 1) / 4,
                rem.len() >= 1 && rem[0] == stored && stored != 0 && (stored - 1) % 4 == 0,
                rem.len() >= 3 + 4 * i,
                values@.len() == i as int,
                forall|j: int| 0 <= j < i ==> values@[j] == spec_i32_from_be(
                    rem.subrange(3 + 4 * j, 3 + 4 * j + 4),
                ),
                decoder.remaining_bytes() == rem.skip(3 + 4 * i),
            decreases count - i,
        {
            let word = match decoder.read_i32() {
                Ok(v) => v,
                Err(e) => {
                    return Err(e);
                },
            };
            proof {
                assert(rem.skip(3 + 4 * i).take(4) =~= rem.subrange(3 + 4 * i, 3 + 4 * i + 4));
                assert(rem.skip(3 + 4 * i).skip(4) =~= rem.skip(3 + 4 * (i + 1)));
            }
            values.push(word);
            i = i + 1;
        }
        proof {
            assert(values@ =~= Seq::new(
                ((rem[0] - 1) as int / 4) as nat,
                |j: int| spec_i32_from_be(rem.subrange(3 + 4 * j, 3 + 4 * j + 4)),
            ));
        }
        Ok(WriteTimersRequest { address, values })
    }

    /// Reads a request from all of `buffer`; trailing bytes are
    /// ignored.
    pub fn decode_from_bytes(buffer: &[u8]) -> (r: DecodeResult<Self>)
        ensures
            match r {
                Ok(q) => spec_parse_write_words(buffer@) == Ok::<(u16, Seq<i32>), DecodeError>(
                    (q.address, q.values@),
                ),
                Err(e) => spec_parse_write_words(buffer@) == Err::<(u16, Seq<i32>), DecodeError>(
                    e,
                ),
            },
    {
        let mut decoder = Decoder::new(buffer);
        WriteTimersRequest::decode(&mut decoder)
    }
}

// ---------------------------------------------------------------------------
// Bit-array writes
// ---------------------------------------------------------------------------

/// The wire bytes of a bit-array write request: the packed byte count
/// plus two, the 16-bit start address, the bit count minus one, then
/// the packed booleans.
pub open spec fn spec_write_bits_bytes(address: u16, values: Seq<bool>) -> Seq<u8>
    recommends
        1 <= values.len() <= 256,
{
    seq![((values.len() + 7) / 8 + 2) as u8] + spec_u16_be(address) + seq![
        (values.len() - 1) as u8,
    ] + spec_bools_bytes(values)
}

/// What decoding a bit-array write request reads from `b`: the packed
/// bytes announced by the first byte, unpacked and truncated to the
/// announced bit count.
pub open spec fn spec_parse_write_bits(b: Seq<u8>) -> Result<(u16, Seq<bool>), DecodeError> {
    if b.len() < 1 {
        Err(DecodeError::MissingData)
    } else if b[0] < 2 {
        Err(DecodeError::InvalidData(DecodeReason::InvalidByteLength))
    } else if b.len() < 3 {
        Err(DecodeError::MissingData)
    } else if b.len() < 4 {
        Err(DecodeError::MissingData)
    } else if b[3] == 255 {
        Err(DecodeError::InvalidData(DecodeReason::InvalidLength))
    } else if b.len() < 4 + (b[0] - 2) {
        Err(DecodeError::MissingData)
    } else {
        let bits = 8 * (b[0] - 2) as int;
        let announced = b[3] + 1 as int;
        let kept = if announced < bits {
            announced
        } else {
            bits
        };
        Ok(
            (
                spec_u16_from_be(b.subrange(1, 3)),
                spec_parse_bools(b.subrange(4, 4 + (b[0] - 2)), kept as nat),
            ),
        )
    }
}

/// Decoding the encoding of a bit-array write of 1 to 255 booleans
/// yields address and booleans back. (A count of 256 encodes, but its
/// stored bit count reads back as an overflow.)
pub proof fn lemma_write_bits_round_trip(address: u16, values: Seq<bool>)
    requires
        1 <= values.len() <= 255,
    ensures
        spec_parse_write_bits(spec_write_bits_bytes(address, values)) == Ok::<
            (u16, Seq<bool>),
            DecodeError,
        >((address, values)),
{
    let b = spec_write_bits_bytes(address, values);
    let packed = spec_bools_bytes(values);
    assert(b[0] == (values.len() + 7) / 8 + 2);
    assert(b[3] == values.len() - 1);
    assert(b.subrange(1, 3) =~= spec_u16_be(address));
    crate::encoding::lemma_u16_be_round_trip(address);
    assert(b.subrange(4, 4 + (b[0] - 2)) =~= packed);
    lemma_bools_round_trip(values);
    assert(spec_parse_bools(packed, values.len()) == values);
}

/// A request to write the given booleans to outputs starting at
/// `address`.
#[derive(Debug, PartialEq)]
pub struct WriteOutputsRequest {
    pub address: u16,
    pub values: Vec<bool>,
}

impl WriteOutputsRequest {
    /// Appends byte count, address, bit count and packed booleans.
    /// A count of zero or above 256 does not fit the two count bytes,
    /// fails with `Overflow` and leaves the encoder unchanged.
    pub fn encode(&self, encoder: &mut Encoder) -> (r: EncodeResult)
        ensures
            match r {
                Ok(u) => 1 <= self.values@.len() <= 256 && final(encoder)@ == old(encoder)@
                    + spec_write_bits_bytes(self.address, self.values@),
                Err(e) => e == EncodeError::Overflow && !(1 <= self.values@.len() <= 256)
                    && *final(encoder) == *old(encoder),
            },
    {
        if self.values.len() == 0 || self.values.len() > 256 {
            return Err(EncodeError::Overflow);
        }
        let byte_length = self.values.len() / 8 + (if self.values.len() % 8 != 0 {
            1usize
        } else {
            0usize
        });
        encoder.write_u8((byte_length + 2) as u8);
        encoder.write_u16(self.address);
        encoder.write_u8((self.values.len() - 1) as u8);
        encoder.write_bools(self.values.as_slice());
        proof {
            assert(encoder@ =~= old(encoder)@ + spec_write_bits_bytes(
                self.address,
                self.values@,
            ));
        }
        Ok(())
    }

    /// Builds the request body as a byte vector.
    pub fn encode_to_bytes(&self) -> (r: Result<Vec<u8>, EncodeError>)
        ensures
            match r {
                Ok(v) => 1 <= self.values@.len() <= 256 && v@ == spec_write_bits_bytes(
                    self.address,
                    self.values@,
                ),
                Err(e) => e == EncodeError::Overflow && !(1 <= self.values@.len() <= 256),
            },
    {
        let mut encoder = Encoder::new();
        self.encode(&mut encoder)?;
        Ok(encoder.finish())
    }

    /// Reads byte count, address, bit count, and the packed booleans
    /// truncated to the bit count.
    pub fn decode(decoder: &mut Decoder) -> (r: DecodeResult<Self>)
        ensures
            ({
                let rem = old(decoder).remaining_bytes();
                match r {
                    Ok(q) => spec_parse_write_bits(rem) == Ok::<(u16, Seq<bool>), DecodeError>(
                        (q.address, q.values@),
                    ),
                    Err(e) => spec_parse_write_bits(rem) == Err::<(u16, Seq<bool>), DecodeError>(
                        e,
                    ),
                }
            }),
    {
        let ghost rem = decoder.remaining_bytes();
        let stored = decoder.read_u8()?;
        if stored < 2 {
            return Err(DecodeError::InvalidData(DecodeReason::InvalidByteLength));
        }
        let byte_length = stored - 2;
        let address = match decoder.read_u16() {
            Ok(v) => v,
            Err(e) => {
                return Err(e);
            },
        };
        proof {
            assert(rem.skip(1).take(2) =~= rem.subrange(1, 3));
            assert(rem.skip(1).skip(2) =~= rem.skip(3));
        }
        let bit_stored = match decoder.read_u8() {
            Ok(v) => v,
            Err(e) => {
                return Err(e);
            },
        };
        if bit_stored == 255 {
            return Err(DecodeError::InvalidData(DecodeReason::InvalidLength));
        }
        let length = bit_stored + 1;
        let mut values = match decoder.read_bools((byte_length as usize) * 8) {
            Ok(v) => v,
            Err(e) => {
                proof {
                    assert(rem.skip(4).len() < byte_length);
                }
                return Err(e);
            },
        };
        proof {
            assert(rem.skip(4).take(byte_length as int) =~= rem.subrange(
                4,
                4 + (rem[0] - 2),
            ));
        }
        values.truncate(length as usize);
        proof {
            let bits = 8 * (rem[0] - 2) as int;
            let announced = rem[3] + 1 as int;
            let kept = if announced < bits {
                announced
            } else {
                bits
            };
            assert(values@ =~= spec_parse_bools(rem.subrange(4, 4 + (rem[0] - 2)), kept as nat));
        }
        Ok(WriteOutputsRequest { address, values })
    }

    /// Reads a request from all of `buffer`; trailing bytes are
    /// ignored.
    pub fn decode_from_bytes(buffer: &[u8]) -> (r: DecodeResult<Self>)
        ensures
            match r {
                Ok(q) => spec_parse_write_bits(buffer@) == Ok::<(u16, Seq<bool>), DecodeError>(
                    (q.address, q.values@),
                ),
                Err(e) => spec_parse_write_bits(buffer@) == Err::<(u16, Seq<bool>), DecodeError>(
                    e,
                ),
            },
    {
        let mut decoder = Decoder::new(buffer);
        WriteOutputsRequest::decode(&mut decoder)
    }
}

/// A request to set the device clock.
#[derive(Debug, Clone, Copy, PartialEq, Eq, Structural)]
pub struct WriteRealTimeClockRequest {
    pub rtc: RealTimeClock,
}

impl WriteRealTimeClockRequest {
    /// Appends the eight clock bytes; a field above 99 fails with
    /// `Overflow` and leaves the encoder unchanged.
    pub fn encode(&self, encoder: &mut Encoder) -> (r: EncodeResult)
        ensures
            match r {
                Ok(u) => self.rtc.valid() && final(encoder)@ == old(encoder)@
                    + self.rtc.spec_bytes(),
                Err(e) => e == EncodeError::Overflow && !self.rtc.valid() && *final(encoder)
                    == *old(encoder),
            },
    {
        self.rtc.encode(encoder)
    }

    /// Builds the request body as a byte vector.
    pub fn encode_to_bytes(&self) -> (r: Result<Vec<u8>, EncodeError>)
        ensures
            match r {
                Ok(v) => self.rtc.valid() && v@ == self.rtc.spec_bytes(),
                Err(e) => e == EncodeError::Overflow && !self.rtc.valid(),
            },
    {
        let mut encoder = Encoder::new();
        self.encode(&mut encoder)?;
        Ok(encoder.finish())
    }

    /// Reads the eight clock bytes.
    pub fn decode(decoder: &mut Decoder) -> (r: DecodeResult<Self>)
        ensures
            ({
                let rem = old(decoder).remaining_bytes();
                match r {
                    Ok(q) => spec_parse_rtc(rem) == Ok::<RealTimeClock, DecodeError>(q.rtc)
                        && q.rtc.valid(),
                    Err(e) => spec_parse_rtc(rem) == Err::<RealTimeClock, DecodeError>(e),
                }
            }),
    {
        let rtc = RealTimeClock::decode(decoder)?;
        Ok(WriteRealTimeClockRequest { rtc })
    }

    /// Reads a request from all of `buffer`; trailing bytes are
    /// ignored.
    pub fn decode_from_bytes(buffer: &[u8]) -> (r: DecodeResult<Self>)
        ensures
            match r {
                Ok(q) => spec_parse_rtc(buffer@) == Ok::<RealTimeClock, DecodeError>(q.rtc)
                    && q.rtc.valid(),
                Err(e) => spec_parse_rtc(buffer@) == Err::<RealTimeClock, DecodeError>(e),
            },
    {
        let mut decoder = Decoder::new(buffer);
        WriteRealTimeClockRequest::decode(&mut decoder)
    }
}

/// A request to write counters, laid out as the registers write.
pub type WriteCountersRequest = WriteRegistersRequest;

/// A request to write flags, laid out as the outputs write.
pub type WriteFlagsRequest = WriteOutputsRequest;

} // verus!

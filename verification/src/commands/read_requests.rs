use vstd::prelude::*;

use crate::encoding::{spec_u16_be, spec_u16_from_be, Decoder, Encoder};
use crate::errors::{DecodeError, DecodeReason, DecodeResult, EncodeError, EncodeResult};

verus! {

/// The wire bytes of a read request: the element count minus one, then
/// the 16-bit start address.
pub open spec fn spec_read_request_bytes(length: u8, address: u16) -> Seq<u8>
    recommends
        length >= 1,
{
    seq![(length - 1) as u8] + spec_u16_be(address)
}

/// What decoding a read request reads from the first three bytes of
/// `b`: a stored count byte of 255 would overflow the count and is
/// rejected.
pub open spec fn spec_parse_read_request(b: Seq<u8>) -> Result<(u8, u16), DecodeError> {
    if b.len() < 1 {
        Err(DecodeError::MissingData)
    } else if b[0] == 255 {
        Err(DecodeError::InvalidData(DecodeReason::InvalidLength))
    } else if b.len() < 3 {
        Err(DecodeError::MissingData)
    } else {
        Ok((((b[0] + 1) as u8), spec_u16_from_be(b.subrange(1, 3))))
    }
}

/// Reading the three bytes a read request encodes to yields its count
/// and address back.
pub proof fn lemma_read_request_round_trip(length: u8, address: u16)
    requires
        length >= 1,
    ensures
        spec_parse_read_request(spec_read_request_bytes(length, address)) == Ok::<
            (u8, u16),
            DecodeError,
        >((length, address)),
{
    let b = spec_read_request_bytes(length, address);
    assert(b.subrange(1, 3) =~= spec_u16_be(address));
    crate::encoding::lemma_u16_be_round_trip(address);
}

/// A request to read `length` inputs starting at `address`.
#[derive(Debug, Clone, Copy, PartialEq, Eq, Structural)]
pub struct ReadInputsRequest {
    pub address: u16,
    pub length: u8,
}

impl ReadInputsRequest {
    /// Writes the count minus one and the address; a zero count fails
    /// with `Overflow` and leaves the encoder unchanged.
    pub fn encode(&self, encoder: &mut Encoder) -> (r: EncodeResult)
        ensures
            match r {
                Ok(u) => self.length >= 1 && final(encoder)@ == old(encoder)@
                    + spec_read_request_bytes(self.length, self.address),
                Err(e) => e == EncodeError::Overflow && self.length == 0 && *final(encoder)
                    == *old(encoder),
            },
    {
        if self.length == 0 {
            return Err(EncodeError::Overflow);
        }
        encoder.write_u8(self.length - 1);
        encoder.write_u16(self.address);
        assert(encoder@ =~= old(encoder)@ + spec_read_request_bytes(self.length, self.address));
        Ok(())
    }

    /// Builds the request body as a byte vector.
    pub fn encode_to_bytes(&self) -> (r: Result<Vec<u8>, EncodeError>)
        ensures
            match r {
                Ok(v) => self.length >= 1 && v@ == spec_read_request_bytes(
                    self.length,
                    self.address,
                ),
                Err(e) => e == EncodeError::Overflow && self.length == 0,
            },
    {
        let mut encoder = Encoder::new();
        self.encode(&mut encoder)?;
        Ok(encoder.finish())
    }

    /// Reads the count minus one and the address.
    pub fn decode(decoder: &mut Decoder) -> (r: DecodeResult<Self>)
        ensures
            ({
                let rem = old(decoder).remaining_bytes();
                match r {
                    Ok(q) => spec_parse_read_request(rem) == Ok::<(u8, u16), DecodeError>(
                        (q.length, q.address),
                    ) && final(decoder).remaining_bytes() == rem.skip(3),
                    Err(e) => spec_parse_read_request(rem) == Err::<(u8, u16), DecodeError>(e),
                }
            }),
    {
        let stored = decoder.read_u8()?;
        if stored == 255 {
            return Err(DecodeError::InvalidData(DecodeReason::InvalidLength));
        }
        let address = match decoder.read_u16() {
            Ok(v) => v,
            Err(e) => {
                return Err(e);
            },
        };
        proof {
            let rem = old(decoder).remaining_bytes();
            assert(rem.skip(1).take(2) =~= rem.subrange(1, 3));
            assert(rem.skip(1).skip(2) =~= rem.skip(3));
        }
        Ok(ReadInputsRequest { address, length: stored + 1 })
    }

    /// Reads a request from all of `buffer`; trailing bytes are
    /// ignored.
    pub fn decode_from_bytes(buffer: &[u8]) -> (r: DecodeResult<Self>)
        ensures
            match r {
                Ok(q) => spec_parse_read_request(buffer@) == Ok::<(u8, u16), DecodeError>(
                    (q.length, q.address),
                ),
                Err(e) => spec_parse_read_request(buffer@) == Err::<(u8, u16), DecodeError>(e),
            },
    {
        let mut decoder = Decoder::new(buffer);
        ReadInputsRequest::decode(&mut decoder)
    }
}

/// A request to read `length` registers starting at `address`.
#[derive(Debug, Clone, Copy, PartialEq, Eq, Structural)]
pub struct ReadRegistersRequest {
    pub address: u16,
    pub length: u8,
}

impl ReadRegistersRequest {
    /// Writes the count minus one and the address; a zero count fails
    /// with `Overflow` and leaves the encoder unchanged.
    pub fn encode(&self, encoder: &mut Encoder) -> (r: EncodeResult)
        ensures
            match r {
                Ok(u) => self.length >= 1 && final(encoder)@ == old(encoder)@
                    + spec_read_request_bytes(self.length, self.address),
                Err(e) => e == EncodeError::Overflow && self.length == 0 && *final(encoder)
                    == *old(encoder),
            },
    {
        if self.length == 0 {
            return Err(EncodeError::Overflow);
        }
        encoder.write_u8(self.length - 1);
        encoder.write_u16(self.address);
        assert(encoder@ =~= old(encoder)@ + spec_read_request_bytes(self.length, self.address));
        Ok(())
    }

    /// Builds the request body as a byte vector.
    pub fn encode_to_bytes(&self) -> (r: Result<Vec<u8>, EncodeError>)
        ensures
            match r {
                Ok(v) => self.length >= 1 && v@ == spec_read_request_bytes(
                    self.length,
                    self.address,
                ),
                Err(e) => e == EncodeError::Overflow && self.length == 0,
            },
    {
        let mut encoder = Encoder::new();
        self.encode(&mut encoder)?;
        Ok(encoder.finish())
    }

    /// Reads the count minus one and the address.
    pub fn decode(decoder: &mut Decoder) -> (r: DecodeResult<Self>)
        ensures
            ({
                let rem = old(decoder).remaining_bytes();
                match r {
                    Ok(q) => spec_parse_read_request(rem) == Ok::<(u8, u16), DecodeError>(
                        (q.length, q.address),
                    ) && final(decoder).remaining_bytes() == rem.skip(3),
                    Err(e) => spec_parse_read_request(rem) == Err::<(u8, u16), DecodeError>(e),
                }
            }),
    {
        let stored = decoder.read_u8()?;
        if stored == 255 {
            return Err(DecodeError::InvalidData(DecodeReason::InvalidLength));
        }
        let address = match decoder.read_u16() {
            Ok(v) => v,
            Err(e) => {
                return Err(e);
            },
        };
        proof {
            let rem = old(decoder).remaining_bytes();
            assert(rem.skip(1).take(2) =~= rem.subrange(1, 3));
            assert(rem.skip(1).skip(2) =~= rem.skip(3));
        }
        Ok(ReadRegistersRequest { address, length: stored + 1 })
    }

    /// Reads a request from all of `buffer`; trailing bytes are
    /// ignored.
    pub fn decode_from_bytes(buffer: &[u8]) -> (r: DecodeResult<Self>)
        ensures
            match r {
                Ok(q) => spec_parse_read_request(buffer@) == Ok::<(u8, u16), DecodeError>(
                    (q.length, q.address),
                ),
                Err(e) => spec_parse_read_request(buffer@) == Err::<(u8, u16), DecodeError>(e),
            },
    {
        let mut decoder = Decoder::new(buffer);
        ReadRegistersRequest::decode(&mut decoder)
    }
}

/// A request to read `length` timers starting at `address`.
#[derive(Debug, Clone, Copy, PartialEq, Eq, Structural)]
pub struct ReadTimersRequest {
    pub address: u16,
    pub length: u8,
}

impl ReadTimersRequest {
    /// Writes the count minus one and the address; a zero count fails
    /// with `Overflow` and leaves the encoder unchanged.
    pub fn encode(&self, encoder: &mut Encoder) -> (r: EncodeResult)
        ensures
            match r {
                Ok(u) => self.length >= 1 && final(encoder)@ == old(encoder)@
                    + spec_read_request_bytes(self.length, self.address),
                Err(e) => e == EncodeError::Overflow && self.length == 0 && *final(encoder)
                    == *old(encoder),
            },
    {
        if self.length == 0 {
            return Err(EncodeError::Overflow);
        }
        encoder.write_u8(self.length - 1);
        encoder.write_u16(self.address);
        assert(encoder@ =~= old(encoder)@ + spec_read_request_bytes(self.length, self.address));
        Ok(())
    }

    /// Builds the request body as a byte vector.
    pub fn encode_to_bytes(&self) -> (r: Result<Vec<u8>, EncodeError>)
        ensures
            match r {
                Ok(v) => self.length >= 1 && v@ == spec_read_request_bytes(
                    self.length,
                    self.address,
                ),
                Err(e) => e == EncodeError::Overflow && self.length == 0,
            },
    {
        let mut encoder = Encoder::new();
        self.encode(&mut encoder)?;
        Ok(encoder.finish())
    }

    /// Reads the count minus one and the address.
    pub fn decode(decoder: &mut Decoder) -> (r: DecodeResult<Self>)
        ensures
            ({
                let rem = old(decoder).remaining_bytes();
                match r {
                    Ok(q) => spec_parse_read_request(rem) == Ok::<(u8, u16), DecodeError>(
                        (q.length, q.address),
                    ) && final(decoder).remaining_bytes() == rem.skip(3),
                    Err(e) => spec_parse_read_request(rem) == Err::<(u8, u16), DecodeError>(e),
                }
            }),
    {
        let stored = decoder.read_u8()?;
        if stored == 255 {
            return Err(DecodeError::InvalidData(DecodeReason::InvalidLength));
        }
        let address = match decoder.read_u16() {
            Ok(v) => v,
            Err(e) => {
                return Err(e);
            },
        };
        proof {
            let rem = old(decoder).remaining_bytes();
            assert(rem.skip(1).take(2) =~= rem.subrange(1, 3));
            assert(rem.skip(1).skip(2) =~= rem.skip(3));
        }
        Ok(ReadTimersRequest { address, length: stored + 1 })
    }

    /// Reads a request from all of `buffer`; trailing bytes are
    /// ignored.
    pub fn decode_from_bytes(buffer: &[u8]) -> (r: DecodeResult<Self>)
        ensures
            match r {
                Ok(q) => spec_parse_read_request(buffer@) == Ok::<(u8, u16), DecodeError>(
                    (q.length, q.address),
                ),
                Err(e) => spec_parse_read_request(buffer@) == Err::<(u8, u16), DecodeError>(e),
            },
    {
        let mut decoder = Decoder::new(buffer);
        ReadTimersRequest::decode(&mut decoder)
    }
}

/// A request to read `length` counters starting at `address`.
pub type ReadCountersRequest = ReadRegistersRequest;

/// A request to read `length` flags starting at `address`.
pub type ReadFlagsRequest = ReadInputsRequest;

/// A request to read `length` outputs starting at `address`.
pub type ReadOutputsRequest = ReadInputsRequest;

} // verus!

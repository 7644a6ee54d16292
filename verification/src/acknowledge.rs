use vstd::prelude::*;

use crate::encoding::{spec_u16_be, spec_u16_from_be, Decoder, Encoder};
use crate::errors::{DecodeError, DecodeResult, EncodeResult};

verus! {

/// The 16-bit result code of an acknowledge telegram. `Ack` reports
/// success; the `Nak` family reports refusal; anything else is carried
/// as `Unknown`.
#[derive(Debug, Clone, Copy, PartialEq, Eq, Structural)]
pub enum Acknowledge {
    Ack,
    Nak,
    NakPassword,
    NakPGUReducedProtocol,
    NakPGUAlreadyUsed,
    Unknown(u16),
}

/// The wire value of an acknowledge code.
pub open spec fn spec_acknowledge_value(a: Acknowledge) -> u16 {
    match a {
        Acknowledge::Ack => 0,
        Acknowledge::Nak => 1,
        Acknowledge::NakPassword => 2,
        Acknowledge::NakPGUReducedProtocol => 3,
        Acknowledge::NakPGUAlreadyUsed => 4,
        Acknowledge::Unknown(v) => v,
    }
}

/// The acknowledge code a received wire value stands for.
pub open spec fn spec_acknowledge_from(v: u16) -> Acknowledge {
    if v == 0 {
        Acknowledge::Ack
    } else if v == 1 {
        Acknowledge::Nak
    } else if v == 2 {
        Acknowledge::NakPassword
    } else if v == 3 {
        Acknowledge::NakPGUReducedProtocol
    } else if v == 4 {
        Acknowledge::NakPGUAlreadyUsed
    } else {
        Acknowledge::Unknown(v)
    }
}

/// What decoding an acknowledge reads from the first two bytes of `b`.
pub open spec fn spec_parse_acknowledge(b: Seq<u8>) -> Result<Acknowledge, DecodeError> {
    if b.len() < 2 {
        Err(DecodeError::MissingData)
    } else {
        Ok(spec_acknowledge_from(spec_u16_from_be(b.take(2))))
    }
}

impl Acknowledge {
    /// Whether this value is the one that decoding its wire value gives
    /// back: `Unknown` must not shadow a named code.
    pub open spec fn canonical(&self) -> bool {
        spec_acknowledge_from(spec_acknowledge_value(*self)) == *self
    }

    /// The wire value of this acknowledge code.
    pub fn to_u16(&self) -> (r: u16)
        ensures
            r == spec_acknowledge_value(*self),
    {
        match *self {
            Acknowledge::Ack => 0,
            Acknowledge::Nak => 1,
            Acknowledge::NakPassword => 2,
            Acknowledge::NakPGUReducedProtocol => 3,
            Acknowledge::NakPGUAlreadyUsed => 4,
            Acknowledge::Unknown(v) => v,
        }
    }

    /// The acknowledge code a received wire value stands for.
    pub fn from_u16(v: u16) -> (r: Acknowledge)
        ensures
            r == spec_acknowledge_from(v),
            r.canonical(),
    {
        match v {
            0 => Acknowledge::Ack,
            1 => Acknowledge::Nak,
            2 => Acknowledge::NakPassword,
            3 => Acknowledge::NakPGUReducedProtocol,
            4 => Acknowledge::NakPGUAlreadyUsed,
            _ => Acknowledge::Unknown(v),
        }
    }

    /// Writes the 16-bit wire value, big-endian.
    pub fn encode(&self, encoder: &mut Encoder) -> (r: EncodeResult)
        ensures
            r matches Ok(u) && final(encoder)@ == old(encoder)@ + spec_u16_be(
                spec_acknowledge_value(*self),
            ),
    {
        encoder.write_u16(self.to_u16());
        Ok(())
    }

    /// Reads a 16-bit wire value, big-endian.
    pub fn decode(decoder: &mut Decoder) -> (r: DecodeResult<Self>)
        ensures
            ({
                let rem = old(decoder).remaining_bytes();
                match r {
                    Ok(a) => spec_parse_acknowledge(rem) == Ok::<Acknowledge, DecodeError>(a)
                        && a.canonical() && final(decoder).remaining_bytes() == rem.skip(2),
                    Err(e) => spec_parse_acknowledge(rem) == Err::<Acknowledge, DecodeError>(e)
                        && *final(decoder) == *old(decoder),
                }
            }),
    {
        let v = decoder.read_u16()?;
        Ok(Self::from_u16(v))
    }

    /// Decoding the encoding of any canonical acknowledge code yields
    /// the code back.
    pub proof fn lemma_round_trip(a: Acknowledge)
        requires
            a.canonical(),
        ensures
            spec_parse_acknowledge(spec_u16_be(spec_acknowledge_value(a))) == Ok::<
                Acknowledge,
                DecodeError,
            >(a),
    {
        crate::encoding::lemma_u16_be_round_trip(spec_acknowledge_value(a));
        assert(spec_u16_be(spec_acknowledge_value(a)).take(2) =~= spec_u16_be(
            spec_acknowledge_value(a),
        ));
    }
}

} // verus!

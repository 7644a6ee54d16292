use vstd::prelude::*;

use crate::crc::{crc16, crc16_spec};
use crate::encoding::{
    lemma_u16_be_round_trip, lemma_u16_from_to_be, lemma_u32_be_round_trip, lemma_u32_from_to_be,
    spec_u16_be, spec_u16_from_be, spec_u32_be, spec_u32_from_be, Decoder, Encoder,
};
use crate::errors::{DecodeError, DecodeReason, DecodeResult, EncodeError, EncodeResult};

verus! {

/// The three-valued role tag of a telegram. Unknown values are kept
/// rather than rejected, to stay diagnostic-friendly on garbage input.
#[derive(Debug, Clone, Copy, PartialEq, Eq, Structural)]
pub enum TelegramAttribute {
    Request,
    Response,
    Acknowledge,
    Unknown(u8),
}

/// The wire byte of a telegram attribute.
pub open spec fn spec_attribute_value(a: TelegramAttribute) -> u8 {
    match a {
        TelegramAttribute::Request => 0,
        TelegramAttribute::Response => 1,
        TelegramAttribute::Acknowledge => 2,
        TelegramAttribute::Unknown(v) => v,
    }
}

/// The telegram attribute a received wire byte stands for.
pub open spec fn spec_attribute_from(v: u8) -> TelegramAttribute {
    if v == 0 {
        TelegramAttribute::Request
    } else if v == 1 {
        TelegramAttribute::Response
    } else if v == 2 {
        TelegramAttribute::Acknowledge
    } else {
        TelegramAttribute::Unknown(v)
    }
}

impl TelegramAttribute {
    /// Whether this value is the one that decoding its wire byte gives
    /// back: `Unknown` must not shadow a named attribute.
    pub open spec fn canonical(&self) -> bool {
        spec_attribute_from(spec_attribute_value(*self)) == *self
    }

    /// The wire byte of this attribute.
    pub fn to_u8(&self) -> (r: u8)
        ensures
            r == spec_attribute_value(*self),
    {
        match *self {
            TelegramAttribute::Request => 0,
            TelegramAttribute::Response => 1,
            TelegramAttribute::Acknowledge => 2,
            TelegramAttribute::Unknown(v) => v,
        }
    }

    /// The telegram attribute a received wire byte stands for.
    pub fn from_u8(v: u8) -> (r: TelegramAttribute)
        ensures
            r == spec_attribute_from(v),
            r.canonical(),
    {
        match v {
            0 => TelegramAttribute::Request,
            1 => TelegramAttribute::Response,
            2 => TelegramAttribute::Acknowledge,
            _ => TelegramAttribute::Unknown(v),
        }
    }
}

/// One telegram: the payload of one UDP datagram.
#[derive(Debug, PartialEq)]
pub struct Message {
    pub sequence_number: u16,
    pub telegram_attribute: TelegramAttribute,
    pub body: Vec<u8>,
}

/// The mathematical value of a `Message`.
pub ghost struct MessageView {
    pub sequence_number: u16,
    pub telegram_attribute: TelegramAttribute,
    pub body: Seq<u8>,
}

impl View for Message {
    type V = MessageView;

    open spec fn view(&self) -> MessageView {
        MessageView {
            sequence_number: self.sequence_number,
            telegram_attribute: self.telegram_attribute,
            body: self.body@,
        }
    }
}

impl MessageView {
    /// Whether the total length fits the 32-bit length prefix.
    pub open spec fn encodable(&self) -> bool {
        self.body.len() + 11 <= u32::MAX
    }

    /// The bytes the CRC-16 trailer covers: the 32-bit total length,
    /// version 1, protocol type 0, the sequence number, the telegram
    /// attribute, and the body.
    pub open spec fn checked_bytes(&self) -> Seq<u8>
        recommends
            self.encodable(),
    {
        spec_u32_be((self.body.len() + 11) as u32) + seq![1u8, 0u8] + spec_u16_be(
            self.sequence_number,
        ) + seq![spec_attribute_value(self.telegram_attribute)] + self.body
    }

    /// The full wire bytes of the telegram: the checked bytes followed
    /// by their CRC-16.
    pub open spec fn spec_bytes(&self) -> Seq<u8>
        recommends
            self.encodable(),
    {
        self.checked_bytes() + spec_u16_be(crc16_spec(self.checked_bytes()))
    }
}

/// What decoding a telegram reads from a prefix of `data`: the length
/// prefix, then the frame it announces, whose CRC-16 trailer must match;
/// version and protocol type are read but not checked. On success the
/// consumed byte count (the announced total length) is returned with the
/// value.
pub open spec fn spec_parse_message(data: Seq<u8>) -> Result<(MessageView, int), DecodeError> {
    if data.len() < 4 {
        Err(DecodeError::MissingData)
    } else {
        let bl = spec_u32_from_be(data.take(4)) as int;
        if bl < 6 {
            Err(DecodeError::InvalidData(DecodeReason::InvalidByteLength))
        } else if data.len() < bl - 2 {
            Err(DecodeError::MissingData)
        } else if data.len() < bl {
            Err(DecodeError::MissingData)
        } else {
            let inner = data.subrange(4, bl - 2);
            let checksum = spec_u16_from_be(data.subrange(bl - 2, bl));
            if crc16_spec(data.take(4) + inner) != checksum {
                Err(DecodeError::InvalidData(DecodeReason::ChecksumMismatch))
            } else if bl - 6 < 5 {
                Err(DecodeError::MissingData)
            } else {
                Ok(
                    (
                        MessageView {
                            sequence_number: spec_u16_from_be(inner.subrange(2, 4)),
                            telegram_attribute: spec_attribute_from(inner[4]),
                            body: inner.skip(5),
                        },
                        bl,
                    ),
                )
            }
        }
    }
}

impl Message {
    /// Appends the framed telegram: length prefix, header, body, CRC-16.
    /// A body too long for the length prefix fails with `Overflow` and
    /// leaves the encoder unchanged.
    pub fn encode(&self, encoder: &mut Encoder) -> (r: EncodeResult)
        ensures
            match r {
                Ok(u) => self@.encodable() && final(encoder)@ == old(encoder)@ + self@.spec_bytes(),
                Err(e) => e == EncodeError::Overflow && !self@.encodable() && *final(encoder)
                    == *old(encoder),
            },
    {
        if self.body.len() > 0xFFFF_FFF4usize {
            return Err(EncodeError::Overflow);
        }
        let mut pre = Encoder::new();
        pre.write_u32((self.body.len() + 11) as u32);
        pre.write_u8(0x01);  // Version
        pre.write_u8(0x00);  // Protocol type
        pre.write_u16(self.sequence_number);
        pre.write_u8(self.telegram_attribute.to_u8());
        pre.write_bytes(self.body.as_slice());
        let bytes = pre.finish();
        proof {
            assert(bytes@ =~= self@.checked_bytes());
        }
        let crc = crc16(bytes.as_slice());
        encoder.write_bytes(bytes.as_slice());
        encoder.write_u16(crc);
        Ok(())
    }

    /// Builds the framed telegram as a byte vector.
    pub fn encode_to_bytes(&self) -> (r: Result<Vec<u8>, EncodeError>)
        ensures
            match r {
                Ok(v) => self@.encodable() && v@ == self@.spec_bytes(),
                Err(e) => e == EncodeError::Overflow && !self@.encodable(),
            },
    {
        let mut encoder = Encoder::new();
        self.encode(&mut encoder)?;
        Ok(encoder.finish())
    }

    /// Reads one framed telegram; bytes past the announced total length
    /// are left unconsumed.
    pub fn decode(decoder: &mut Decoder) -> (r: DecodeResult<Self>)
        ensures
            ({
                let rem = old(decoder).remaining_bytes();
                match r {
                    Ok(m) => spec_parse_message(rem) matches Ok(p) && p.0 == m@
                        && m.telegram_attribute.canonical() && final(decoder).remaining_bytes()
                        == rem.skip(p.1),
                    Err(e) => spec_parse_message(rem) == Err::<(MessageView, int), DecodeError>(e),
                }
            }),
    {
        let ghost rem = decoder.remaining_bytes();
        let byte_length = decoder.read_u32()?;
        if byte_length < 6 {
            return Err(DecodeError::InvalidData(DecodeReason::InvalidByteLength));
        }
        let bytes = decoder.read_bytes((byte_length - 6) as usize)?;
        proof {
            assert(rem.skip(4).take(byte_length - 6) =~= rem.subrange(
                4,
                byte_length as int - 2,
            ));
        }
        let checksum = match decoder.read_u16() {
            Ok(v) => v,
            Err(e) => {
                proof {
                    assert(rem.skip(4).skip(byte_length - 6).len() == rem.len() - (byte_length
                        - 2));
                }
                return Err(e);
            },
        };
        proof {
            assert(rem.skip(4).skip(byte_length - 6).take(2) =~= rem.subrange(
                byte_length as int - 2,
                byte_length as int,
            ));
        }
        let mut to_check = Encoder::new();
        to_check.write_u32(byte_length);
        to_check.write_bytes(bytes.as_slice());
        let check_bytes = to_check.finish();
        proof {
            lemma_u32_from_to_be(rem.take(4));
            assert(check_bytes@ =~= rem.take(4) + rem.subrange(4, byte_length as int - 2));
        }
        if crc16(check_bytes.as_slice()) != checksum {
            return Err(DecodeError::InvalidData(DecodeReason::ChecksumMismatch));
        }
        let ghost inner = rem.subrange(4, byte_length as int - 2);
        let mut post = Decoder::new(bytes.as_slice());
        let _version = post.read_u8()?;
        let _protocol_type = post.read_u8()?;
        let sequence_number = match post.read_u16() {
            Ok(v) => v,
            Err(e) => {
                return Err(e);
            },
        };
        proof {
            assert(inner.skip(1).skip(1).take(2) =~= inner.subrange(2, 4));
        }
        let attribute = match post.read_u8() {
            Ok(v) => v,
            Err(e) => {
                return Err(e);
            },
        };
        let rest = post.remaining();
        let body = match post.read_bytes(rest) {
            Ok(v) => v,
            Err(e) => {
                return Err(e);
            },
        };
        proof {
            assert(inner.skip(1).skip(1)[2] == inner[4]);
            assert(inner.skip(1).skip(1).skip(2).skip(1) =~= inner.skip(5));
            assert(body@ =~= inner.skip(5));
            assert(decoder.remaining_bytes() =~= rem.skip(byte_length as int));
        }
        Ok(
            Message {
                sequence_number,
                telegram_attribute: TelegramAttribute::from_u8(attribute),
                body,
            },
        )
    }

    /// Reads one framed telegram from the start of `buffer`; trailing
    /// bytes are ignored.
    pub fn decode_from_bytes(buffer: &[u8]) -> (r: DecodeResult<Self>)
        ensures
            match r {
                Ok(m) => spec_parse_message(buffer@) matches Ok(p) && p.0 == m@
                    && m.telegram_attribute.canonical(),
                Err(e) => spec_parse_message(buffer@) == Err::<(MessageView, int), DecodeError>(
                    e,
                ),
            },
    {
        let mut decoder = Decoder::new(buffer);
        Message::decode(&mut decoder)
    }
}

/// Decoding the encoding of any encodable telegram with a canonical
/// attribute yields the telegram back, consuming exactly its bytes, and
/// the CRC-16 check passes on it.
pub proof fn lemma_message_round_trip(m: MessageView)
    requires
        m.encodable(),
        m.telegram_attribute.canonical(),
    ensures
        spec_parse_message(m.spec_bytes()) == Ok::<(MessageView, int), DecodeError>(
            (m, m.spec_bytes().len() as int),
        ),
{
    let data = m.spec_bytes();
    let checked = m.checked_bytes();
    let bl_u32 = (m.body.len() + 11) as u32;
    assert(data.take(4) =~= spec_u32_be(bl_u32));
    lemma_u32_be_round_trip(bl_u32);
    let bl = bl_u32 as int;
    assert(checked.len() == bl - 2);
    assert(data.len() == bl);
    assert(data.subrange(4, bl - 2) =~= checked.skip(4));
    assert(data.take(4) + data.subrange(4, bl - 2) =~= checked);
    assert(data.subrange(bl - 2, bl) =~= spec_u16_be(crc16_spec(checked)));
    lemma_u16_be_round_trip(crc16_spec(checked));
    let inner = data.subrange(4, bl - 2);
    assert(inner.subrange(2, 4) =~= spec_u16_be(m.sequence_number));
    lemma_u16_be_round_trip(m.sequence_number);
    assert(inner[4] == spec_attribute_value(m.telegram_attribute));
    assert(inner.skip(5) =~= m.body);
}

} // verus!

use vstd::prelude::*;

use crate::command_id::{spec_command_id_from, spec_command_id_value, CommandId};
use crate::encoding::{Decoder, Encoder};
use crate::errors::{DecodeError, DecodeResult, EncodeResult};

verus! {

/// The body of a request telegram: the addressed station, the command
/// opcode, and the command-specific payload.
#[derive(Debug, PartialEq)]
pub struct Request {
    pub station: u8,
    pub command_id: CommandId,
    pub body: Vec<u8>,
}

/// The mathematical value of a `Request`.
pub ghost struct RequestView {
    pub station: u8,
    pub command_id: CommandId,
    pub body: Seq<u8>,
}

impl View for Request {
    type V = RequestView;

    open spec fn view(&self) -> RequestView {
        RequestView { station: self.station, command_id: self.command_id, body: self.body@ }
    }
}

impl RequestView {
    /// The wire bytes: station, opcode, payload.
    pub open spec fn spec_bytes(&self) -> Seq<u8> {
        seq![self.station, spec_command_id_value(self.command_id)] + self.body
    }
}

/// What decoding a request body reads from all of `b`.
pub open spec fn spec_parse_request(b: Seq<u8>) -> Result<RequestView, DecodeError> {
    if b.len() < 2 {
        Err(DecodeError::MissingData)
    } else {
        Ok(
            RequestView {
                station: b[0],
                command_id: spec_command_id_from(b[1]),
                body: b.skip(2),
            },
        )
    }
}

impl Request {
    /// Appends station, opcode and payload; never fails.
    pub fn encode(&self, encoder: &mut Encoder) -> (r: EncodeResult)
        ensures
            r matches Ok(u) && final(encoder)@ == old(encoder)@ + self@.spec_bytes(),
    {
        encoder.write_u8(self.station);
        encoder.write_u8(self.command_id.to_u8());
        encoder.write_bytes(self.body.as_slice());
        assert(encoder@ =~= old(encoder)@ + self@.spec_bytes());
        Ok(())
    }

    /// Builds the request body as a byte vector.
    pub fn encode_to_bytes(&self) -> (r: Vec<u8>)
        ensures
            r@ == self@.spec_bytes(),
    {
        let mut encoder = Encoder::new();
        let _ = self.encode(&mut encoder);
        encoder.finish()
    }

    /// Reads station, opcode, and the whole rest as payload.
    pub fn decode(decoder: &mut Decoder) -> (r: DecodeResult<Self>)
        ensures
            ({
                let rem = old(decoder).remaining_bytes();
                match r {
                    Ok(q) => spec_parse_request(rem) == Ok::<RequestView, DecodeError>(q@)
                        && q.command_id.canonical() && final(decoder).remaining_bytes().len()
                        == 0,
                    Err(e) => spec_parse_request(rem) == Err::<RequestView, DecodeError>(e),
                }
            }),
    {
        let station = decoder.read_u8()?;
        let opcode = decoder.read_u8()?;
        let rest = decoder.remaining();
        let body = match decoder.read_bytes(rest) {
            Ok(v) => v,
            Err(e) => {
                return Err(e);
            },
        };
        proof {
            assert(body@ =~= old(decoder).remaining_bytes().skip(2));
        }
        Ok(Request { station, command_id: CommandId::from_u8(opcode), body })
    }

    /// Reads a request body from all of `buffer`.
    pub fn decode_from_bytes(buffer: &[u8]) -> (r: DecodeResult<Self>)
        ensures
            match r {
                Ok(q) => spec_parse_request(buffer@) == Ok::<RequestView, DecodeError>(q@)
                    && q.command_id.canonical(),
                Err(e) => spec_parse_request(buffer@) == Err::<RequestView, DecodeError>(e),
            },
    {
        let mut decoder = Decoder::new(buffer);
        Request::decode(&mut decoder)
    }
}

/// Decoding the encoding of any request whose opcode is canonical yields
/// the request back.
pub proof fn lemma_request_round_trip(q: RequestView)
    requires
        spec_command_id_from(spec_command_id_value(q.command_id)) == q.command_id,
    ensures
        spec_parse_request(q.spec_bytes()) == Ok::<RequestView, DecodeError>(q),
{
    assert(q.spec_bytes().skip(2) =~= q.body);
}

} // verus!

use vstd::prelude::*;

use crate::encoding::{Decoder, Encoder};
use crate::errors::{DecodeResult, EncodeResult};

verus! {

/// The body of a response telegram: an opaque payload whose layout the
/// command that was issued determines.
#[derive(Debug, PartialEq)]
pub struct Response {
    pub body: Vec<u8>,
}

impl Response {
    /// Appends the payload unchanged; never fails.
    pub fn encode(&self, encoder: &mut Encoder) -> (r: EncodeResult)
        ensures
            r matches Ok(u) && final(encoder)@ == old(encoder)@ + self.body@,
    {
        encoder.write_bytes(self.body.as_slice());
        Ok(())
    }

    /// Reads the whole rest of the input as the payload; never fails.
    pub fn decode(decoder: &mut Decoder) -> (r: DecodeResult<Self>)
        ensures
            r matches Ok(p) && p.body@ == old(decoder).remaining_bytes() && final(decoder).remaining_bytes().len() == 0,
    {
        let rest = decoder.remaining();
        let body = match decoder.read_bytes(rest) {
            Ok(v) => v,
            Err(e) => {
                proof {
                    assert(false);
                }
                Vec::new()
            },
        };
        proof {
            assert(body@ =~= old(decoder).remaining_bytes());
        }
        Ok(Response { body })
    }
}

} // verus!

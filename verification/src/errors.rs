use vstd::prelude::*;

verus! {

/// Failure of an encoder: a value does not fit the width that the wire
/// format gives it.
#[derive(Debug, Clone, Copy, PartialEq, Eq, Structural)]
pub enum EncodeError {
    Overflow,
}

/// The semantic violation behind a `DecodeError::InvalidData`.
#[derive(Debug, Clone, Copy, PartialEq, Eq, Structural)]
pub enum DecodeReason {
    /// The length prefix of a frame is smaller than the fixed overhead.
    InvalidByteLength,
    /// The CRC-16 trailer does not match the frame contents.
    ChecksumMismatch,
    /// A body length field is inconsistent (zero-adjusted or not a
    /// multiple of the element width).
    InvalidLength,
    /// A real-time-clock byte is not binary-coded decimal.
    InvalidTimeData,
}

/// Failure of a decoder.
#[derive(Debug, Clone, Copy, PartialEq, Eq, Structural)]
pub enum DecodeError {
    /// The input ended before the value was complete.
    MissingData,
    /// The input is long enough but violates the format.
    InvalidData(DecodeReason),
}

pub type EncodeResult = Result<(), EncodeError>;

pub type DecodeResult<T> = Result<T, DecodeError>;

/// Errors surfaced by the client operations.
#[derive(Debug, Clone, PartialEq)]
pub enum SBusError {
    /// An I/O error, described in text. Raised only by the surrounding
    /// transport; the codec itself never produces it.
    IO(String),
    /// Some arguments provided to the operation are out of range.
    /// Commonly the combination of address + length is outside the allowed
    /// range. The request was never sent to the server.
    ArgumentsOutOfRange(String),
    /// The response received from the server is not a valid response.
    InvalidResponse(String),
}

/// The text that a decode failure surfaces as an `InvalidResponse`.
pub open spec fn decode_error_text(e: DecodeError) -> Seq<char> {
    match e {
        DecodeError::MissingData => "The server sent invalid data"@,
        DecodeError::InvalidData(DecodeReason::InvalidByteLength) => "Invalid byte length"@,
        DecodeError::InvalidData(DecodeReason::ChecksumMismatch) => "Checksum mismatch"@,
        DecodeError::InvalidData(DecodeReason::InvalidLength) => "Invalid length"@,
        DecodeError::InvalidData(DecodeReason::InvalidTimeData) => "Invalid time data"@,
    }
}

/// Maps a decode failure to the error a client operation returns:
/// missing data and semantic violations both surface as `InvalidResponse`.
pub fn sbus_error_of_decode(e: DecodeError) -> (r: SBusError)
    ensures
        r matches SBusError::InvalidResponse(s) && s@ == decode_error_text(e),
{
    match e {
        DecodeError::MissingData => {
            SBusError::InvalidResponse(String::from_str("The server sent invalid data"))
        },
        DecodeError::InvalidData(DecodeReason::InvalidByteLength) => {
            SBusError::InvalidResponse(String::from_str("Invalid byte length"))
        },
        DecodeError::InvalidData(DecodeReason::ChecksumMismatch) => {
            SBusError::InvalidResponse(String::from_str("Checksum mismatch"))
        },
        DecodeError::InvalidData(DecodeReason::InvalidLength) => {
            SBusError::InvalidResponse(String::from_str("Invalid length"))
        },
        DecodeError::InvalidData(DecodeReason::InvalidTimeData) => {
            SBusError::InvalidResponse(String::from_str("Invalid time data"))
        },
    }
}

/// Maps an encode failure to the error a client operation returns: the
/// only encode failure is an overflow of a width-limited field, caused by
/// the caller's arguments.
pub fn sbus_error_of_encode(e: EncodeError) -> (r: SBusError)
    ensures
        r matches SBusError::ArgumentsOutOfRange(s) && s@ == "Error encoding message"@,
{
    match e {
        EncodeError::Overflow => {
            SBusError::ArgumentsOutOfRange(String::from_str("Error encoding message"))
        },
    }
}

} // verus!

use vstd::prelude::*;

use crate::acknowledge::{spec_parse_acknowledge, Acknowledge};
use crate::command_id::CommandId;
use crate::commands::{
    spec_parse_display_register, spec_parse_firmware_version, spec_parse_i32s,
    spec_read_request_bytes, spec_write_bits_bytes, spec_write_words_bytes, ReadCountersRequest, ReadCountersResponse, ReadDisplayRegisterResponse,
    ReadFirmwareVersionResponse, ReadFlagsRequest, ReadFlagsResponse, ReadInputsRequest,
    ReadInputsResponse, ReadOutputsRequest, ReadOutputsResponse, ReadRealTimeClockResponse,
    ReadRegistersRequest, ReadRegistersResponse, ReadSBusStationNumberResponse,
    ReadTimersRequest, ReadTimersResponse, WriteCountersRequest, WriteFlagsRequest,
    WriteOutputsRequest, WriteRealTimeClockRequest, WriteRegistersRequest, WriteTimersRequest,
};
use crate::consts::{
    BROADCAST_STATION, COUNTERS_MAX_REQUEST_LEN, FLAGS_MAX_REQUEST_LEN, INPUTS_MAX_REQUEST_LEN,
    OUTPUTS_MAX_REQUEST_LEN, REGISTERS_MAX_REQUEST_LEN, TIMERS_MAX_REQUEST_LEN,
};
use crate::encoding::Decoder;
use crate::errors::{
    decode_error_text, sbus_error_of_decode, sbus_error_of_encode, DecodeError, SBusError,
};
use crate::message::{spec_parse_message, Message, MessageView, TelegramAttribute};
use crate::real_time_clock::{spec_parse_rtc, RealTimeClock};
use crate::request::{Request, RequestView};

verus! {

// ---------------------------------------------------------------------------
// Argument validation
// ---------------------------------------------------------------------------

/// Whether a request for `length` elements starting at `address` fits
/// the per-kind cap and the 16-bit address space.
pub open spec fn spec_args_in_range(address: u16, length: int, max_length: u16) -> bool {
    1 <= length <= max_length && address + length - 1 <= u16::MAX
}

/// Checks element count and address range. A violation is reported as
/// `ArgumentsOutOfRange` before anything touches the network.
pub fn validate_input(address: u16, length: usize, max_length: u16) -> (r: Result<
    (),
    SBusError,
>)
    ensures
        match r {
            Ok(u) => spec_args_in_range(address, length as int, max_length),
            Err(e) => !spec_args_in_range(address, length as int, max_length) && (e matches
                SBusError::ArgumentsOutOfRange(s) && (s@
                == "Length exceeds maximum allowed length"@ || s@
                == "Address + length exceeds device address space"@)),
        },
{
    if length == 0 || length > max_length as usize {
        return Err(
            SBusError::ArgumentsOutOfRange(
                String::from_str("Length exceeds maximum allowed length"),
            ),
        );
    }
    if (address as usize) + (length - 1) > 0xFFFFusize {
        return Err(
            SBusError::ArgumentsOutOfRange(
                String::from_str("Address + length exceeds device address space"),
            ),
        );
    }
    Ok(())
}

// ---------------------------------------------------------------------------
// Building request datagrams
// ---------------------------------------------------------------------------

/// The full wire datagram of a request telegram: the command body is
/// wrapped in a request envelope, which becomes the payload of a framed
/// message with attribute `Request`.
pub open spec fn spec_request_datagram(
    sequence_number: u16,
    station: u8,
    command_id: CommandId,
    body: Seq<u8>,
) -> Seq<u8> {
    (MessageView {
        sequence_number,
        telegram_attribute: TelegramAttribute::Request,
        body: (RequestView { station, command_id, body }).spec_bytes(),
    }).spec_bytes()
}

/// Wraps a command body in the request envelope and the message frame.
fn build_request_datagram(
    sequence_number: u16,
    station: u8,
    command_id: CommandId,
    body: Vec<u8>,
) -> (r: Vec<u8>)
    requires
        body@.len() + 13 <= u32::MAX,
    ensures
        r@ == spec_request_datagram(sequence_number, station, command_id, body@),
{
    let req = Request { station, command_id, body };
    let req_bytes = req.encode_to_bytes();
    let msg = Message {
        sequence_number,
        telegram_attribute: TelegramAttribute::Request,
        body: req_bytes,
    };
    match msg.encode_to_bytes() {
        Ok(b) => b,
        Err(e) => {
            proof {
                assert(false);
            }
            Vec::new()
        },
    }
}

// ---------------------------------------------------------------------------
// Interpreting replies
// ---------------------------------------------------------------------------

/// Checks that a reply telegram has the attribute the operation
/// expects (`Response` for reads, `Acknowledge` for writes).
pub fn expect_attribute(msg: &Message, expected: TelegramAttribute) -> (r: Result<
    (),
    SBusError,
>)
    ensures
        match r {
            Ok(u) => msg.telegram_attribute == expected,
            Err(e) => msg.telegram_attribute != expected && (e matches
                SBusError::InvalidResponse(s) && s@ == "Telegram attribute mismatch"@),
        },
{
    if msg.telegram_attribute == expected {
        Ok(())
    } else {
        Err(SBusError::InvalidResponse(String::from_str("Telegram attribute mismatch")))
    }
}

/// Builds the datagram asking station `station` for `length` counters
/// starting at `address`; arguments out of range fail locally, with
/// nothing to send.
pub fn read_counters_request(sequence_number: u16, station: u8, address: u16, length: u8) -> (r:
    Result<Vec<u8>, SBusError>)
    ensures
        match r {
            Ok(bytes) => spec_args_in_range(address, length as int, COUNTERS_MAX_REQUEST_LEN) && bytes@
                == spec_request_datagram(
                sequence_number,
                station,
                CommandId::ReadCounters,
                spec_read_request_bytes(length, address),
            ),
            Err(e) => !spec_args_in_range(address, length as int, COUNTERS_MAX_REQUEST_LEN) && e matches
                SBusError::ArgumentsOutOfRange(_),
        },
{
    validate_input(address, length as usize, COUNTERS_MAX_REQUEST_LEN)?;
    let body = match (ReadCountersRequest { address, length }).encode_to_bytes() {
        Ok(b) => b,
        Err(e) => {
            proof {
                assert(false);
            }
            Vec::new()
        },
    };
    Ok(build_request_datagram(sequence_number, station, CommandId::ReadCounters, body))
}

/// Builds the datagram asking station `station` for `length` flags
/// starting at `address`; arguments out of range fail locally, with
/// nothing to send.
pub fn read_flags_request(sequence_number: u16, station: u8, address: u16, length: u8) -> (r:
    Result<Vec<u8>, SBusError>)
    ensures
        match r {
            Ok(bytes) => spec_args_in_range(address, length as int, FLAGS_MAX_REQUEST_LEN) && bytes@
                == spec_request_datagram(
                sequence_number,
                station,
                CommandId::ReadFlags,
                spec_read_request_bytes(length, address),
            ),
            Err(e) => !spec_args_in_range(address, length as int, FLAGS_MAX_REQUEST_LEN) && e matches
                SBusError::ArgumentsOutOfRange(_),
        },
{
    validate_input(address, length as usize, FLAGS_MAX_REQUEST_LEN)?;
    let body = match (ReadFlagsRequest { address, length }).encode_to_bytes() {
        Ok(b) => b,
        Err(e) => {
            proof {
                assert(false);
            }
            Vec::new()
        },
    };
    Ok(build_request_datagram(sequence_number, station, CommandId::ReadFlags, body))
}

/// Builds the datagram asking station `station` for `length` inputs
/// starting at `address`; arguments out of range fail locally, with
/// nothing to send.
pub fn read_inputs_request(sequence_number: u16, station: u8, address: u16, length: u8) -> (r:
    Result<Vec<u8>, SBusError>)
    ensures
        match r {
            Ok(bytes) => spec_args_in_range(address, length as int, INPUTS_MAX_REQUEST_LEN) && bytes@
                == spec_request_datagram(
                sequence_number,
                station,
                CommandId::ReadInputs,
                spec_read_request_bytes(length, address),
            ),
            Err(e) => !spec_args_in_range(address, length as int, INPUTS_MAX_REQUEST_LEN) && e matches
                SBusError::ArgumentsOutOfRange(_),
        },
{
    validate_input(address, length as usize, INPUTS_MAX_REQUEST_LEN)?;
    let body = match (ReadInputsRequest { address, length }).encode_to_bytes() {
        Ok(b) => b,
        Err(e) => {
            proof {
                assert(false);
            }
            Vec::new()
        },
    };
    Ok(build_request_datagram(sequence_number, station, CommandId::ReadInputs, body))
}

/// Builds the datagram asking station `station` for `length` outputs
/// starting at `address`; arguments out of range fail locally, with
/// nothing to send.
pub fn read_outputs_request(sequence_number: u16, station: u8, address: u16, length: u8) -> (r:
    Result<Vec<u8>, SBusError>)
    ensures
        match r {
            Ok(bytes) => spec_args_in_range(address, length as int, OUTPUTS_MAX_REQUEST_LEN) && bytes@
                == spec_request_datagram(
                sequence_number,
                station,
                CommandId::ReadOutputs,
                spec_read_request_bytes(length, address),
            ),
            Err(e) => !spec_args_in_range(address, length as int, OUTPUTS_MAX_REQUEST_LEN) && e matches
                SBusError::ArgumentsOutOfRange(_),
        },
{
    validate_input(address, length as usize, OUTPUTS_MAX_REQUEST_LEN)?;
    let body = match (ReadOutputsRequest { address, length }).encode_to_bytes() {
        Ok(b) => b,
        Err(e) => {
            proof {
                assert(false);
            }
            Vec::new()
        },
    };
    Ok(build_request_datagram(sequence_number, station, CommandId::ReadOutputs, body))
}

/// Builds the datagram asking station `station` for `length` registers
/// starting at `address`; arguments out of range fail locally, with
/// nothing to send.
pub fn read_registers_request(sequence_number: u16, station: u8, address: u16, length: u8) -> (r:
    Result<Vec<u8>, SBusError>)
    ensures
        match r {
            Ok(bytes) => spec_args_in_range(address, length as int, REGISTERS_MAX_REQUEST_LEN) && bytes@
                == spec_request_datagram(
                sequence_number,
                station,
                CommandId::ReadRegisters,
                spec_read_request_bytes(length, address),
            ),
            Err(e) => !spec_args_in_range(address, length as int, REGISTERS_MAX_REQUEST_LEN) && e matches
                SBusError::ArgumentsOutOfRange(_),
        },
{
    validate_input(address, length as usize, REGISTERS_MAX_REQUEST_LEN)?;
    let body = match (ReadRegistersRequest { address, length }).encode_to_bytes() {
        Ok(b) => b,
        Err(e) => {
            proof {
                assert(false);
            }
            Vec::new()
        },
    };
    Ok(build_request_datagram(sequence_number, station, CommandId::ReadRegisters, body))
}

/// Builds the datagram asking station `station` for `length` timers
/// starting at `address`; arguments out of range fail locally, with
/// nothing to send.
pub fn read_timers_request(sequence_number: u16, station: u8, address: u16, length: u8) -> (r:
    Result<Vec<u8>, SBusError>)
    ensures
        match r {
            Ok(bytes) => spec_args_in_range(address, length as int, TIMERS_MAX_REQUEST_LEN) && bytes@
                == spec_request_datagram(
                sequence_number,
                station,
                CommandId::ReadTimers,
                spec_read_request_bytes(length, address),
            ),
            Err(e) => !spec_args_in_range(address, length as int, TIMERS_MAX_REQUEST_LEN) && e matches
                SBusError::ArgumentsOutOfRange(_),
        },
{
    validate_input(address, length as usize, TIMERS_MAX_REQUEST_LEN)?;
    let body = match (ReadTimersRequest { address, length }).encode_to_bytes() {
        Ok(b) => b,
        Err(e) => {
            proof {
                assert(false);
            }
            Vec::new()
        },
    };
    Ok(build_request_datagram(sequence_number, station, CommandId::ReadTimers, body))
}

/// Interprets the reply to a read-counters request: a `Response` telegram
/// whose body is the big-endian 32-bit values.
pub fn read_counters_reply(msg: &Message) -> (r: Result<Vec<i32>, SBusError>)
    ensures
        match r {
            Ok(values) => msg.telegram_attribute == TelegramAttribute::Response
                && spec_parse_i32s(msg.body@) == Ok::<Seq<i32>, DecodeError>(values@),
            Err(e) => e matches SBusError::InvalidResponse(s) && (if msg.telegram_attribute
                != TelegramAttribute::Response {
                s@ == "Telegram attribute mismatch"@
            } else {
                spec_parse_i32s(msg.body@) matches Err(de) && s@ == decode_error_text(de)
            }),
        },
{
    expect_attribute(msg, TelegramAttribute::Response)?;
    match ReadCountersResponse::decode_from_bytes(msg.body.as_slice()) {
        Ok(res) => Ok(res.values),
        Err(e) => Err(sbus_error_of_decode(e)),
    }
}

/// Interprets the reply to a read-registers request: a `Response` telegram
/// whose body is the big-endian 32-bit values.
pub fn read_registers_reply(msg: &Message) -> (r: Result<Vec<i32>, SBusError>)
    ensures
        match r {
            Ok(values) => msg.telegram_attribute == TelegramAttribute::Response
                && spec_parse_i32s(msg.body@) == Ok::<Seq<i32>, DecodeError>(values@),
            Err(e) => e matches SBusError::InvalidResponse(s) && (if msg.telegram_attribute
                != TelegramAttribute::Response {
                s@ == "Telegram attribute mismatch"@
            } else {
                spec_parse_i32s(msg.body@) matches Err(de) && s@ == decode_error_text(de)
            }),
        },
{
    expect_attribute(msg, TelegramAttribute::Response)?;
    match ReadRegistersResponse::decode_from_bytes(msg.body.as_slice()) {
        Ok(res) => Ok(res.values),
        Err(e) => Err(sbus_error_of_decode(e)),
    }
}

/// Interprets the reply to a read-timers request: a `Response` telegram
/// whose body is the big-endian 32-bit values.
pub fn read_timers_reply(msg: &Message) -> (r: Result<Vec<i32>, SBusError>)
    ensures
        match r {
            Ok(values) => msg.telegram_attribute == TelegramAttribute::Response
                && spec_parse_i32s(msg.body@) == Ok::<Seq<i32>, DecodeError>(values@),
            Err(e) => e matches SBusError::InvalidResponse(s) && (if msg.telegram_attribute
                != TelegramAttribute::Response {
                s@ == "Telegram attribute mismatch"@
            } else {
                spec_parse_i32s(msg.body@) matches Err(de) && s@ == decode_error_text(de)
            }),
        },
{
    expect_attribute(msg, TelegramAttribute::Response)?;
    match ReadTimersResponse::decode_from_bytes(msg.body.as_slice()) {
        Ok(res) => Ok(res.values),
        Err(e) => Err(sbus_error_of_decode(e)),
    }
}

/// Interprets the reply to a read-flags request: a `Response` telegram
/// whose body is the packed booleans, unpacked with their padding.
pub fn read_flags_reply(msg: &Message) -> (r: Result<Vec<bool>, SBusError>)
    requires
        msg.body@.len() <= usize::MAX / 8,
    ensures
        match r {
            Ok(values) => msg.telegram_attribute == TelegramAttribute::Response && values@
                == crate::encoding::spec_parse_bools(
                msg.body@,
                (8 * msg.body@.len()) as nat,
            ),
            Err(e) => msg.telegram_attribute != TelegramAttribute::Response && (e matches
                SBusError::InvalidResponse(s) && s@ == "Telegram attribute mismatch"@),
        },
{
    expect_attribute(msg, TelegramAttribute::Response)?;
    match ReadFlagsResponse::decode_from_bytes(msg.body.as_slice()) {
        Ok(res) => Ok(res.values),
        Err(e) => {
            proof {
                assert(false);
            }
            Err(sbus_error_of_decode(e))
        },
    }
}

/// Interprets the reply to a read-inputs request: a `Response` telegram
/// whose body is the packed booleans, unpacked with their padding.
pub fn read_inputs_reply(msg: &Message) -> (r: Result<Vec<bool>, SBusError>)
    requires
        msg.body@.len() <= usize::MAX / 8,
    ensures
        match r {
            Ok(values) => msg.telegram_attribute == TelegramAttribute::Response && values@
                == crate::encoding::spec_parse_bools(
                msg.body@,
                (8 * msg.body@.len()) as nat,
            ),
            Err(e) => msg.telegram_attribute != TelegramAttribute::Response && (e matches
                SBusError::InvalidResponse(s) && s@ == "Telegram attribute mismatch"@),
        },
{
    expect_attribute(msg, TelegramAttribute::Response)?;
    match ReadInputsResponse::decode_from_bytes(msg.body.as_slice()) {
        Ok(res) => Ok(res.values),
        Err(e) => {
            proof {
                assert(false);
            }
            Err(sbus_error_of_decode(e))
        },
    }
}

/// Interprets the reply to a read-outputs request: a `Response` telegram
/// whose body is the packed booleans, unpacked with their padding.
pub fn read_outputs_reply(msg: &Message) -> (r: Result<Vec<bool>, SBusError>)
    requires
        msg.body@.len() <= usize::MAX / 8,
    ensures
        match r {
            Ok(values) => msg.telegram_attribute == TelegramAttribute::Response && values@
                == crate::encoding::spec_parse_bools(
                msg.body@,
                (8 * msg.body@.len()) as nat,
            ),
            Err(e) => msg.telegram_attribute != TelegramAttribute::Response && (e matches
                SBusError::InvalidResponse(s) && s@ == "Telegram attribute mismatch"@),
        },
{
    expect_attribute(msg, TelegramAttribute::Response)?;
    match ReadOutputsResponse::decode_from_bytes(msg.body.as_slice()) {
        Ok(res) => Ok(res.values),
        Err(e) => {
            proof {
                assert(false);
            }
            Err(sbus_error_of_decode(e))
        },
    }
}

/// Builds the datagram writing the given words to counters of station
/// `station` starting at `address`; arguments out of range fail
/// locally, with nothing to send.
pub fn write_counters_request(sequence_number: u16, station: u8, address: u16, values: &[i32]) -> (r:
    Result<Vec<u8>, SBusError>)
    ensures
        match r {
            Ok(bytes) => spec_args_in_range(address, values@.len() as int, COUNTERS_MAX_REQUEST_LEN) && bytes@
                == spec_request_datagram(
                sequence_number,
                station,
                CommandId::WriteCounters,
                spec_write_words_bytes(address, values@),
            ),
            Err(e) => !spec_args_in_range(address, values@.len() as int, COUNTERS_MAX_REQUEST_LEN) && e matches
                SBusError::ArgumentsOutOfRange(_),
        },
{
    validate_input(address, values.len(), COUNTERS_MAX_REQUEST_LEN)?;
    let body = match (WriteCountersRequest {
        address,
        values: vstd::slice::slice_to_vec(values),
    }).encode_to_bytes() {
        Ok(b) => b,
        Err(e) => {
            proof {
                assert(false);
            }
            Vec::new()
        },
    };
    proof {
        crate::commands::lemma_i32s_bytes_len(values@);
    }
    Ok(build_request_datagram(sequence_number, station, CommandId::WriteCounters, body))
}

/// Builds the datagram writing the given words to registers of station
/// `station` starting at `address`; arguments out of range fail
/// locally, with nothing to send.
pub fn write_registers_request(sequence_number: u16, station: u8, address: u16, values: &[i32]) -> (r:
    Result<Vec<u8>, SBusError>)
    ensures
        match r {
            Ok(bytes) => spec_args_in_range(address, values@.len() as int, REGISTERS_MAX_REQUEST_LEN) && bytes@
                == spec_request_datagram(
                sequence_number,
                station,
                CommandId::WriteRegisters,
                spec_write_words_bytes(address, values@),
            ),
            Err(e) => !spec_args_in_range(address, values@.len() as int, REGISTERS_MAX_REQUEST_LEN) && e matches
                SBusError::ArgumentsOutOfRange(_),
        },
{
    validate_input(address, values.len(), REGISTERS_MAX_REQUEST_LEN)?;
    let body = match (WriteRegistersRequest {
        address,
        values: vstd::slice::slice_to_vec(values),
    }).encode_to_bytes() {
        Ok(b) => b,
        Err(e) => {
            proof {
                assert(false);
            }
            Vec::new()
        },
    };
    proof {
        crate::commands::lemma_i32s_bytes_len(values@);
    }
    Ok(build_request_datagram(sequence_number, station, CommandId::WriteRegisters, body))
}

/// Builds the datagram writing the given words to timers of station
/// `station` starting at `address`; arguments out of range fail
/// locally, with nothing to send.
pub fn write_timers_request(sequence_number: u16, station: u8, address: u16, values: &[i32]) -> (r:
    Result<Vec<u8>, SBusError>)
    ensures
        match r {
            Ok(bytes) => spec_args_in_range(address, values@.len() as int, TIMERS_MAX_REQUEST_LEN) && bytes@
                == spec_request_datagram(
                sequence_number,
                station,
                CommandId::WriteTimers,
                spec_write_words_bytes(address, values@),
            ),
            Err(e) => !spec_args_in_range(address, values@.len() as int, TIMERS_MAX_REQUEST_LEN) && e matches
                SBusError::ArgumentsOutOfRange(_),
        },
{
    validate_input(address, values.len(), TIMERS_MAX_REQUEST_LEN)?;
    let body = match (WriteTimersRequest {
        address,
        values: vstd::slice::slice_to_vec(values),
    }).encode_to_bytes() {
        Ok(b) => b,
        Err(e) => {
            proof {
                assert(false);
            }
            Vec::new()
        },
    };
    proof {
        crate::commands::lemma_i32s_bytes_len(values@);
    }
    Ok(build_request_datagram(sequence_number, station, CommandId::WriteTimers, body))
}

/// Builds the datagram writing the given booleans to flags of station
/// `station` starting at `address`; arguments out of range fail
/// locally, with nothing to send.
pub fn write_flags_request(sequence_number: u16, station: u8, address: u16, values: &[bool]) -> (r:
    Result<Vec<u8>, SBusError>)
    ensures
        match r {
            Ok(bytes) => spec_args_in_range(address, values@.len() as int, FLAGS_MAX_REQUEST_LEN) && bytes@
                == spec_request_datagram(
                sequence_number,
                station,
                CommandId::WriteFlags,
                spec_write_bits_bytes(address, values@),
            ),
            Err(e) => !spec_args_in_range(address, values@.len() as int, FLAGS_MAX_REQUEST_LEN) && e matches
                SBusError::ArgumentsOutOfRange(_),
        },
{
    validate_input(address, values.len(), FLAGS_MAX_REQUEST_LEN)?;
    let body = match (WriteFlagsRequest {
        address,
        values: vstd::slice::slice_to_vec(values),
    }).encode_to_bytes() {
        Ok(b) => b,
        Err(e) => {
            proof {
                assert(false);
            }
            Vec::new()
        },
    };
    Ok(build_request_datagram(sequence_number, station, CommandId::WriteFlags, body))
}

/// Builds the datagram writing the given booleans to outputs of station
/// `station` starting at `address`; arguments out of range fail
/// locally, with nothing to send.
pub fn write_outputs_request(sequence_number: u16, station: u8, address: u16, values: &[bool]) -> (r:
    Result<Vec<u8>, SBusError>)
    ensures
        match r {
            Ok(bytes) => spec_args_in_range(address, values@.len() as int, OUTPUTS_MAX_REQUEST_LEN) && bytes@
                == spec_request_datagram(
                sequence_number,
                station,
                CommandId::WriteOutputs,
                spec_write_bits_bytes(address, values@),
            ),
            Err(e) => !spec_args_in_range(address, values@.len() as int, OUTPUTS_MAX_REQUEST_LEN) && e matches
                SBusError::ArgumentsOutOfRange(_),
        },
{
    validate_input(address, values.len(), OUTPUTS_MAX_REQUEST_LEN)?;
    let body = match (WriteOutputsRequest {
        address,
        values: vstd::slice::slice_to_vec(values),
    }).encode_to_bytes() {
        Ok(b) => b,
        Err(e) => {
            proof {
                assert(false);
            }
            Vec::new()
        },
    };
    Ok(build_request_datagram(sequence_number, station, CommandId::WriteOutputs, body))
}

/// Builds the datagram asking station `station` for its real-time
/// clock; never fails.
pub fn read_real_time_clock_request(sequence_number: u16, station: u8) -> (r: Vec<u8>)
    ensures
        r@ == spec_request_datagram(
            sequence_number,
            station,
            CommandId::ReadRealTimeClock,
            Seq::empty(),
        ),
{
    build_request_datagram(sequence_number, station, CommandId::ReadRealTimeClock, Vec::new())
}

/// Interprets the reply to a read-real-time-clock request.
pub fn read_real_time_clock_reply(msg: &Message) -> (r: Result<RealTimeClock, SBusError>)
    ensures
        match r {
            Ok(rtc) => msg.telegram_attribute == TelegramAttribute::Response && spec_parse_rtc(
                msg.body@,
            ) == Ok::<RealTimeClock, DecodeError>(rtc),
            Err(e) => e matches SBusError::InvalidResponse(s) && (if msg.telegram_attribute
                != TelegramAttribute::Response {
                s@ == "Telegram attribute mismatch"@
            } else {
                spec_parse_rtc(msg.body@) matches Err(de) && s@ == decode_error_text(de)
            }),
        },
{
    expect_attribute(msg, TelegramAttribute::Response)?;
    match ReadRealTimeClockResponse::decode_from_bytes(msg.body.as_slice()) {
        Ok(res) => Ok(res.rtc),
        Err(e) => Err(sbus_error_of_decode(e)),
    }
}

/// Builds the datagram asking station `station` for its display
/// register; never fails.
pub fn read_display_register_request(sequence_number: u16, station: u8) -> (r: Vec<u8>)
    ensures
        r@ == spec_request_datagram(
            sequence_number,
            station,
            CommandId::ReadDisplayRegister,
            Seq::empty(),
        ),
{
    build_request_datagram(sequence_number, station, CommandId::ReadDisplayRegister, Vec::new())
}

/// Interprets the reply to a read-display-register request.
pub fn read_display_register_reply(msg: &Message) -> (r: Result<u32, SBusError>)
    ensures
        match r {
            Ok(register) => msg.telegram_attribute == TelegramAttribute::Response
                && spec_parse_display_register(msg.body@) == Ok::<
                u32,
                DecodeError,
            >(register),
            Err(e) => e matches SBusError::InvalidResponse(s) && (if msg.telegram_attribute
                != TelegramAttribute::Response {
                s@ == "Telegram attribute mismatch"@
            } else {
                spec_parse_display_register(msg.body@) matches Err(de)
                    && s@ == decode_error_text(de)
            }),
        },
{
    expect_attribute(msg, TelegramAttribute::Response)?;
    match ReadDisplayRegisterResponse::decode_from_bytes(msg.body.as_slice()) {
        Ok(res) => Ok(res.register),
        Err(e) => Err(sbus_error_of_decode(e)),
    }
}

/// Builds the datagram asking station `station` for its firmware
/// version; never fails.
pub fn read_firmware_version_request(sequence_number: u16, station: u8) -> (r: Vec<u8>)
    ensures
        r@ == spec_request_datagram(
            sequence_number,
            station,
            CommandId::ReadFirmwareVersion,
            Seq::empty(),
        ),
{
    build_request_datagram(sequence_number, station, CommandId::ReadFirmwareVersion, Vec::new())
}

/// Interprets the reply to a read-firmware-version request.
pub fn read_firmware_version_reply(msg: &Message) -> (r: Result<String, SBusError>)
    ensures
        match r {
            Ok(version) => msg.telegram_attribute == TelegramAttribute::Response
                && spec_parse_firmware_version(msg.body@) == Ok::<
                Seq<char>,
                DecodeError,
            >(version@),
            Err(e) => e matches SBusError::InvalidResponse(s) && (if msg.telegram_attribute
                != TelegramAttribute::Response {
                s@ == "Telegram attribute mismatch"@
            } else {
                spec_parse_firmware_version(msg.body@) matches Err(de)
                    && s@ == decode_error_text(de)
            }),
        },
{
    expect_attribute(msg, TelegramAttribute::Response)?;
    match ReadFirmwareVersionResponse::decode_from_bytes(msg.body.as_slice()) {
        Ok(res) => Ok(res.version),
        Err(e) => Err(sbus_error_of_decode(e)),
    }
}

/// Builds the datagram querying the station number; it goes to the
/// broadcast station, never fails.
pub fn read_sbus_station_number_request(sequence_number: u16) -> (r: Vec<u8>)
    ensures
        r@ == spec_request_datagram(
            sequence_number,
            BROADCAST_STATION,
            CommandId::ReadSBusStationNumber,
            Seq::empty(),
        ),
{
    build_request_datagram(
        sequence_number,
        BROADCAST_STATION,
        CommandId::ReadSBusStationNumber,
        Vec::new(),
    )
}

/// Interprets the reply to a station-number query.
pub fn read_sbus_station_number_reply(msg: &Message) -> (r: Result<u8, SBusError>)
    ensures
        match r {
            Ok(station) => msg.telegram_attribute == TelegramAttribute::Response && msg.body@.len()
                >= 1 && station == msg.body@[0],
            Err(e) => e matches SBusError::InvalidResponse(s) && (if msg.telegram_attribute
                != TelegramAttribute::Response {
                s@ == "Telegram attribute mismatch"@
            } else {
                msg.body@.len() == 0 && s@ == decode_error_text(DecodeError::MissingData)
            }),
        },
{
    expect_attribute(msg, TelegramAttribute::Response)?;
    match ReadSBusStationNumberResponse::decode_from_bytes(msg.body.as_slice()) {
        Ok(res) => Ok(res.station),
        Err(e) => Err(sbus_error_of_decode(e)),
    }
}

/// Builds the datagram setting the clock of station `station`; a clock
/// field above 99 fails locally, with nothing to send.
pub fn write_real_time_clock_request(sequence_number: u16, station: u8, rtc: &RealTimeClock)
    -> (r: Result<Vec<u8>, SBusError>)
    ensures
        match r {
            Ok(bytes) => rtc.valid() && bytes@ == spec_request_datagram(
                sequence_number,
                station,
                CommandId::WriteRealTimeClock,
                rtc.spec_bytes(),
            ),
            Err(e) => !rtc.valid() && (e matches SBusError::ArgumentsOutOfRange(s) && s@
                == "Error encoding message"@),
        },
{
    let body = match (WriteRealTimeClockRequest { rtc: *rtc }).encode_to_bytes() {
        Ok(b) => b,
        Err(e) => {
            return Err(sbus_error_of_encode(e));
        },
    };
    Ok(build_request_datagram(sequence_number, station, CommandId::WriteRealTimeClock, body))
}

/// Interprets the reply to any write request: an `Acknowledge`
/// telegram whose 16-bit code is `Ack` exactly when the write
/// succeeded. A NAK is not an error; it returns `false`.
pub fn acknowledge_reply(msg: &Message) -> (r: Result<bool, SBusError>)
    ensures
        match r {
            Ok(b) => msg.telegram_attribute == TelegramAttribute::Acknowledge && (
            spec_parse_acknowledge(msg.body@) matches Ok(a) && b == (a == Acknowledge::Ack)),
            Err(e) => e matches SBusError::InvalidResponse(s) && (if msg.telegram_attribute
                != TelegramAttribute::Acknowledge {
                s@ == "Telegram attribute mismatch"@
            } else {
                spec_parse_acknowledge(msg.body@) matches Err(de) && s@ == decode_error_text(de)
            }),
        },
{
    expect_attribute(msg, TelegramAttribute::Acknowledge)?;
    let mut decoder = Decoder::new(msg.body.as_slice());
    match Acknowledge::decode(&mut decoder) {
        Ok(a) => Ok(matches!(a, Acknowledge::Ack)),
        Err(e) => Err(sbus_error_of_decode(e)),
    }
}

} // verus!

mod acknowledge;
mod client;
mod command_id;
mod commands;
mod consts;
mod crc;
mod device_float;
mod encoding;
mod errors;
mod message;
mod multiplexer;
mod real_time_clock;
mod request;
mod response;

pub use acknowledge::{spec_acknowledge_from, spec_acknowledge_value, spec_parse_acknowledge, Acknowledge};
pub use client::{
    acknowledge_reply, expect_attribute, read_counters_reply, read_counters_request,
    read_display_register_reply, read_display_register_request, read_firmware_version_reply,
    read_firmware_version_request, read_flags_reply, read_flags_request, read_inputs_reply,
    read_inputs_request, read_outputs_reply, read_outputs_request,
    read_real_time_clock_reply, read_real_time_clock_request, read_registers_reply,
    read_registers_request, read_sbus_station_number_reply, read_sbus_station_number_request,
    read_timers_reply, read_timers_request, spec_args_in_range, spec_request_datagram,
    validate_input, write_counters_request, write_flags_request, write_outputs_request,
    write_real_time_clock_request, write_registers_request, write_timers_request,
};
pub use command_id::{
    lemma_command_id_round_trip, spec_command_id_from, spec_command_id_value, CommandId,
};
pub use commands::{
    lemma_bools_padded_round_trip, lemma_firmware_version_framing, lemma_i32s_bytes_len,
    lemma_i32s_round_trip, lemma_read_request_round_trip, lemma_write_bits_round_trip,
    lemma_write_words_round_trip, spec_i32s_bytes, spec_parse_display_register,
    spec_parse_firmware_version, spec_parse_i32s, spec_parse_read_request,
    spec_parse_write_bits, spec_parse_write_words, spec_read_request_bytes,
    spec_write_bits_bytes, spec_write_words_bytes, ReadCountersRequest, ReadCountersResponse,
    ReadDisplayRegisterResponse, ReadFirmwareVersionResponse, ReadFlagsRequest,
    ReadFlagsResponse, ReadInputsRequest, ReadInputsResponse, ReadOutputsRequest,
    ReadOutputsResponse, ReadRealTimeClockResponse, ReadRegistersRequest,
    ReadRegistersResponse, ReadSBusStationNumberResponse, ReadTimersRequest,
    ReadTimersResponse, WriteCountersRequest, WriteFlagsRequest, WriteOutputsRequest,
    WriteRealTimeClockRequest, WriteRegistersRequest, WriteTimersRequest,
};
pub use consts::{
    BROADCAST_STATION, COUNTERS_MAX_REQUEST_LEN, DEFAULT_PORT, FLAGS_MAX_REQUEST_LEN,
    INPUTS_MAX_REQUEST_LEN, OUTPUTS_MAX_REQUEST_LEN, REGISTERS_MAX_REQUEST_LEN,
    TIMERS_MAX_REQUEST_LEN,
};
pub use crc::{crc16, crc16_byte, crc16_round, crc16_rounds, crc16_spec};
pub use device_float::{
    i32_bits, i32_from_bits, lemma_device_float_bits_round_trip, lemma_i32_bits_round_trip,
    lemma_device_float_parts_round_trip, pack_device_float, spec_split_bits,
    split_device_float, DeviceFloatParts,
};
pub use encoding::{
    bool_val, byte_bit, first_nul, lemma_bool_byte_bits, lemma_bools_round_trip,
    lemma_first_nul, lemma_i32_be_round_trip, lemma_u16_be_round_trip, lemma_u16_from_to_be,
    lemma_u32_be_round_trip, lemma_u32_from_to_be, spec_bit_mask, spec_bool_byte,
    spec_bools_bytes, spec_i32_be, spec_i32_from_be, spec_i32_of_u32, spec_parse_bools,
    spec_u16_be, spec_u16_from_be, spec_u32_be, spec_u32_from_be, spec_u32_of_i32,
    utf8_lossy_of, Decoder, Encoder,
};
pub use errors::{
    decode_error_text, sbus_error_of_decode, sbus_error_of_encode, DecodeError, DecodeReason,
    DecodeResult, EncodeError, EncodeResult, SBusError,
};
pub use message::{
    lemma_message_round_trip, spec_attribute_from, spec_attribute_value, spec_parse_message,
    Message, MessageView, TelegramAttribute,
};
pub use multiplexer::{
    lemma_decode_failure_fans_out, lemma_delivery_isolated, lemma_reordered_replies,
    next_sequence_number, spec_receiver_step, tokens_cover, PendingTable, ReceiverAction,
    SpecReceiverOutcome,
};
pub use real_time_clock::{
    lemma_bcd_round_trip, spec_bcd, spec_bcd_valid, spec_parse_rtc, spec_unbcd, RealTimeClock,
};
pub use request::{lemma_request_round_trip, spec_parse_request, Request, RequestView};
pub use response::Response;

mod read_requests;
mod read_responses;
mod write_requests;

pub use read_requests::{
    lemma_read_request_round_trip, spec_parse_read_request, spec_read_request_bytes,
    ReadCountersRequest, ReadFlagsRequest, ReadInputsRequest,
    ReadOutputsRequest, ReadRegistersRequest, ReadTimersRequest,
};
pub use read_responses::{
    lemma_bools_padded_round_trip, lemma_firmware_version_framing, lemma_i32s_bytes_len, lemma_i32s_round_trip, spec_i32s_bytes,
    spec_parse_display_register, spec_parse_firmware_version, spec_parse_i32s,
    ReadCountersResponse,
    ReadDisplayRegisterResponse, ReadFirmwareVersionResponse, ReadFlagsResponse,
    ReadInputsResponse, ReadOutputsResponse, ReadRealTimeClockResponse, ReadRegistersResponse,
    ReadSBusStationNumberResponse, ReadTimersResponse,
};
pub use write_requests::{
    lemma_write_bits_round_trip, lemma_write_words_round_trip, spec_parse_write_bits,
    spec_parse_write_words, spec_write_bits_bytes, spec_write_words_bytes,
    WriteCountersRequest, WriteFlagsRequest,
    WriteOutputsRequest, WriteRealTimeClockRequest, WriteRegistersRequest, WriteTimersRequest,
};

use sbus::{
    Acknowledge, CommandId, DecodeError, DecodeReason, Decoder, EncodeError, Encoder, Message,
    ReadCountersResponse, ReadDisplayRegisterResponse, ReadFirmwareVersionResponse,
    ReadFlagsResponse, ReadInputsRequest, ReadRegistersRequest, ReadRegistersResponse,
    ReadSBusStationNumberResponse, RealTimeClock, Request, Response, TelegramAttribute,
    WriteFlagsRequest, WriteRealTimeClockRequest, WriteRegistersRequest, WriteTimersRequest,
};

#[test]
fn read_request_round_trips() {
    let req = ReadInputsRequest { address: 0x1234, length: 8 };
    let bytes = req.encode_to_bytes().unwrap();
    assert_eq!(bytes, vec![0x07, 0x12, 0x34]);
    assert_eq!(ReadInputsRequest::decode_from_bytes(&bytes), Ok(req));

    let req = ReadRegistersRequest { address: 1, length: 1 };
    let bytes = req.encode_to_bytes().unwrap();
    assert_eq!(bytes, vec![0x00, 0x00, 0x01]);
    assert_eq!(ReadRegistersRequest::decode_from_bytes(&bytes), Ok(req));
}

#[test]
fn read_request_rejects_zero_length() {
    let req = ReadInputsRequest { address: 5, length: 0 };
    assert_eq!(req.encode_to_bytes(), Err(EncodeError::Overflow));
}

#[test]
fn read_request_rejects_count_byte_overflow() {
    // A stored count byte of 255 would stand for 256 elements.
    assert_eq!(
        ReadInputsRequest::decode_from_bytes(&[0xFF, 0x00, 0x01]),
        Err(DecodeError::InvalidData(DecodeReason::InvalidLength))
    );
}

#[test]
fn word_response_round_trips() {
    let resp = ReadCountersResponse { values: vec![1, -1, i32::MAX, i32::MIN, 0] };
    let bytes = resp.encode_to_bytes().unwrap();
    assert_eq!(bytes.len(), 20);
    assert_eq!(ReadCountersResponse::decode_from_bytes(&bytes), Ok(resp));
}

#[test]
fn word_response_rejects_partial_trailing_word() {
    assert_eq!(
        ReadRegistersResponse::decode_from_bytes(&[0, 0, 0, 1, 9]),
        Err(DecodeError::MissingData)
    );
}

#[test]
fn bool_response_round_trips_with_padding() {
    let resp = ReadFlagsResponse { values: vec![true, false, true] };
    let bytes = resp.encode_to_bytes().unwrap();
    assert_eq!(bytes, vec![0x05]);
    // Decoding cannot know the original count; it unpacks whole bytes.
    let decoded = ReadFlagsResponse::decode_from_bytes(&bytes).unwrap();
    assert_eq!(
        decoded.values,
        vec![true, false, true, false, false, false, false, false]
    );
}

#[test]
fn display_register_response_round_trips() {
    let resp = ReadDisplayRegisterResponse { register: 0xCAFEBABE };
    let mut encoder = Encoder::new();
    assert_eq!(resp.encode(&mut encoder), Ok(()));
    let bytes = encoder.finish();
    assert_eq!(bytes, vec![0xCA, 0xFE, 0xBA, 0xBE]);
    assert_eq!(ReadDisplayRegisterResponse::decode_from_bytes(&bytes), Ok(resp));
}

#[test]
fn station_number_response_round_trips() {
    let resp = ReadSBusStationNumberResponse { station: 42 };
    let mut encoder = Encoder::new();
    assert_eq!(resp.encode(&mut encoder), Ok(()));
    let bytes = encoder.finish();
    assert_eq!(ReadSBusStationNumberResponse::decode_from_bytes(&bytes), Ok(resp));
}

#[test]
fn firmware_version_response_round_trips() {
    let resp = ReadFirmwareVersionResponse { version: "1.20.14".to_string() };
    let mut encoder = Encoder::new();
    assert_eq!(resp.encode(&mut encoder), Ok(()));
    let bytes = encoder.finish();
    assert_eq!(*bytes.last().unwrap(), 0);
    let decoded = ReadFirmwareVersionResponse::decode_from_bytes(&bytes).unwrap();
    assert_eq!(decoded.version, "1.20.14");
}

#[test]
fn write_words_request_round_trips() {
    let req = WriteRegistersRequest { address: 0x0010, values: vec![7, -7] };
    let bytes = req.encode_to_bytes().unwrap();
    assert_eq!(
        bytes,
        vec![0x09, 0x00, 0x10, 0x00, 0x00, 0x00, 0x07, 0xFF, 0xFF, 0xFF, 0xF9]
    );
    assert_eq!(WriteRegistersRequest::decode_from_bytes(&bytes), Ok(req));
}

#[test]
fn write_words_request_rejects_bad_lengths() {
    // Length byte zero cannot stand for any word count.
    assert_eq!(
        WriteTimersRequest::decode_from_bytes(&[0x00, 0x00, 0x10]),
        Err(DecodeError::InvalidData(DecodeReason::InvalidLength))
    );
    // Length byte not a whole number of words.
    assert_eq!(
        WriteTimersRequest::decode_from_bytes(&[0x03, 0x00, 0x10, 1, 2]),
        Err(DecodeError::InvalidData(DecodeReason::InvalidLength))
    );
    // More words than the length byte can carry.
    let req = WriteTimersRequest { address: 0, values: vec![0; 64] };
    assert_eq!(req.encode_to_bytes(), Err(EncodeError::Overflow));
}

#[test]
fn write_flags_request_encodes_per_format() {
    let req = WriteFlagsRequest { address: 100, values: vec![true, false, true] };
    let bytes = req.encode_to_bytes().unwrap();
    // byte count 1 plus 2, address 100, bit count minus one, bits 101.
    assert_eq!(bytes, vec![0x03, 0x00, 0x64, 0x02, 0x05]);
    assert_eq!(WriteFlagsRequest::decode_from_bytes(&bytes), Ok(req));
}

#[test]
fn write_flags_request_rejects_empty_values() {
    let req = WriteFlagsRequest { address: 0, values: vec![] };
    assert_eq!(req.encode_to_bytes(), Err(EncodeError::Overflow));
}

#[test]
fn write_rtc_request_round_trips() {
    let rtc = RealTimeClock {
        week: 7,
        week_day: 1,
        year: 99,
        month: 2,
        day: 28,
        hour: 0,
        minute: 30,
        second: 45,
    };
    let req = WriteRealTimeClockRequest { rtc };
    let bytes = req.encode_to_bytes().unwrap();
    assert_eq!(bytes, vec![0x07, 0x01, 0x99, 0x02, 0x28, 0x00, 0x30, 0x45]);
    assert_eq!(WriteRealTimeClockRequest::decode_from_bytes(&bytes), Ok(req));
}

#[test]
fn acknowledge_round_trips_and_keeps_unknowns() {
    for (code, value) in [
        (Acknowledge::Ack, 0u16),
        (Acknowledge::Nak, 1),
        (Acknowledge::NakPassword, 2),
        (Acknowledge::NakPGUReducedProtocol, 3),
        (Acknowledge::NakPGUAlreadyUsed, 4),
        (Acknowledge::Unknown(500), 500),
    ] {
        assert_eq!(code.to_u16(), value);
        assert_eq!(Acknowledge::from_u16(value), code);
        let mut encoder = Encoder::new();
        assert_eq!(code.encode(&mut encoder), Ok(()));
        let bytes = encoder.finish();
        let mut decoder = Decoder::new(&bytes);
        assert_eq!(Acknowledge::decode(&mut decoder), Ok(code));
    }
}

#[test]
fn command_ids_map_to_their_opcodes() {
    for (command, opcode) in [
        (CommandId::ReadCounters, 0x00u8),
        (CommandId::ReadDisplayRegister, 0x01),
        (CommandId::ReadFlags, 0x02),
        (CommandId::ReadInputs, 0x03),
        (CommandId::ReadRealTimeClock, 0x04),
        (CommandId::ReadOutputs, 0x05),
        (CommandId::ReadRegisters, 0x06),
        (CommandId::ReadTimers, 0x07),
        (CommandId::WriteCounters, 0x0A),
        (CommandId::WriteFlags, 0x0B),
        (CommandId::WriteRealTimeClock, 0x0C),
        (CommandId::WriteOutputs, 0x0D),
        (CommandId::WriteRegisters, 0x0E),
        (CommandId::WriteTimers, 0x0F),
        (CommandId::ReadSBusStationNumber, 0x1D),
        (CommandId::ReadFirmwareVersion, 0x20),
        (CommandId::Unknown(0x42), 0x42),
    ] {
        assert_eq!(command.to_u8(), opcode);
        assert_eq!(CommandId::from_u8(opcode), command);
    }
}

#[test]
fn request_envelope_round_trips() {
    let req = Request {
        station: 3,
        command_id: CommandId::ReadRegisters,
        body: vec![0x07, 0x00, 0x64],
    };
    let bytes = req.encode_to_bytes();
    assert_eq!(bytes, vec![0x03, 0x06, 0x07, 0x00, 0x64]);
    let decoded = Request::decode_from_bytes(&bytes).unwrap();
    assert_eq!(decoded, req);
}

#[test]
fn response_envelope_takes_everything() {
    let bytes = [9u8, 8, 7];
    let mut decoder = Decoder::new(&bytes);
    let resp = Response::decode(&mut decoder).unwrap();
    assert_eq!(resp.body, vec![9, 8, 7]);
    assert_eq!(decoder.remaining(), 0);
}

#[test]
fn message_round_trips_with_crc() {
    let msg = Message {
        sequence_number: 0x0105,
        telegram_attribute: TelegramAttribute::Response,
        body: vec![0xDE, 0xAD],
    };
    let bytes = msg.encode_to_bytes().unwrap();
    assert_eq!(bytes.len(), 13);
    assert_eq!(bytes[..4], [0x00, 0x00, 0x00, 0x0D]);
    let decoded = Message::decode_from_bytes(&bytes).unwrap();
    assert_eq!(decoded, msg);
}

#[test]
fn firmware_request_message_bytes_are_exact() {
    // A firmware-version request to station 0 with sequence number 0.
    let req = Request {
        station: 0,
        command_id: CommandId::ReadFirmwareVersion,
        body: vec![],
    };
    let msg = Message {
        sequence_number: 0,
        telegram_attribute: TelegramAttribute::Request,
        body: req.encode_to_bytes(),
    };
    let bytes = msg.encode_to_bytes().unwrap();
    assert_eq!(
        bytes,
        vec![0x00, 0x00, 0x00, 0x0D, 0x01, 0x00, 0x00, 0x00, 0x00, 0x00, 0x20, 0xCA, 0x67]
    );
}

#[test]
fn message_with_tampered_crc_is_rejected() {
    let msg = Message {
        sequence_number: 7,
        telegram_attribute: TelegramAttribute::Response,
        body: vec![1, 2, 3, 4],
    };
    let mut bytes = msg.encode_to_bytes().unwrap();
    let last = bytes.len() - 1;
    bytes[last] ^= 0xFF;
    assert_eq!(
        Message::decode_from_bytes(&bytes),
        Err(DecodeError::InvalidData(DecodeReason::ChecksumMismatch))
    );
}

#[test]
fn message_with_short_length_prefix_is_rejected() {
    // An announced total length below the fixed overhead.
    let bytes = [0x00u8, 0x00, 0x00, 0x05, 0x01, 0x00, 0x00];
    assert_eq!(
        Message::decode_from_bytes(&bytes),
        Err(DecodeError::InvalidData(DecodeReason::InvalidByteLength))
    );
}

#[test]
fn truncated_message_is_missing_data() {
    let msg = Message {
        sequence_number: 7,
        telegram_attribute: TelegramAttribute::Response,
        body: vec![1, 2, 3, 4],
    };
    let bytes = msg.encode_to_bytes().unwrap();
    assert_eq!(
        Message::decode_from_bytes(&bytes[..bytes.len() - 4]),
        Err(DecodeError::MissingData)
    );
}

#[test]
fn unknown_telegram_attribute_is_preserved() {
    let msg = Message {
        sequence_number: 1,
        telegram_attribute: TelegramAttribute::Unknown(9),
        body: vec![],
    };
    let bytes = msg.encode_to_bytes().unwrap();
    let decoded = Message::decode_from_bytes(&bytes).unwrap();
    assert_eq!(decoded.telegram_attribute, TelegramAttribute::Unknown(9));
}

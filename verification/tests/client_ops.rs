use sbus::{
    acknowledge_reply, crc16, i32_bits, pack_device_float, read_counters_reply,
    read_counters_request, read_display_register_reply, read_firmware_version_reply,
    read_firmware_version_request, read_flags_reply, read_flags_request,
    read_real_time_clock_reply, read_sbus_station_number_reply,
    read_sbus_station_number_request, split_device_float, validate_input,
    write_flags_request, write_real_time_clock_request, write_registers_request,
    DeviceFloatParts, Message, RealTimeClock, SBusError, TelegramAttribute,
};

fn is_out_of_range(r: &Result<Vec<u8>, SBusError>) -> bool {
    matches!(r, Err(SBusError::ArgumentsOutOfRange(_)))
}

#[test]
fn zero_length_is_out_of_range() {
    assert!(is_out_of_range(&read_counters_request(0, 1, 100, 0)));
}

#[test]
fn length_above_cap_is_out_of_range() {
    // Counters cap at 32 elements, flags at 128.
    assert!(is_out_of_range(&read_counters_request(0, 1, 100, 33)));
    assert!(read_counters_request(0, 1, 100, 32).is_ok());
    assert!(is_out_of_range(&read_flags_request(0, 1, 100, 129)));
    assert!(read_flags_request(0, 1, 100, 128).is_ok());
}

#[test]
fn address_overflow_is_out_of_range() {
    assert!(is_out_of_range(&read_counters_request(0, 1, 0xFFFF, 2)));
    assert!(read_counters_request(0, 1, 0xFFFF, 1).is_ok());
    assert!(is_out_of_range(&write_registers_request(0, 1, 0xFFFE, &[1, 2, 3])));
    assert!(write_registers_request(0, 1, 0xFFFE, &[1, 2]).is_ok());
}

#[test]
fn validate_input_reports_each_violation() {
    assert!(validate_input(0, 1, 32).is_ok());
    assert!(matches!(
        validate_input(0, 0, 32),
        Err(SBusError::ArgumentsOutOfRange(_))
    ));
    assert!(matches!(
        validate_input(0, 33, 32),
        Err(SBusError::ArgumentsOutOfRange(_))
    ));
    assert!(matches!(
        validate_input(0xFFFF, 2, 32),
        Err(SBusError::ArgumentsOutOfRange(_))
    ));
}

#[test]
fn firmware_request_datagram_is_exact() {
    let bytes = read_firmware_version_request(0, 0);
    assert_eq!(
        bytes,
        vec![0x00, 0x00, 0x00, 0x0D, 0x01, 0x00, 0x00, 0x00, 0x00, 0x00, 0x20, 0xCA, 0x67]
    );
    // The trailer is the CRC-16 of everything before it.
    let crc = crc16(&bytes[..bytes.len() - 2]);
    assert_eq!(&bytes[bytes.len() - 2..], &crc.to_be_bytes());
}

#[test]
fn station_number_request_goes_to_broadcast_station() {
    let bytes = read_sbus_station_number_request(3);
    // Station byte sits right after the five header bytes and the
    // four length bytes.
    assert_eq!(bytes[9], 254);
    assert_eq!(bytes[10], 0x1D);
}

#[test]
fn read_request_datagram_carries_body() {
    let bytes = read_counters_request(0x0102, 9, 0x0064, 8).unwrap();
    // station, opcode, count minus one, address.
    assert_eq!(&bytes[9..14], &[9, 0x00, 0x07, 0x00, 0x64]);
}

#[test]
fn rtc_write_request_validates_fields_locally() {
    let rtc = RealTimeClock {
        week: 1,
        week_day: 2,
        year: 3,
        month: 4,
        day: 5,
        hour: 6,
        minute: 7,
        second: 200,
    };
    assert!(matches!(
        write_real_time_clock_request(0, 1, &rtc),
        Err(SBusError::ArgumentsOutOfRange(_))
    ));
    let ok = RealTimeClock { second: 59, ..rtc };
    assert!(write_real_time_clock_request(0, 1, &ok).is_ok());
}

#[test]
fn write_flags_request_datagram_carries_packed_bits() {
    let bytes = write_flags_request(0, 1, 100, &[true, false, true]).unwrap();
    assert_eq!(&bytes[9..16], &[1, 0x0B, 0x03, 0x00, 0x64, 0x02, 0x05]);
}

fn response_message(sequence_number: u16, body: Vec<u8>) -> Message {
    Message {
        sequence_number,
        telegram_attribute: TelegramAttribute::Response,
        body,
    }
}

#[test]
fn read_counters_reply_decodes_words() {
    let msg = response_message(1, vec![0x00, 0x00, 0x00, 0x2A, 0xFF, 0xFF, 0xFF, 0xD6]);
    assert_eq!(read_counters_reply(&msg), Ok(vec![42, -42]));
}

#[test]
fn reply_with_wrong_attribute_is_rejected() {
    let msg = Message {
        sequence_number: 1,
        telegram_attribute: TelegramAttribute::Acknowledge,
        body: vec![0, 0, 0, 0],
    };
    assert_eq!(
        read_counters_reply(&msg),
        Err(SBusError::InvalidResponse(
            "Telegram attribute mismatch".to_string()
        ))
    );
}

#[test]
fn reply_with_short_body_reports_invalid_data() {
    let msg = response_message(1, vec![0x00, 0x01]);
    assert_eq!(
        read_counters_reply(&msg),
        Err(SBusError::InvalidResponse(
            "The server sent invalid data".to_string()
        ))
    );
}

#[test]
fn read_flags_reply_unpacks_bits() {
    let msg = response_message(1, vec![0x05]);
    assert_eq!(
        read_flags_reply(&msg),
        Ok(vec![true, false, true, false, false, false, false, false])
    );
}

#[test]
fn read_real_time_clock_reply_decodes_fields() {
    let msg = response_message(1, vec![0x23, 0x04, 0x24, 0x12, 0x31, 0x23, 0x59, 0x59]);
    let rtc = read_real_time_clock_reply(&msg).unwrap();
    assert_eq!(rtc.week, 23);
    assert_eq!(rtc.second, 59);
    let bad = response_message(1, vec![0x0F, 0x04, 0x24, 0x12, 0x31, 0x23, 0x59, 0x59]);
    assert_eq!(
        read_real_time_clock_reply(&bad),
        Err(SBusError::InvalidResponse("Invalid time data".to_string()))
    );
}

#[test]
fn read_firmware_version_reply_decodes_text() {
    let msg = response_message(1, vec![b'1', b'.', b'2', 0x00]);
    assert_eq!(read_firmware_version_reply(&msg), Ok("1.2".to_string()));
}

#[test]
fn read_display_register_reply_decodes_word() {
    let msg = response_message(1, vec![0x00, 0x01, 0x00, 0x00]);
    assert_eq!(read_display_register_reply(&msg), Ok(0x10000));
}

#[test]
fn station_number_reply_decodes_byte() {
    let msg = response_message(1, vec![17]);
    assert_eq!(read_sbus_station_number_reply(&msg), Ok(17));
}

#[test]
fn acknowledge_reply_maps_ack_and_nak() {
    let ack = Message {
        sequence_number: 1,
        telegram_attribute: TelegramAttribute::Acknowledge,
        body: vec![0x00, 0x00],
    };
    assert_eq!(acknowledge_reply(&ack), Ok(true));
    // A NAK is not an error: the write simply did not happen.
    let nak = Message {
        sequence_number: 1,
        telegram_attribute: TelegramAttribute::Acknowledge,
        body: vec![0x00, 0x01],
    };
    assert_eq!(acknowledge_reply(&nak), Ok(false));
    let response = Message {
        sequence_number: 1,
        telegram_attribute: TelegramAttribute::Response,
        body: vec![0x00, 0x00],
    };
    assert_eq!(
        acknowledge_reply(&response),
        Err(SBusError::InvalidResponse(
            "Telegram attribute mismatch".to_string()
        ))
    );
}

#[test]
fn device_float_bits_of_reference_value() {
    // The device encoding of 1234.5 splits into these fields.
    let parts = split_device_float(-1706033077);
    assert_eq!(
        parts,
        DeviceFloatParts {
            mantissa: 0x9A5000,
            negative: false,
            exponent: 0x4B,
        }
    );
    assert_eq!(pack_device_float(&parts), -1706033077);
    assert_eq!(i32_bits(-1706033077), 0x9A50004B);
}

#[test]
fn device_float_bits_round_trip_all_corners() {
    for value in [0i32, -1, 1, i32::MIN, i32::MAX, -1706033077] {
        let parts = split_device_float(value);
        assert_eq!(pack_device_float(&parts), value);
    }
}

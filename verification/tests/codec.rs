use sbus::{crc16, DecodeError, DecodeReason, Decoder, EncodeError, Encoder, RealTimeClock};

#[test]
fn encode_decode() {
    let mut encoder = Encoder::new();
    encoder.write_u8(0xAA);
    encoder.write_u16(0xBBCC);
    encoder.write_bytes(&vec![1, 2, 3]);
    encoder.write_string("Test1");

    assert_eq!(encoder.position(), 12);

    let bytes = encoder.finish();

    assert_eq!(bytes.len(), 12);

    let mut decoder = Decoder::new(&bytes);

    assert_eq!(decoder.position(), 0);
    assert_eq!(decoder.remaining(), 12);

    assert_eq!(decoder.read_u8(), Ok(0xAA));
    assert_eq!(decoder.read_u16(), Ok(0xBBCC));
    assert_eq!(decoder.read_bytes(3), Ok(vec![1, 2, 3]));
    assert_eq!(decoder.read_string(), Ok("Test1".into()));

    assert_eq!(decoder.position(), 12);
    assert_eq!(decoder.remaining(), 0);
}

#[test]
fn crc16_of_empty_input_is_zero() {
    assert_eq!(crc16(&[]), 0x0000);
}

#[test]
fn crc16_matches_xmodem_reference_vectors() {
    // The classic CRC-16/XMODEM check value.
    assert_eq!(crc16(b"123456789"), 0x31C3);
    // The checked bytes of a real firmware-version request telegram.
    let telegram = [
        0x00u8, 0x00, 0x00, 0x0D, 0x01, 0x00, 0x00, 0x00, 0x00, 0x00, 0x20,
    ];
    assert_eq!(crc16(&telegram), 0xCA67);
}

#[test]
fn words_round_trip_through_big_endian_bytes() {
    let mut encoder = Encoder::new();
    encoder.write_u32(0xDEADBEEF);
    encoder.write_i32(-2);
    encoder.write_i32(i32::MIN);
    encoder.write_u16(0x0102);
    let bytes = encoder.finish();
    assert_eq!(
        bytes,
        vec![0xDE, 0xAD, 0xBE, 0xEF, 0xFF, 0xFF, 0xFF, 0xFE, 0x80, 0x00, 0x00, 0x00, 0x01, 0x02]
    );
    let mut decoder = Decoder::new(&bytes);
    assert_eq!(decoder.read_u32(), Ok(0xDEADBEEF));
    assert_eq!(decoder.read_i32(), Ok(-2));
    assert_eq!(decoder.read_i32(), Ok(i32::MIN));
    assert_eq!(decoder.read_u16(), Ok(0x0102));
    assert_eq!(decoder.read_u8(), Err(DecodeError::MissingData));
}

#[test]
fn packed_booleans_encode_lsb_first() {
    let mut encoder = Encoder::new();
    encoder.write_bools(&[true, false, true, true, false, false, false, false, true]);
    assert_eq!(encoder.finish(), vec![0x0D, 0x01]);
}

#[test]
fn packed_booleans_round_trip() {
    let values = vec![true, false, true, true, false, true, false, false, true, true, false];
    let mut encoder = Encoder::new();
    encoder.write_bools(&values);
    let bytes = encoder.finish();
    let mut decoder = Decoder::new(&bytes);
    assert_eq!(decoder.read_bools(values.len()), Ok(values));
    assert_eq!(decoder.remaining(), 0);
}

#[test]
fn packed_booleans_of_zero_length_use_no_bytes() {
    let mut encoder = Encoder::new();
    encoder.write_bools(&[]);
    let bytes = encoder.finish();
    assert_eq!(bytes.len(), 0);
    let mut decoder = Decoder::new(&bytes);
    assert_eq!(decoder.read_bools(0), Ok(vec![]));
}

#[test]
fn strings_decode_lossily_and_stop_at_nul() {
    // An invalid UTF-8 byte must be replaced, not rejected, and the
    // decoder must stop at the first NUL.
    let bytes = [0xFFu8, 0x41, 0x00, 0x42];
    let mut decoder = Decoder::new(&bytes);
    assert_eq!(decoder.read_string(), Ok("\u{FFFD}A".to_string()));
    assert_eq!(decoder.remaining(), 1);
    // A multi-byte character survives the trip.
    let mut encoder = Encoder::new();
    encoder.write_string("é");
    let bytes = encoder.finish();
    assert_eq!(bytes, vec![0xC3, 0xA9, 0x00]);
    let mut decoder = Decoder::new(&bytes);
    assert_eq!(decoder.read_string(), Ok("é".to_string()));
}

#[test]
fn string_without_nul_is_missing_data() {
    let mut decoder = Decoder::new(b"abc");
    assert_eq!(decoder.read_string(), Err(DecodeError::MissingData));
}

#[test]
fn rtc_encodes_as_binary_coded_decimal() {
    let rtc = RealTimeClock {
        week: 23,
        week_day: 4,
        year: 24,
        month: 12,
        day: 31,
        hour: 23,
        minute: 59,
        second: 59,
    };
    let mut encoder = Encoder::new();
    assert_eq!(rtc.encode(&mut encoder), Ok(()));
    assert_eq!(
        encoder.finish(),
        vec![0x23, 0x04, 0x24, 0x12, 0x31, 0x23, 0x59, 0x59]
    );
}

#[test]
fn rtc_round_trips_and_rejects_out_of_range() {
    let rtc = RealTimeClock {
        week: 23,
        week_day: 4,
        year: 24,
        month: 12,
        day: 31,
        hour: 23,
        minute: 59,
        second: 59,
    };
    let mut encoder = Encoder::new();
    assert_eq!(rtc.encode(&mut encoder), Ok(()));
    let bytes = encoder.finish();
    let mut decoder = Decoder::new(&bytes);
    assert_eq!(RealTimeClock::decode(&mut decoder), Ok(rtc));

    // A field above 99 has more than two decimal digits.
    let bad = RealTimeClock { week: 100, ..rtc };
    let mut encoder = Encoder::new();
    assert_eq!(bad.encode(&mut encoder), Err(EncodeError::Overflow));
    assert_eq!(encoder.finish().len(), 0);
}

#[test]
fn rtc_single_field_pair_round_trips() {
    // Decimal 23 is stored as the byte 0x23.
    let rtc = RealTimeClock {
        week: 23,
        week_day: 0,
        year: 0,
        month: 0,
        day: 0,
        hour: 0,
        minute: 0,
        second: 0,
    };
    let mut encoder = Encoder::new();
    assert_eq!(rtc.encode(&mut encoder), Ok(()));
    let bytes = encoder.finish();
    assert_eq!(bytes[0], 0x23);
    let mut decoder = Decoder::new(&bytes);
    assert_eq!(RealTimeClock::decode(&mut decoder).unwrap().week, 23);
}

#[test]
fn rtc_rejects_hex_digits_on_decode() {
    // Any byte with a hex digit A-F is not binary-coded decimal.
    let bytes = [0x0Au8, 0, 0, 0, 0, 0, 0, 0];
    let mut decoder = Decoder::new(&bytes);
    assert_eq!(
        RealTimeClock::decode(&mut decoder),
        Err(DecodeError::InvalidData(DecodeReason::InvalidTimeData))
    );
    let bytes = [0x00u8, 0, 0, 0xA0, 0, 0, 0, 0];
    let mut decoder = Decoder::new(&bytes);
    assert_eq!(
        RealTimeClock::decode(&mut decoder),
        Err(DecodeError::InvalidData(DecodeReason::InvalidTimeData))
    );
}

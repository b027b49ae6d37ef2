use sps30::hldc::{decode, encode, Error};

#[test]
fn encode_start_measurement() {
    let mosi_data = [0x00, 0x00, 0x02, 0x01, 0x03, 0xf9];
    let expected = [0x7e, 0x00, 0x00, 0x02, 0x01, 0x03, 0xf9, 0x7e];
    let encoded = encode(&mosi_data, 20).unwrap();
    assert_eq!(encoded.as_slice(), &expected);
}

#[test]
fn encode_test() {
    let mosi_data = [0x00, 0x01, 0x00, 0xfe];
    let expected = [0x7e, 0x00, 0x01, 0x00, 0xfe, 0x7e];
    let encoded = encode(&mosi_data, 15).unwrap();
    assert_eq!(encoded.as_slice(), &expected);
}

#[test]
fn decode_test() {
    let expected = [0x00, 0x01, 0x00, 0xfe];
    let mosi_data = [0x7e, 0x00, 0x01, 0x00, 0xfe, 0x7e];
    let decoded = decode(&mosi_data, 10).unwrap();
    assert_eq!(decoded.as_slice(), &expected);
}

#[test]
fn reserved_bytes_are_escaped() {
    assert_eq!(
        encode(&[0x7d], 8).unwrap().as_slice(),
        &[0x7e, 0x7d, 0x5d, 0x7e]
    );
    assert_eq!(
        encode(&[0x7e], 8).unwrap().as_slice(),
        &[0x7e, 0x7d, 0x5e, 0x7e]
    );
    assert_eq!(
        encode(&[0x11], 8).unwrap().as_slice(),
        &[0x7e, 0x7d, 0x31, 0x7e]
    );
    assert_eq!(
        encode(&[0x13], 8).unwrap().as_slice(),
        &[0x7e, 0x7d, 0x33, 0x7e]
    );
}

#[test]
fn round_trip_restores_payload() {
    let payload = [0x00, 0x7d, 0x7e, 0x11, 0x13, 0xab, 0x42, 0xff];
    let encoded = encode(&payload, 64).unwrap();
    let decoded = decode(&encoded, 64).unwrap();
    assert_eq!(decoded.as_slice(), &payload);
}

#[test]
fn encode_rejects_payload_that_may_not_fit() {
    // Capacity 8 leaves room for at most two payload bytes once every
    // byte is assumed to need escaping.
    assert_eq!(encode(&[1, 2, 3], 8).unwrap_err(), Error::TooMuchData);
    assert!(encode(&[1, 2], 8).is_ok());
}

#[test]
fn decode_rejects_malformed_frames() {
    assert_eq!(decode(&[0x7e, 0x7e], 10).unwrap_err(), Error::TooFewData);
    assert_eq!(
        decode(&[0x00, 0x01, 0x02, 0x7e], 10).unwrap_err(),
        Error::MissingFirstFend
    );
    assert_eq!(
        decode(&[0x7e, 0x01, 0x02, 0x03], 10).unwrap_err(),
        Error::MissingFinalFend
    );
}

#[test]
fn decode_rejects_dangling_escape_marker() {
    assert_eq!(
        decode(&[0x7e, 0x01, 0x7d, 0x7e], 10).unwrap_err(),
        Error::MissingTradeChar
    );
}

#[test]
fn decode_rejects_unknown_escape_replacement() {
    assert_eq!(
        decode(&[0x7e, 0x7d, 0x40, 0x7e], 10).unwrap_err(),
        Error::FendCharInData
    );
}

#[test]
fn decode_rejects_output_over_capacity() {
    assert_eq!(
        decode(&[0x7e, 0x01, 0x02, 0x03, 0x7e], 2).unwrap_err(),
        Error::TooMuchData
    );
}

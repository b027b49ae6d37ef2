use sps30::{
    build_request, check_miso_frame, checksum, decode_response, parse_miso_frame,
    read_cleaning_interval_request, read_cleaning_interval_response, read_measurement_request,
    read_measurement_response, reset_request, serial_number_request, serial_number_response,
    start_fan_cleaning_request, start_measurement_request, stop_measurement_request,
    sync_error_to_error, wake_up_request, write_cleaning_interval_request,
    write_cleaning_interval_response, Command, DeviceError, Error, HldcError, Measurement, Sps30,
};

type TestError = Error<(), ()>;

#[test]
fn checksum_matches_documented_formula() {
    assert_eq!(checksum(&[]), 255);
    assert_eq!(checksum(&[0x00, 0x00, 0x02, 0x01, 0x03]), 0xf9);
    assert_eq!(checksum(&[0xff, 0xff]), 255 - 254);
}

#[test]
fn checksum_is_deterministic() {
    let bytes = [0x12, 0x34, 0x56, 0x78, 0x9a];
    assert_eq!(checksum(&bytes), checksum(&bytes));
}

#[test]
fn build_request_assembles_frame_with_checksum() {
    let r: Result<Vec<u8>, TestError> =
        build_request(Command::StartMeasurement, &[0x01, 0x03], 16);
    assert_eq!(r.unwrap(), vec![0x00, 0x00, 0x02, 0x01, 0x03, 0xf9]);
}

#[test]
fn build_request_rejects_frame_over_capacity() {
    let r: Result<Vec<u8>, TestError> = build_request(Command::StartMeasurement, &[1, 2, 3], 7);
    assert_eq!(r.unwrap_err(), Error::FrameTooLarge);
}

#[test]
fn request_builders_produce_documented_frames() {
    assert_eq!(
        start_measurement_request(),
        vec![0x00, 0x00, 0x02, 0x01, 0x03, 0xf9]
    );
    assert_eq!(stop_measurement_request(), vec![0x00, 0x01, 0x00, 0xfe]);
    assert_eq!(read_measurement_request(), vec![0x00, 0x03, 0x00, 0xfc]);
    assert_eq!(wake_up_request(), vec![0x00, 0x11, 0x00, 0xee]);
    assert_eq!(reset_request(), vec![0x00, 0xd3, 0x00, 0x2c]);
    assert_eq!(start_fan_cleaning_request(), vec![0x00, 0x56, 0x00, 0xa9]);
    assert_eq!(serial_number_request(), vec![0x00, 0xd0, 0x01, 0x03, 0x2b]);
    assert_eq!(
        read_cleaning_interval_request(),
        vec![0x00, 0x80, 0x01, 0x00, 0x7e]
    );
}

#[test]
fn write_cleaning_interval_request_carries_big_endian_value() {
    // 604800 seconds (one week) is 0x00093a80.
    assert_eq!(
        write_cleaning_interval_request(604800),
        vec![0x00, 0x80, 0x05, 0x05, 0x00, 0x09, 0x3a, 0x80, 0xb2]
    );
}

#[test]
fn parse_miso_frame_returns_data_section() {
    let frame = [0x00, 0x80, 0x00, 0x04, 0x00, 0x09, 0x3a, 0x80, 0xb8];
    let r: Result<&[u8], TestError> =
        parse_miso_frame(&frame, Command::ReadWriteAutoCleaningInterval);
    assert_eq!(r.unwrap(), &[0x00, 0x09, 0x3a, 0x80]);
}

#[test]
fn parse_reports_invalid_parameter_device_error() {
    let frame = [0x00, 0x00, 0x04, 0x00, 0xfb];
    let r: Result<(), TestError> = check_miso_frame(&frame, Command::StartMeasurement);
    assert_eq!(r.unwrap_err(), Error::DeviceError(DeviceError::InvalidParam));
}

#[test]
fn checksum_mismatch_fails_before_any_field_is_read() {
    // Wrong checksum on a frame that also carries a wrong command echo
    // and a non-zero state: the checksum must win.
    let frame = [0x00, 0x01, 0x04, 0x00, 0x64];
    let r: Result<(), TestError> = check_miso_frame(&frame, Command::StartMeasurement);
    assert_eq!(r.unwrap_err(), Error::ChecksumFailed);
}

#[test]
fn command_echo_mismatch_is_invalid_response() {
    let frame = [0x00, 0x01, 0x00, 0x00, 0xfe];
    let r: Result<(), TestError> = check_miso_frame(&frame, Command::StartMeasurement);
    assert_eq!(r.unwrap_err(), Error::InvalidResponse);
}

#[test]
fn length_field_mismatch_is_invalid_response() {
    let frame = [0x00, 0x00, 0x00, 0x05, 0xfa];
    let r: Result<(), TestError> = check_miso_frame(&frame, Command::StartMeasurement);
    assert_eq!(r.unwrap_err(), Error::InvalidResponse);
}

#[test]
fn too_short_frame_is_invalid_response() {
    let frame = [0x00, 0x00, 0x00, 0x00];
    let r: Result<(), TestError> = check_miso_frame(&frame, Command::StartMeasurement);
    assert_eq!(r.unwrap_err(), Error::InvalidResponse);
}

#[test]
fn wrong_address_is_invalid_response() {
    let frame = [0x01, 0x00, 0x00, 0x00, 0xfe];
    let r: Result<(), TestError> = check_miso_frame(&frame, Command::StartMeasurement);
    assert_eq!(r.unwrap_err(), Error::InvalidResponse);
}

#[test]
fn device_error_codes_map_to_documented_kinds() {
    assert_eq!(DeviceError::from(1), DeviceError::WrongDataLen);
    assert_eq!(DeviceError::from(2), DeviceError::UnknownCmd);
    assert_eq!(DeviceError::from(3), DeviceError::NoAccess);
    assert_eq!(DeviceError::from(4), DeviceError::InvalidParam);
    assert_eq!(DeviceError::from(40), DeviceError::InternalOutOfRange);
    assert_eq!(DeviceError::from(67), DeviceError::InvalidStateForCommand);
    assert_eq!(DeviceError::from(99), DeviceError::Unknown);
}

#[test]
fn read_measurement_response_rebuilds_words() {
    let mut frame = vec![0x00, 0x03, 0x00, 40];
    let mut data = vec![0x3f, 0x80, 0x00, 0x00];
    data.resize(40, 0x00);
    frame.extend_from_slice(&data);
    frame.push(checksum(&frame));
    let r: Result<Measurement, TestError> = read_measurement_response(&frame);
    let m = r.unwrap();
    assert_eq!(m.mass_pm1_0, 0x3f80_0000);
    assert_eq!(m.mass_pm2_5, 0);
    assert_eq!(m.typical_particle_size, 0);
}

#[test]
fn empty_measurement_response_is_too_short() {
    let frame = [0x00, 0x03, 0x00, 0x00, 0xfc];
    let r: Result<Measurement, TestError> = read_measurement_response(&frame);
    assert_eq!(r.unwrap_err(), Error::MeasurementDataTooShort);
}

#[test]
fn measurement_from_data_needs_forty_bytes() {
    let data = [0u8; 39];
    assert!(Measurement::from_data(&data).is_err());
    let data = [0u8; 40];
    assert_eq!(Measurement::from_data(&data).unwrap().number_pm10, 0);
}

#[test]
fn read_cleaning_interval_response_reads_big_endian_value() {
    let frame = [0x00, 0x80, 0x00, 0x04, 0x00, 0x09, 0x3a, 0x80, 0xb8];
    let r: Result<u32, TestError> = read_cleaning_interval_response(&frame);
    assert_eq!(r.unwrap(), 604800);
}

#[test]
fn short_cleaning_interval_data_is_rejected() {
    let frame = [0x00, 0x80, 0x00, 0x02, 0x00, 0x09, 0x74];
    let r: Result<u32, TestError> = read_cleaning_interval_response(&frame);
    assert_eq!(r.unwrap_err(), Error::CleaningIntervalDataTooShort);
}

#[test]
fn write_cleaning_interval_ack_must_carry_no_data() {
    let ok = [0x00, 0x80, 0x00, 0x00, 0x7f];
    let r: Result<(), TestError> = write_cleaning_interval_response(&ok);
    assert_eq!(r, Ok(()));

    let with_data = [0x00, 0x80, 0x00, 0x01, 0x09, 0x75];
    let r: Result<(), TestError> = write_cleaning_interval_response(&with_data);
    assert_eq!(r.unwrap_err(), Error::InvalidResponse);
}

#[test]
fn serial_number_response_decodes_text() {
    let mut frame = vec![0x00, 0xd0, 0x00, 0x05];
    frame.extend_from_slice(b"SPS30");
    frame.push(checksum(&frame));
    let r: Result<String, TestError> = serial_number_response(&frame);
    assert_eq!(r.unwrap(), "SPS30");
}

#[test]
fn serial_number_must_be_utf8() {
    let frame = [0x00, 0xd0, 0x00, 0x01, 0xff, 0x2f];
    let r: Result<String, TestError> = serial_number_response(&frame);
    assert_eq!(r.unwrap_err(), Error::SerialInvalidUtf8);
}

#[test]
fn serial_number_over_32_bytes_is_too_large() {
    let mut frame = vec![0x00, 0xd0, 0x00, 33];
    frame.extend_from_slice(&[b'A'; 33]);
    frame.push(checksum(&frame));
    let r: Result<String, TestError> = serial_number_response(&frame);
    assert_eq!(r.unwrap_err(), Error::FrameTooLarge);
}

#[test]
fn decode_response_wraps_codec_errors() {
    let r: Result<Vec<u8>, TestError> = decode_response(&[0x01, 0x02, 0x03, 0x04], 16);
    assert_eq!(r.unwrap_err(), Error::SHDLC(HldcError::MissingFirstFend));

    let r: Result<Vec<u8>, TestError> = decode_response(&[0x7e, 0x00, 0x01, 0x00, 0xfe, 0x7e], 16);
    assert_eq!(r.unwrap(), vec![0x00, 0x01, 0x00, 0xfe]);
}

#[test]
fn sync_errors_map_into_protocol_taxonomy() {
    let e: TestError = sync_error_to_error(sps30::read_frame::Error::Eof);
    assert_eq!(e, Error::ReadingEOF);
    let e: TestError = sync_error_to_error(sps30::read_frame::Error::BufferOutOfSpace);
    assert_eq!(e, Error::FrameTooLarge);
}

#[test]
fn from_tx_rx_uninit_keeps_the_halves() {
    let driver: Sps30<16, u8, u16, u32> = Sps30::from_tx_rx_uninit(1u8, 2u16, 3u32);
    assert_eq!(driver.uart_tx, 1);
    assert_eq!(driver.uart_rx, 2);
    assert_eq!(driver.delay, 3);
}

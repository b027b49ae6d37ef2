//! Wire-level SHDLC protocol engine for the Sensirion SPS30 particulate-matter
//! sensor.
//!
//! The sensor speaks a restricted HDLC-style framing protocol over a raw
//! serial byte stream. This crate provides the protocol core: an additive
//! checksum, a byte-stuffing framing codec, a fault-tolerant frame
//! synchronizer, and the request/response frame layer, together with the
//! error taxonomy they surface. The actual serial transport (and the delay
//! source used after a reset) is supplied by the caller.

use vstd::prelude::*;
use vstd::utf8::decode_utf8;
use vstd::utf8::valid_utf8;

pub mod error;
pub mod hldc;
pub mod read_frame;

pub use error::DeviceError;
pub use error::Error;
pub use hldc::Error as HldcError;

verus! {

/// Byte sum of `s`, reduced modulo 256.
pub open spec fn sum_mod_256(s: Seq<u8>) -> int
    decreases s.len(),
{
    if s.len() == 0 {
        0
    } else {
        (sum_mod_256(s.drop_last()) + s.last()) % 256
    }
}

/// The wire checksum of `s`: 255 minus the byte sum of `s` modulo 256.
pub open spec fn checksum_spec(s: Seq<u8>) -> u8 {
    (255 - sum_mod_256(s)) as u8
}

/// Running 8-bit additive checksum over every input byte, complemented:
/// returns `255 - (sum of all bytes mod 256)`. Pure and total; it is used
/// both when building outbound frames (appended as the last byte before the
/// closing boundary marker) and when validating inbound ones (recomputed
/// over everything except the trailing checksum byte).
pub fn checksum(data: &[u8]) -> (r: u8)
    ensures
        r == checksum_spec(data@),
{
    let mut cksum: u8 = 0;
    let mut i: usize = 0;
    while i < data.len()
        invariant
            i <= data@.len(),
            cksum == sum_mod_256(data@.subrange(0, i as int)),
        decreases data@.len() - i,
    {
        let val: u16 = cksum as u16 + data[i] as u16;
        let lsb = val % 256;
        proof {
            assert(data@.subrange(0, i + 1 as int).drop_last() =~= data@.subrange(0, i as int));
            assert(data@.subrange(0, i + 1 as int).last() == data@[i as int]);
        }
        cksum = lsb as u8;
        i += 1;
    }
    proof {
        assert(data@.subrange(0, data@.len() as int) =~= data@);
    }
    255 - cksum
}

/// Recomputing the checksum of the same byte sequence always yields the same
/// value: `checksum_spec` is a pure function of its input and nothing else.
pub proof fn lemma_checksum_deterministic(a: Seq<u8>, b: Seq<u8>)
    requires
        a == b,
    ensures
        checksum_spec(a) == checksum_spec(b),
{
}

/// Largest wire frame the receive path must hold: the measurement response
/// (ten 4-byte values plus header and checksum), with every byte escaped
/// and both boundary markers.
pub const MAX_ENCODED_FRAME_SIZE: usize = 2 * (10 * 4 + 5 + 2);

/// Largest decoded frame the receive path must hold: the measurement
/// response's ten 4-byte values plus header and checksum.
pub const MAX_DECODED_FRAME_SIZE: usize = 10 * 4 + 5 + 2;

/// The device address; the sensor always answers at address zero.
pub const ADDR: u8 = 0;

/// The closed set of command codes the sensor understands. Each tags a
/// request frame and must be echoed back in the matching response.
#[derive(Debug, Clone, Copy, PartialEq, Eq)]
pub enum Command {
    StartMeasurement,
    StopMeasurement,
    ReadMeasuredData,
    /// Read or write the automatic fan-cleaning interval.
    ReadWriteAutoCleaningInterval,
    StartFanCleaning,
    DeviceInformation,
    Reset,
    WakeUp,
}

impl Command {
    /// The documented wire byte of each command.
    pub open spec fn spec_byte(self) -> u8 {
        match self {
            Command::StartMeasurement => 0x00,
            Command::StopMeasurement => 0x01,
            Command::ReadMeasuredData => 0x03,
            Command::ReadWriteAutoCleaningInterval => 0x80,
            Command::StartFanCleaning => 0x56,
            Command::DeviceInformation => 0xd0,
            Command::Reset => 0xd3,
            Command::WakeUp => 0x11,
        }
    }

    /// The wire byte that tags this command in a frame.
    pub fn as_byte(self) -> (r: u8)
        ensures
            r == self.spec_byte(),
    {
        match self {
            Command::StartMeasurement => 0x00,
            Command::StopMeasurement => 0x01,
            Command::ReadMeasuredData => 0x03,
            Command::ReadWriteAutoCleaningInterval => 0x80,
            Command::StartFanCleaning => 0x56,
            Command::DeviceInformation => 0xd0,
            Command::Reset => 0xd3,
            Command::WakeUp => 0x11,
        }
    }
}

/// Appends `src[from..to]` to `dst` byte by byte.
pub(crate) fn append_range(dst: &mut Vec<u8>, src: &[u8], from: usize, to: usize)
    requires
        from <= to <= src@.len(),
    ensures
        final(dst)@ == old(dst)@ + src@.subrange(from as int, to as int),
{
    let mut j = from;
    while j < to
        invariant
            from <= j <= to <= src@.len(),
            dst@ == old(dst)@ + src@.subrange(from as int, j as int),
        decreases to - j,
    {
        dst.push(src[j]);
        proof {
            assert(src@.subrange(from as int, j + 1 as int) =~= src@.subrange(
                from as int,
                j as int,
            ) + seq![src@[j as int]]);
            assert(dst@ =~= old(dst)@ + src@.subrange(from as int, j + 1 as int));
        }
        j += 1;
    }
}

/// The big-endian 32-bit word spanning bytes `4*i .. 4*i + 4` of `data`.
pub open spec fn be_u32_at(data: Seq<u8>, i: int) -> int {
    0x100_0000 * data[4 * i] + 0x1_0000 * data[4 * i + 1] + 0x100 * data[4 * i + 2] + data[4 * i
        + 3]
}

/// Reads the `i`-th of the ten big-endian 32-bit words of a measurement
/// payload.
fn be_u32_word(data: &[u8], i: usize) -> (r: u32)
    requires
        i < 10,
        4 * i + 4 <= data@.len(),
    ensures
        r == be_u32_at(data@, i as int),
{
    let b0 = data[4 * i] as u32;
    let b1 = data[4 * i + 1] as u32;
    let b2 = data[4 * i + 2] as u32;
    let b3 = data[4 * i + 3] as u32;
    b0 * 0x100_0000 + b1 * 0x1_0000 + b2 * 0x100 + b3
}

/// The four big-endian bytes of a 32-bit value, most significant first.
pub open spec fn be_bytes_of_u32(val: u32) -> Seq<u8> {
    seq![
        (val / 0x100_0000) as u8,
        ((val / 0x1_0000) % 0x100) as u8,
        ((val / 0x100) % 0x100) as u8,
        (val % 0x100) as u8,
    ]
}

/// Splits a 32-bit value into its four big-endian bytes.
fn u32_to_be_bytes(val: u32) -> (r: Vec<u8>)
    ensures
        r@ == be_bytes_of_u32(val),
{
    let b0 = (val / 0x100_0000) as u8;
    let b1 = ((val / 0x1_0000) % 0x100) as u8;
    let b2 = ((val / 0x100) % 0x100) as u8;
    let b3 = (val % 0x100) as u8;
    let r = vec![b0, b1, b2, b3];
    proof {
        assert(r@ =~= be_bytes_of_u32(val));
    }
    r
}

/// The payload carried by a measurement response did not hold all ten values.
#[derive(Debug, Clone, PartialEq, Eq)]
pub struct NotEnoughData;

/// One particulate-matter measurement: four mass concentrations, five
/// number concentrations and the typical particle size, in the sensor's
/// fixed order. Each field holds the big-endian 32-bit word the sensor
/// sent, which is the bit pattern of an IEEE-754 single-precision value;
/// turning a pattern into a floating-point number is left to the caller at
/// the system edge.
#[derive(Debug, Clone, Copy, PartialEq, Eq, Structural)]
pub struct Measurement {
    /// Mass concentration PM1.0 \[micrograms per cubic metre\].
    pub mass_pm1_0: u32,
    /// Mass concentration PM2.5 \[micrograms per cubic metre\].
    pub mass_pm2_5: u32,
    /// Mass concentration PM4.0 \[micrograms per cubic metre\].
    pub mass_pm4_0: u32,
    /// Mass concentration PM10 \[micrograms per cubic metre\].
    pub mass_pm10: u32,
    /// Number concentration PM0.5 \[particles per cubic centimetre\].
    pub number_pm0_5: u32,
    /// Number concentration PM1.0 \[particles per cubic centimetre\].
    pub number_pm1_0: u32,
    /// Number concentration PM2.5 \[particles per cubic centimetre\].
    pub number_pm2_5: u32,
    /// Number concentration PM4.0 \[particles per cubic centimetre\].
    pub number_pm4_0: u32,
    /// Number concentration PM10 \[particles per cubic centimetre\].
    pub number_pm10: u32,
    /// Typical particle size \[micrometres\].
    pub typical_particle_size: u32,
}

/// The measurement held in the first forty bytes of `data`: ten big-endian
/// 32-bit words in the sensor's fixed field order.
pub open spec fn measurement_of(data: Seq<u8>) -> Measurement {
    Measurement {
        mass_pm1_0: be_u32_at(data, 0) as u32,
        mass_pm2_5: be_u32_at(data, 1) as u32,
        mass_pm4_0: be_u32_at(data, 2) as u32,
        mass_pm10: be_u32_at(data, 3) as u32,
        number_pm0_5: be_u32_at(data, 4) as u32,
        number_pm1_0: be_u32_at(data, 5) as u32,
        number_pm2_5: be_u32_at(data, 6) as u32,
        number_pm4_0: be_u32_at(data, 7) as u32,
        number_pm10: be_u32_at(data, 8) as u32,
        typical_particle_size: be_u32_at(data, 9) as u32,
    }
}

impl Measurement {
    /// Rebuilds a measurement from a response payload: ten big-endian
    /// 32-bit words back to back. Fails exactly when fewer than forty
    /// bytes arrived; any bytes beyond the tenth word are ignored.
    pub fn from_data(data: &[u8]) -> (r: Result<Measurement, NotEnoughData>)
        ensures
            data@.len() >= 40 ==> r == Ok::<Measurement, NotEnoughData>(measurement_of(data@)),
            data@.len() < 40 ==> r == Err::<Measurement, NotEnoughData>(NotEnoughData),
    {
        if data.len() < 40 {
            return Err(NotEnoughData);
        }
        Ok(
            Measurement {
                mass_pm1_0: be_u32_word(data, 0),
                mass_pm2_5: be_u32_word(data, 1),
                mass_pm4_0: be_u32_word(data, 2),
                mass_pm10: be_u32_word(data, 3),
                number_pm0_5: be_u32_word(data, 4),
                number_pm1_0: be_u32_word(data, 5),
                number_pm2_5: be_u32_word(data, 6),
                number_pm4_0: be_u32_word(data, 7),
                number_pm10: be_u32_word(data, 8),
                typical_particle_size: be_u32_word(data, 9),
            },
        )
    }
}

/// The assembled request frame for `cmd` with payload `data`: address,
/// command byte, data length, the data itself, and the checksum over every
/// preceding byte.
pub open spec fn request_frame(cmd: Command, data: Seq<u8>) -> Seq<u8>
    recommends
        data.len() <= 255,
{
    let head = seq![ADDR, cmd.spec_byte(), data.len() as u8] + data;
    head + seq![checksum_spec(head)]
}

/// Assembles a request frame whose payload fits the one-byte length field.
fn assemble_request(cmd: Command, data: &[u8]) -> (r: Vec<u8>)
    requires
        data@.len() <= 255,
    ensures
        r@ == request_frame(cmd, data@),
{
    let mut out: Vec<u8> = Vec::new();
    out.push(ADDR);
    out.push(cmd.as_byte());
    out.push(data.len() as u8);
    append_range(&mut out, data, 0, data.len());
    proof {
        assert(data@.subrange(0, data@.len() as int) =~= data@);
        assert(out@ =~= seq![ADDR, cmd.spec_byte(), data@.len() as u8] + data@);
    }
    let check = checksum(out.as_slice());
    out.push(check);
    proof {
        assert(out@ =~= request_frame(cmd, data@));
    }
    out
}

/// Builds the request frame for `cmd` carrying `data`, as
/// [`request_frame`] lays it out. Fails with `FrameTooLarge` exactly when
/// the payload cannot be length-prefixed in one byte or the five framing
/// bytes plus the payload outgrow `max_frame_size`.
pub fn build_request<TxError, RxError>(cmd: Command, data: &[u8], max_frame_size: usize) -> (r:
    Result<Vec<u8>, Error<TxError, RxError>>)
    ensures
        data@.len() <= 255 && data@.len() + 5 <= max_frame_size ==> (r matches Ok(v) && v@
            == request_frame(cmd, data@)),
        !(data@.len() <= 255 && data@.len() + 5 <= max_frame_size) ==> r == Err::<
            Vec<u8>,
            Error<TxError, RxError>,
        >(Error::FrameTooLarge),
{
    if data.len() > 255 || max_frame_size < 5 || data.len() > max_frame_size - 5 {
        return Err(Error::FrameTooLarge);
    }
    Ok(assemble_request(cmd, data))
}

/// The meaning of response validation: the data section of a structurally
/// sound, checksum-correct response to `cmd`, or the first failure in the
/// order the checks run. The checksum is compared before any field is
/// interpreted, so no decision is ever made on corrupted bytes; the
/// command echo is compared before the state byte, so a device error is
/// never reported out of an unrelated response.
pub open spec fn parse_response_spec<TxError, RxError>(frame: Seq<u8>, cmd: Command) -> Result<
    Seq<u8>,
    Error<TxError, RxError>,
> {
    if frame.len() < 5 {
        Err(Error::InvalidResponse)
    } else if frame[0] != ADDR {
        Err(Error::InvalidResponse)
    } else if frame[frame.len() - 1] != checksum_spec(frame.subrange(0, frame.len() - 1)) {
        Err(Error::ChecksumFailed)
    } else if frame[1] != cmd.spec_byte() {
        Err(Error::InvalidResponse)
    } else if frame[2] != 0 {
        Err(Error::DeviceError(error::device_error_of(frame[2])))
    } else if frame[3] as int != frame.len() - 5 {
        Err(Error::InvalidResponse)
    } else {
        Ok(frame.subrange(4, frame.len() - 1))
    }
}

/// Validates a decoded response frame against the layout
/// `ADDR | CMD | STATE | LENGTH | DATA | CHK` and returns a borrowed view
/// of its data section.
///
/// The checks run in a fixed order, each with its own error: structural
/// shape and address, checksum, command echo, device-reported state,
/// length consistency — exactly [`parse_response_spec`].
pub fn parse_miso_frame<'a, TxError, RxError>(frame: &'a [u8], cmd_type: Command) -> (r: Result<
    &'a [u8],
    Error<TxError, RxError>,
>)
    ensures
        ({
            let s = parse_response_spec::<TxError, RxError>(frame@, cmd_type);
            match r {
                Ok(d) => s is Ok && d@ == s->Ok_0,
                Err(e) => s is Err && e == s->Err_0,
            }
        }),
{
    if frame.len() < 5 {
        return Err(Error::InvalidResponse);
    }
    if frame[0] != ADDR {
        return Err(Error::InvalidResponse);
    }
    let without_checksum = &frame[0..frame.len() - 1];
    let check = checksum(without_checksum);
    if frame[frame.len() - 1] != check {
        return Err(Error::ChecksumFailed);
    }
    if frame[1] != cmd_type.as_byte() {
        return Err(Error::InvalidResponse);
    }
    let state = frame[2];
    if state != 0 {
        return Err(Error::DeviceError(DeviceError::from(state)));
    }
    if frame[3] as usize != frame.len() - 5 {
        return Err(Error::InvalidResponse);
    }
    Ok(&frame[4..frame.len() - 1])
}

/// Validates a decoded response frame as [`parse_miso_frame`] does and
/// discards the data section; for commands whose response carries none.
pub fn check_miso_frame<TxError, RxError>(frame: &[u8], cmd_type: Command) -> (r: Result<
    (),
    Error<TxError, RxError>,
>)
    ensures
        ({
            let s = parse_response_spec::<TxError, RxError>(frame@, cmd_type);
            match r {
                Ok(u) => s is Ok,
                Err(e) => s is Err && e == s->Err_0,
            }
        }),
{
    match parse_miso_frame(frame, cmd_type) {
        Ok(_) => Ok(()),
        Err(e) => Err(e),
    }
}

/// Request frame that wakes the sensor from sleep mode.
pub fn wake_up_request() -> (r: Vec<u8>)
    ensures
        r@ == request_frame(Command::WakeUp, Seq::<u8>::empty()),
{
    let data: Vec<u8> = Vec::new();
    assemble_request(Command::WakeUp, data.as_slice())
}

/// Request frame that starts measurement mode, asking for the
/// floating-point output format.
pub fn start_measurement_request() -> (r: Vec<u8>)
    ensures
        r@ == request_frame(Command::StartMeasurement, seq![0x01u8, 0x03u8]),
{
    let data = vec![0x01u8, 0x03u8];
    proof {
        assert(data@ =~= seq![0x01u8, 0x03u8]);
    }
    assemble_request(Command::StartMeasurement, data.as_slice())
}

/// Request frame that stops measurement mode.
pub fn stop_measurement_request() -> (r: Vec<u8>)
    ensures
        r@ == request_frame(Command::StopMeasurement, Seq::<u8>::empty()),
{
    let data: Vec<u8> = Vec::new();
    assemble_request(Command::StopMeasurement, data.as_slice())
}

/// Request frame that asks for the latest measured data.
pub fn read_measurement_request() -> (r: Vec<u8>)
    ensures
        r@ == request_frame(Command::ReadMeasuredData, Seq::<u8>::empty()),
{
    let data: Vec<u8> = Vec::new();
    assemble_request(Command::ReadMeasuredData, data.as_slice())
}

/// Request frame that reads the automatic fan-cleaning interval.
pub fn read_cleaning_interval_request() -> (r: Vec<u8>)
    ensures
        r@ == request_frame(Command::ReadWriteAutoCleaningInterval, seq![0x00u8]),
{
    let data = vec![0x00u8];
    proof {
        assert(data@ =~= seq![0x00u8]);
    }
    assemble_request(Command::ReadWriteAutoCleaningInterval, data.as_slice())
}

/// Request frame that writes the automatic fan-cleaning interval, in
/// seconds, as a big-endian 32-bit value.
pub fn write_cleaning_interval_request(val: u32) -> (r: Vec<u8>)
    ensures
        r@ == request_frame(
            Command::ReadWriteAutoCleaningInterval,
            seq![0x05u8] + be_bytes_of_u32(val),
        ),
{
    let bytes = u32_to_be_bytes(val);
    let mut data: Vec<u8> = Vec::new();
    data.push(0x05);
    append_range(&mut data, bytes.as_slice(), 0, bytes.len());
    proof {
        assert(bytes@.subrange(0, bytes@.len() as int) =~= bytes@);
        assert(data@ =~= seq![0x05u8] + be_bytes_of_u32(val));
    }
    assemble_request(Command::ReadWriteAutoCleaningInterval, data.as_slice())
}

/// Request frame that starts a manual fan-cleaning cycle.
pub fn start_fan_cleaning_request() -> (r: Vec<u8>)
    ensures
        r@ == request_frame(Command::StartFanCleaning, Seq::<u8>::empty()),
{
    let data: Vec<u8> = Vec::new();
    assemble_request(Command::StartFanCleaning, data.as_slice())
}

/// Request frame that asks for the serial number, through the device
/// information command.
pub fn serial_number_request() -> (r: Vec<u8>)
    ensures
        r@ == request_frame(Command::DeviceInformation, seq![0x03u8]),
{
    let data = vec![0x03u8];
    proof {
        assert(data@ =~= seq![0x03u8]);
    }
    assemble_request(Command::DeviceInformation, data.as_slice())
}

/// Request frame that resets the device.
pub fn reset_request() -> (r: Vec<u8>)
    ensures
        r@ == request_frame(Command::Reset, Seq::<u8>::empty()),
{
    let data: Vec<u8> = Vec::new();
    assemble_request(Command::Reset, data.as_slice())
}

/// Validates a measurement response and rebuilds the [`Measurement`] from
/// its data section; a payload under forty bytes fails with
/// `MeasurementDataTooShort`.
pub fn read_measurement_response<TxError, RxError>(frame: &[u8]) -> (r: Result<
    Measurement,
    Error<TxError, RxError>,
>)
    ensures
        ({
            let s = parse_response_spec::<TxError, RxError>(frame@, Command::ReadMeasuredData);
            match r {
                Ok(m) => s is Ok && s->Ok_0.len() >= 40 && m == measurement_of(s->Ok_0),
                Err(e) => (s is Err && e == s->Err_0) || (s is Ok && s->Ok_0.len() < 40 && e
                    == Error::<TxError, RxError>::MeasurementDataTooShort),
            }
        }),
{
    let data = match parse_miso_frame::<TxError, RxError>(frame, Command::ReadMeasuredData) {
        Ok(d) => d,
        Err(e) => {
            return Err(e);
        },
    };
    match Measurement::from_data(data) {
        Ok(m) => Ok(m),
        Err(_) => Err(Error::MeasurementDataTooShort),
    }
}

/// Validates a cleaning-interval response and reads the interval: exactly
/// four data bytes, big-endian; any other length fails with
/// `CleaningIntervalDataTooShort`.
pub fn read_cleaning_interval_response<TxError, RxError>(frame: &[u8]) -> (r: Result<
    u32,
    Error<TxError, RxError>,
>)
    ensures
        ({
            let s = parse_response_spec::<TxError, RxError>(
                frame@,
                Command::ReadWriteAutoCleaningInterval,
            );
            match r {
                Ok(v) => s is Ok && s->Ok_0.len() == 4 && v == be_u32_at(s->Ok_0, 0),
                Err(e) => (s is Err && e == s->Err_0) || (s is Ok && s->Ok_0.len() != 4 && e
                    == Error::<TxError, RxError>::CleaningIntervalDataTooShort),
            }
        }),
{
    let data = match parse_miso_frame::<TxError, RxError>(
        frame,
        Command::ReadWriteAutoCleaningInterval,
    ) {
        Ok(d) => d,
        Err(e) => {
            return Err(e);
        },
    };
    if data.len() != 4 {
        return Err(Error::CleaningIntervalDataTooShort);
    }
    Ok(be_u32_word(data, 0))
}

/// Validates the acknowledgement of a cleaning-interval write: a sound
/// response whose length field is non-zero is still rejected, since the
/// acknowledgement must carry no data.
pub fn write_cleaning_interval_response<TxError, RxError>(frame: &[u8]) -> (r: Result<
    (),
    Error<TxError, RxError>,
>)
    ensures
        ({
            let s = parse_response_spec::<TxError, RxError>(
                frame@,
                Command::ReadWriteAutoCleaningInterval,
            );
            match r {
                Ok(u) => s is Ok && frame@[3] == 0,
                Err(e) => (s is Err && e == s->Err_0) || (s is Ok && frame@[3] != 0 && e
                    == Error::<TxError, RxError>::InvalidResponse),
            }
        }),
{
    match check_miso_frame::<TxError, RxError>(frame, Command::ReadWriteAutoCleaningInterval) {
        Ok(_) => (),
        Err(e) => {
            return Err(e);
        },
    }
    if frame[3] != 0 {
        Err(Error::InvalidResponse)
    } else {
        Ok(())
    }
}

/// Relies on std's `String::from_utf8` to validate and decode the
/// serial-number payload: it succeeds exactly on valid UTF-8 input and
/// returns the decoded characters, as vstd's UTF-8 model states.
#[verifier::external_body]
fn string_from_utf8(bytes: Vec<u8>) -> (r: Option<String>)
    ensures
        r is Some <==> valid_utf8(bytes@),
        r matches Some(s) ==> s@ == decode_utf8(bytes@),
{
    String::from_utf8(bytes).ok()
}

/// Validates a device-information response and returns the serial number
/// it carries: at most 32 bytes of UTF-8 text. More data fails with
/// `FrameTooLarge`; bytes that are not UTF-8 fail with
/// `SerialInvalidUtf8`.
pub fn serial_number_response<TxError, RxError>(frame: &[u8]) -> (r: Result<
    String,
    Error<TxError, RxError>,
>)
    ensures
        ({
            let s = parse_response_spec::<TxError, RxError>(frame@, Command::DeviceInformation);
            match r {
                Ok(text) => s is Ok && s->Ok_0.len() <= 32 && valid_utf8(s->Ok_0) && text@
                    == decode_utf8(s->Ok_0),
                Err(e) => (s is Err && e == s->Err_0) || (s is Ok && s->Ok_0.len() > 32 && e
                    == Error::<TxError, RxError>::FrameTooLarge) || (s is Ok && s->Ok_0.len() <= 32
                    && !valid_utf8(s->Ok_0) && e == Error::<TxError, RxError>::SerialInvalidUtf8),
            }
        }),
{
    let data = match parse_miso_frame::<TxError, RxError>(frame, Command::DeviceInformation) {
        Ok(d) => d,
        Err(e) => {
            return Err(e);
        },
    };
    if data.len() > 32 {
        return Err(Error::FrameTooLarge);
    }
    let mut serial: Vec<u8> = Vec::new();
    append_range(&mut serial, data, 0, data.len());
    proof {
        assert(serial@ =~= data@);
    }
    match string_from_utf8(serial) {
        Some(text) => Ok(text),
        None => Err(Error::SerialInvalidUtf8),
    }
}

/// Decodes a received wire frame and lifts any codec failure into the
/// protocol error taxonomy.
pub fn decode_response<TxError, RxError>(frame: &[u8], max_decoded_size: usize) -> (r: Result<
    Vec<u8>,
    Error<TxError, RxError>,
>)
    ensures
        ({
            let s = hldc::decoded_frame(frame@, max_decoded_size as int);
            match r {
                Ok(v) => s is Ok && v@ == s->Ok_0,
                Err(e) => s is Err && e == Error::<TxError, RxError>::SHDLC(s->Err_0),
            }
        }),
{
    match hldc::decode(frame, max_decoded_size) {
        Ok(v) => Ok(v),
        Err(e) => Err(Error::SHDLC(e)),
    }
}

/// Lifts a synchronizer failure into the protocol error taxonomy: end of
/// stream becomes `ReadingEOF`, an overgrown frame `FrameTooLarge`.
pub fn sync_error_to_error<TxError, RxError>(e: read_frame::Error) -> (r: Error<TxError, RxError>)
    ensures
        e == read_frame::Error::Eof ==> r == Error::<TxError, RxError>::ReadingEOF,
        e == read_frame::Error::BufferOutOfSpace ==> r == Error::<
            TxError,
            RxError,
        >::FrameTooLarge,
{
    match e {
        read_frame::Error::Eof => Error::ReadingEOF,
        read_frame::Error::BufferOutOfSpace => Error::FrameTooLarge,
    }
}

/// Sps30 driver handle: the two halves of the serial device and the delay
/// source used for the fixed post-reset wait. The protocol engine issues
/// one request at a time through these; all framing state lives in the
/// call in progress, never here, so any operation is safe to abandon.
pub struct Sps30<const UART_BUF: usize, Tx, Rx, D> {
    /// The transmit half of the serial device.
    pub uart_tx: Tx,
    /// The receive half of the serial device.
    pub uart_rx: Rx,
    /// The delay provider.
    pub delay: D,
}

impl<const UART_BUF: usize, Tx, Rx, D> Sps30<UART_BUF, Tx, Rx, D> {
    /// Constructs the interface from the two halves of a UART without
    /// touching the device. The caller still has to reset the device and
    /// start measurements.
    pub fn from_tx_rx_uninit(uart_tx: Tx, uart_rx: Rx, delay: D) -> (r: Sps30<UART_BUF, Tx, Rx, D>)
        ensures
            r.uart_tx == uart_tx,
            r.uart_rx == uart_rx,
            r.delay == delay,
    {
        Sps30 { uart_tx, uart_rx, delay }
    }
}

} // verus!

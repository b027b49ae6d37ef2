//! Error taxonomy of the protocol engine.
//!
//! Three layers are kept apart and never conflated: transport failures
//! (read, write, end of stream), framing failures (the codec's own
//! [`crate::hldc::Error`] and the synchronizer's buffer limit), and
//! protocol failures (checksum, command echo, device-reported state,
//! length consistency, payload shape).

use vstd::prelude::*;

verus! {

/// Error reported by the sensor itself through the state byte of a
/// response frame.
#[derive(Debug, Clone, PartialEq, Eq)]
pub enum DeviceError {
    /// Wrong data length for the last command: too much or too little data.
    WrongDataLen,
    /// Unknown command.
    UnknownCmd,
    /// No access right for the command.
    NoAccess,
    /// Illegal command parameter or parameter out of the allowed range.
    InvalidParam,
    /// Internal function argument out of range.
    InternalOutOfRange,
    /// Command not allowed in the current state.
    InvalidStateForCommand,
    /// Undocumented error code.
    Unknown,
}

/// The documented mapping from a state byte to the error it reports; every
/// code outside the documented set falls to `DeviceError::Unknown`.
pub open spec fn device_error_of(code: u8) -> DeviceError {
    if code == 1 {
        DeviceError::WrongDataLen
    } else if code == 2 {
        DeviceError::UnknownCmd
    } else if code == 3 {
        DeviceError::NoAccess
    } else if code == 4 {
        DeviceError::InvalidParam
    } else if code == 40 {
        DeviceError::InternalOutOfRange
    } else if code == 67 {
        DeviceError::InvalidStateForCommand
    } else {
        DeviceError::Unknown
    }
}

impl From<u8> for DeviceError {
    /// Decodes a non-zero state byte into the device error it names.
    fn from(error_code: u8) -> (r: Self) {
        match error_code {
            1 => Self::WrongDataLen,
            2 => Self::UnknownCmd,
            3 => Self::NoAccess,
            4 => Self::InvalidParam,
            40 => Self::InternalOutOfRange,
            67 => Self::InvalidStateForCommand,
            _ => Self::Unknown,
        }
    }
}

impl vstd::std_specs::convert::FromSpecImpl<u8> for DeviceError {
    open spec fn obeys_from_spec() -> bool {
        true
    }

    open spec fn from_spec(code: u8) -> Self {
        device_error_of(code)
    }
}

/// Every failure the protocol engine can surface, tagged by layer. The
/// transport's own error values are threaded through as the `TxError` and
/// `RxError` type parameters, keeping the taxonomy decoupled from any
/// specific transport implementation.
#[derive(Debug, Clone, PartialEq, Eq)]
pub enum Error<TxError, RxError> {
    /// Serial bus read error.
    SerialR(RxError),
    /// Serial bus write error.
    SerialW(TxError),
    /// SHDLC framing codec error.
    SHDLC(crate::hldc::Error),
    /// The device returned an error through the state byte.
    DeviceError(DeviceError),
    /// Could not clear the receive buffer; ran into a read error.
    ClearingRxBuffer(RxError),
    /// No valid frame read: far more bytes went by than any frame may span
    /// without a boundary marker showing up.
    InvalidFrame,
    /// The result is empty.
    EmptyResult,
    /// The recomputed checksum disagrees with the frame's trailing checksum
    /// byte.
    ChecksumFailed,
    /// The response is malformed, or belongs to another command than the
    /// one sent.
    InvalidResponse,
    /// The data sent in response to a measurement read is too short.
    MeasurementDataTooShort,
    /// The data sent as the cleaning interval is too short.
    CleaningIntervalDataTooShort,
    /// The serial number should be UTF-8 text but is not.
    SerialInvalidUtf8,
    /// Unexpected end of stream; is the serial line disconnected?
    ReadingEOF,
    /// The frame is too large for the caller-chosen buffer capacity.
    FrameTooLarge,
    /// The frame is too short to carry the fixed header and footer.
    FrameTooShort,
    /// The sensor did not have a measurement ready in time.
    NoMeasurementsToRead,
    /// The command field of the response held an unknown value.
    InvalidCommand { command_code: u8 },
    /// The frame's length field does not match the actual length of its
    /// data section.
    DataLengthMissMatch,
}

} // verus!

//! The status and error vocabularies shared by both ends of the bus.

use vstd::prelude::*;

verus! {

/// Why a transport could not carry a frame.
#[derive(Debug, PartialEq, Eq, Clone, Copy, Structural)]
pub enum BusError {
    Unknown,
    BadParameter,
    BusError,
}

/// How a controller-side exchange ended when it did not yield a response.
#[derive(Debug, PartialEq, Eq, Clone, Copy, Structural)]
pub enum BusStatus {
    Good,
    Busy,
    /// The transport failed, or there was nothing to send.
    Error,
    /// The transport delivered a payload that does not fit the command.
    DataErr,
}

/// Why response bytes could not be turned into names, type tags or values.
#[derive(Debug, PartialEq, Eq, Clone, Copy, Structural)]
pub enum DecodeError {
    /// The bytes are not valid UTF-8 text.
    InvalidUtf8,
    /// A token names no field type.
    UnknownTypeTag,
    /// The raw bytes end before the last field does.
    BufferUnderrun,
    /// The numbers of names, type tags and encoded fields do not agree.
    FieldCountMismatch,
}

/// The state that a sensor module reports in one byte.
#[derive(Debug, PartialEq, Eq, Clone, Copy, Structural)]
pub enum SensorStatus {
    Ready,
    Busy,
    SensorFailure,
    PowerFailure,
    BusFailure,
    TempertureWarning,
    VoltageWarning,
}

impl SensorStatus {
    /// The byte that stands for this status on the wire.
    pub open spec fn code(self) -> u8 {
        match self {
            SensorStatus::Ready => 0,
            SensorStatus::Busy => 1,
            SensorStatus::SensorFailure => 2,
            SensorStatus::PowerFailure => 3,
            SensorStatus::BusFailure => 4,
            SensorStatus::TempertureWarning => 5,
            SensorStatus::VoltageWarning => 6,
        }
    }

    /// The byte that stands for this status on the wire.
    pub fn to_byte(&self) -> (byte: u8)
        ensures
            byte == self.code(),
    {
        match self {
            SensorStatus::Ready => 0,
            SensorStatus::Busy => 1,
            SensorStatus::SensorFailure => 2,
            SensorStatus::PowerFailure => 3,
            SensorStatus::BusFailure => 4,
            SensorStatus::TempertureWarning => 5,
            SensorStatus::VoltageWarning => 6,
        }
    }
}

} // verus!

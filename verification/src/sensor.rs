//! What the responder asks of a sensor: its name, its status, a soft reset,
//! the type tags and names of its fields, and the fields themselves.

use crate::status::SensorStatus;
use vstd::prelude::*;

verus! {

/// The largest number of bytes that one field takes.
pub const MAX_DATA: usize = 4;

/// The bytes of one field as a sensor hands them out: the first `size` bytes
/// of `data`.
#[derive(Debug, Clone, Copy)]
pub struct SensorData {
    pub data: [u8; 4],
    pub size: usize,
}

impl SensorData {
    /// The bytes of the field.
    pub open spec fn bytes(self) -> Seq<u8> {
        self.data@.take(self.size as int)
    }
}

/// A sensor behind a responder.
///
/// Each method's contract names what the call returned as a function of the
/// sensor: of the sensor as it is for a method that only looks, of the
/// sensor as the call left it for one that acts. None promises more of a
/// sensor than that, except that a field fits in `MAX_DATA` bytes.
///
/// A sensor that is to be verified says what these functions are. Their
/// bodies below leave them open, so that a sensor written without the
/// verifier need not name them.
pub trait SensorInterface {
    /// The sensor's name.
    open spec fn name(&self) -> Seq<char> {
        arbitrary()
    }

    /// The status that the module is in.
    open spec fn status(&self) -> SensorStatus {
        arbitrary()
    }

    /// The status that the last soft reset reported.
    open spec fn reset_status(&self) -> SensorStatus {
        arbitrary()
    }

    /// The type tag of each field, in the order of the fields.
    open spec fn format(&self) -> Seq<Seq<char>> {
        arbitrary()
    }

    /// The name of each field, in the order of the fields.
    open spec fn data_names(&self) -> Seq<Seq<char>> {
        arbitrary()
    }

    /// What the last reading of the field with index `idx` returned.
    open spec fn reading(&self, idx: u8) -> SensorData {
        arbitrary()
    }

    fn get_name(&self) -> (name: &'static str)
        ensures
            name@ == self.name(),
    ;

    fn get_status(&self) -> (status: SensorStatus)
        ensures
            status == self.status(),
    ;

    fn soft_reset(&mut self) -> (status: SensorStatus)
        ensures
            status == final(self).reset_status(),
    ;

    fn get_format(&self) -> (tags: Vec<String>)
        ensures
            tags.deep_view() == self.format(),
    ;

    fn get_data_names(&self) -> (names: Vec<String>)
        ensures
            names.deep_view() == self.data_names(),
    ;

    fn read_sensor(&mut self, idx: u8) -> (data: &SensorData)
        ensures
            *data == final(self).reading(idx),
            data.size <= MAX_DATA,
    ;
}

} // verus!

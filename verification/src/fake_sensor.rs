//! A sensor that needs no hardware: it answers from what it was built with.

use crate::field::DataType;
use crate::sensor::{SensorData, SensorInterface};
use crate::status::SensorStatus;
use vstd::prelude::*;

verus! {

/// The number of fields that the example sensor has.
pub const NUM_TYPES: usize = 3;

/// The name that the example sensor usually goes by.
pub const SENSOR_NAME: &'static str = "Fakesensor";

/// A sensor with three fields that always yields the same bytes.
///
/// It is always `Ready`, and a soft reset always leaves it `Busy`. Reading
/// a field hands out the bytes in `data`, cut to the width of the field's
/// type.
pub struct ExampleSensor {
    pub sensor_name: &'static str,
    /// The type tag of each field.
    pub data_types: [&'static str; 3],
    /// The name of each field.
    pub data_names: [&'static str; 3],
    /// The bytes that every reading starts with, and the size of the field
    /// read last.
    pub data: SensorData,
}

/// The strings in `items`, in order.
pub open spec fn texts(items: [&'static str; 3]) -> Seq<Seq<char>> {
    Seq::new(3, |i: int| items[i]@)
}

/// Copies the three strings into a vector.
fn owned(items: &[&'static str; 3]) -> (list: Vec<String>)
    ensures
        list.deep_view() == texts(*items),
{
    let mut list: Vec<String> = Vec::new();
    let mut i: usize = 0;
    while i < NUM_TYPES
        invariant
            i <= NUM_TYPES,
            list@.len() == i,
            forall|j: int| 0 <= j < i ==> (#[trigger] list@[j])@ == items[j]@,
        decreases NUM_TYPES - i,
    {
        list.push(items[i].to_owned());
        i += 1;
    }
    assert(list.deep_view() =~= texts(*items));
    list
}

impl ExampleSensor {
    /// The number of bytes that the field with index `idx` takes: the width
    /// of the type that its tag names. It is 0 where there is no such field
    /// or its tag names no type.
    pub open spec fn field_size(&self, idx: u8) -> nat {
        if idx < NUM_TYPES {
            match DataType::named(self.data_types[idx as int]@) {
                Some(tag) => tag.width(),
                None => 0,
            }
        } else {
            0
        }
    }
}

impl SensorInterface for ExampleSensor {
    open spec fn name(&self) -> Seq<char> {
        self.sensor_name@
    }

    open spec fn status(&self) -> SensorStatus {
        SensorStatus::Ready
    }

    open spec fn reset_status(&self) -> SensorStatus {
        SensorStatus::Busy
    }

    open spec fn format(&self) -> Seq<Seq<char>> {
        texts(self.data_types)
    }

    open spec fn data_names(&self) -> Seq<Seq<char>> {
        texts(self.data_names)
    }

    open spec fn reading(&self, idx: u8) -> SensorData {
        SensorData { data: self.data.data, size: self.field_size(idx) as usize }
    }

    fn get_name(&self) -> (name: &'static str) {
        self.sensor_name
    }

    fn get_status(&self) -> (status: SensorStatus) {
        SensorStatus::Ready
    }

    fn soft_reset(&mut self) -> (status: SensorStatus)
        ensures
            *final(self) == *old(self),
    {
        SensorStatus::Busy
    }

    fn get_format(&self) -> (tags: Vec<String>) {
        owned(&self.data_types)
    }

    fn get_data_names(&self) -> (names: Vec<String>) {
        owned(&self.data_names)
    }

    fn read_sensor(&mut self, idx: u8) -> (data: &SensorData)
        ensures
            *final(self) == (ExampleSensor { data: old(self).reading(idx), ..*old(self) }),
    {
        let size = if (idx as usize) < NUM_TYPES {
            match DataType::of_name(self.data_types[idx as usize]) {
                Some(tag) => tag.size(),
                None => 0,
            }
        } else {
            0
        };
        self.data.size = size;
        &self.data
    }
}

} // verus!

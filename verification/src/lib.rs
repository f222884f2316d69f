//! A command and response protocol between a controller and sensor modules
//! on a byte-oriented bus.
//!
//! The controller issues one command at a time with `send_bus_command` and
//! gets a `CmdReturn` back. A sensor module serves one request at a time
//! with `handle_bus_command`, which asks a `SensorInterface` for what the
//! request is about. Both talk through a `Bus`.

pub mod bus;
pub mod cmd_return;
pub mod command;
pub mod controller;
pub mod fake_bus;
pub mod fake_sensor;
pub mod field;
pub mod handler;
pub mod sensor;
pub mod status;
pub mod text;

pub use bus::{Bus, BusEvent};
pub use cmd_return::{CmdReturn, Response};
pub use command::ControllerCommand;
pub use controller::{decode_response, encode_command, send_bus_command, CONTROLLER_ID};
pub use fake_bus::{FakeBus, FakeBusView};
pub use fake_sensor::{ExampleSensor, NUM_TYPES, SENSOR_NAME};
pub use field::{
    bytes_to_i16, bytes_to_i32, bytes_to_u16, bytes_to_u32, decode_fields, encode_fields,
    DataType, FieldValue,
};
pub use handler::handle_bus_command;
pub use sensor::{SensorData, SensorInterface, MAX_DATA};
pub use status::{BusError, BusStatus, DecodeError, SensorStatus};

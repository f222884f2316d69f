use sensor_bus::{ExampleSensor, FakeBus, SensorData, SensorInterface, SensorStatus, SENSOR_NAME};

#[allow(dead_code)]
struct TestData {
    sens: ExampleSensor,
    bus: FakeBus,
}

fn setup() -> TestData {
    let sd = SensorData { data: [0x0F, 0xAA, 0x00, 0x55], size: 4 };

    let fake_sensor = ExampleSensor {
        sensor_name: SENSOR_NAME,
        data_types: ["u8", "u16", "u16"],
        data_names: ["Status", "Temp", "Humid"],
        data: sd,
    };

    let fake_bus = FakeBus::new();

    TestData { sens: fake_sensor, bus: fake_bus }
}

#[test]
fn fake_sensor_check_self() {
    assert!(true);
}

#[test]
fn test_read_data() {
    let mut td = setup();

    td.sens.read_sensor(1);
    assert!(td.sens.data.size == 2);

    td.sens.read_sensor(0);
    assert!(td.sens.data.size == 1);

    td.sens.read_sensor(2);
    assert!(td.sens.data.size == 2);
}

#[test]
fn example_sensor_answers_from_its_fields() {
    let mut td = setup();
    assert_eq!(td.sens.get_name(), "Fakesensor");
    assert_eq!(td.sens.get_status(), SensorStatus::Ready);
    assert_eq!(td.sens.soft_reset(), SensorStatus::Busy);
    assert_eq!(td.sens.get_status(), SensorStatus::Ready);
    assert_eq!(td.sens.get_format(), vec!["u8", "u16", "u16"]);
    assert_eq!(td.sens.get_data_names(), vec!["Status", "Temp", "Humid"]);
}

#[test]
fn read_sensor_hands_out_the_same_bytes() {
    let mut td = setup();
    let reading = *td.sens.read_sensor(2);
    assert_eq!(reading.data, [0x0F, 0xAA, 0x00, 0x55]);
    assert_eq!(reading.size, 2);
}

#[test]
fn read_sensor_sizes_by_type() {
    let mut td = setup();
    td.sens.data_types = ["i8", "i16", "u32"];
    assert_eq!(td.sens.read_sensor(0).size, 1);
    assert_eq!(td.sens.read_sensor(1).size, 2);
    assert_eq!(td.sens.read_sensor(2).size, 4);
    td.sens.data_types = ["i32", "f32", "u64"];
    assert_eq!(td.sens.read_sensor(0).size, 4);
    assert_eq!(td.sens.read_sensor(1).size, 4);
    assert_eq!(td.sens.read_sensor(2).size, 0);
}

#[test]
fn read_sensor_without_such_a_field_is_empty() {
    let mut td = setup();
    assert_eq!(td.sens.read_sensor(3).size, 0);
    assert_eq!(td.sens.read_sensor(255).size, 0);
    assert_eq!(td.sens.data.data, [0x0F, 0xAA, 0x00, 0x55]);
}

#[test]
fn status_codes() {
    assert_eq!(SensorStatus::Ready.to_byte(), 0);
    assert_eq!(SensorStatus::Busy.to_byte(), 1);
    assert_eq!(SensorStatus::SensorFailure.to_byte(), 2);
    assert_eq!(SensorStatus::PowerFailure.to_byte(), 3);
    assert_eq!(SensorStatus::BusFailure.to_byte(), 4);
    assert_eq!(SensorStatus::TempertureWarning.to_byte(), 5);
    assert_eq!(SensorStatus::VoltageWarning.to_byte(), 6);
    assert_eq!(SensorStatus::VoltageWarning as u8, 6);
}

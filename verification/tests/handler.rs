use sensor_bus::{
    handle_bus_command, Bus, BusError, ControllerCommand, ExampleSensor, FakeBus, SensorData,
    SensorInterface, SENSOR_NAME,
};

#[allow(dead_code)]
struct TestData {
    sens: ExampleSensor,
    bus: FakeBus,
}

fn setup() -> TestData {
    let sd = SensorData { data: [0xAA, 0x55, 0x00, 0x55], size: 4 };

    let fake_sensor = ExampleSensor {
        sensor_name: SENSOR_NAME,
        data_types: ["u8", "u16", "u16"],
        data_names: ["Status", "Temp", "Humid"],
        data: sd,
    };

    let fake_bus = FakeBus::new();

    let mut td = TestData { sens: fake_sensor, bus: fake_bus };
    td.bus.set_auto_response(true);
    td
}

#[test]
fn handler_check_self() {
    assert!(true);
}

#[test]
fn name_handler() {
    let mut td = setup();
    let slv_id: u32 = 0x01;

    let data: Vec<u8> = vec![ControllerCommand::NameRequest as u8];
    assert!(td.bus.set_rmsg_data(&data).is_ok());

    assert!(handle_bus_command(slv_id, &mut td.bus, &mut td.sens).is_ok());

    assert_eq!(td.bus.spy_data(), td.sens.sensor_name.as_bytes());
}

#[test]
fn status_handler() {
    let mut td = setup();
    let slv_id: u32 = 0x01;

    let data: Vec<u8> = vec![ControllerCommand::StatusRequest as u8];
    assert!(td.bus.set_rmsg_data(&data).is_ok());

    assert!(handle_bus_command(slv_id, &mut td.bus, &mut td.sens).is_ok());

    assert_eq!(td.bus.spy_data()[0], td.sens.get_status() as u8);
}

#[test]
fn reset_handler() {
    let mut td = setup();
    let slv_id: u32 = 0x01;

    let data: Vec<u8> = vec![ControllerCommand::ResetRequest as u8];
    assert!(td.bus.set_rmsg_data(&data).is_ok());

    assert!(handle_bus_command(slv_id, &mut td.bus, &mut td.sens).is_ok());

    assert_eq!(td.bus.spy_data()[0], td.sens.soft_reset() as u8);
}

#[test]
fn formatting_handler() {
    let mut td = setup();
    let slv_id: u32 = 0x01;

    let data: Vec<u8> = vec![ControllerCommand::FormattingRequest as u8];
    assert!(td.bus.set_rmsg_data(&data).is_ok());

    assert!(handle_bus_command(slv_id, &mut td.bus, &mut td.sens).is_ok());

    let mut tmps: String = String::new();
    tmps.push_str(td.sens.data_types[0]);
    tmps.push_str(" ");
    tmps.push_str(td.sens.data_types[1]);
    tmps.push_str(" ");
    tmps.push_str(td.sens.data_types[2]);
    assert_eq!(td.bus.spy_data(), tmps.into_bytes());
}

#[test]
fn dnames_handler() {
    let mut td = setup();
    let slv_id: u32 = 0x01;

    let data: Vec<u8> = vec![ControllerCommand::DnamesRequest as u8];
    assert!(td.bus.set_rmsg_data(&data).is_ok());

    assert!(handle_bus_command(slv_id, &mut td.bus, &mut td.sens).is_ok());

    let mut tmps: String = String::new();
    tmps.push_str(td.sens.data_names[0]);
    tmps.push_str(" ");
    tmps.push_str(td.sens.data_names[1]);
    tmps.push_str(" ");
    tmps.push_str(td.sens.data_names[2]);
    assert_eq!(td.bus.spy_data(), tmps.into_bytes());
}

#[test]
fn data_handler() {
    let mut td = setup();
    let slv_id: u32 = 0x01;

    let data_index: u8 = 1;
    let mut data: Vec<u8> = vec![ControllerCommand::DataRequest as u8];
    data.push(data_index);
    assert!(td.bus.set_rmsg_data(&data).is_ok());

    assert!(handle_bus_command(slv_id, &mut td.bus, &mut td.sens).is_ok());

    println!("spy_data {:?}", td.bus.spy_data());
    println!("sensor data size: {}", td.sens.data.size);
    println!("sensor_data: {:?}", td.sens.data.data);
    assert_eq!(td.bus.spy_data()[0], td.sens.data.data[0]);
    assert_eq!(td.bus.spy_data()[1], td.sens.data.data[1]);
}

#[test]
fn name_reply_is_exactly_the_name() {
    let mut td = setup();
    assert!(td.bus.set_rmsg_data(&vec![0]).is_ok());
    assert_eq!(handle_bus_command(0x11, &mut td.bus, &mut td.sens), Ok(()));
    assert_eq!(td.bus.spy_data(), b"Fakesensor".to_vec());
    assert_eq!(td.bus.spy_id(), 0x11);
}

#[test]
fn status_and_reset_replies_are_one_byte() {
    let mut td = setup();
    assert!(td.bus.set_rmsg_data(&vec![1]).is_ok());
    assert_eq!(handle_bus_command(2, &mut td.bus, &mut td.sens), Ok(()));
    assert_eq!(td.bus.spy_data(), vec![0]);

    assert!(td.bus.set_rmsg_data(&vec![2]).is_ok());
    assert_eq!(handle_bus_command(2, &mut td.bus, &mut td.sens), Ok(()));
    assert_eq!(td.bus.spy_data(), vec![1]);
}

#[test]
fn list_replies_are_joined_with_single_spaces() {
    let mut td = setup();
    assert!(td.bus.set_rmsg_data(&vec![3]).is_ok());
    assert_eq!(handle_bus_command(2, &mut td.bus, &mut td.sens), Ok(()));
    assert_eq!(td.bus.spy_data(), b"u8 u16 u16".to_vec());

    assert!(td.bus.set_rmsg_data(&vec![4]).is_ok());
    assert_eq!(handle_bus_command(2, &mut td.bus, &mut td.sens), Ok(()));
    assert_eq!(td.bus.spy_data(), b"Status Temp Humid".to_vec());
}

#[test]
fn data_reply_has_the_width_of_the_field() {
    let mut td = setup();
    assert!(td.bus.set_rmsg_data(&vec![5, 0]).is_ok());
    assert_eq!(handle_bus_command(2, &mut td.bus, &mut td.sens), Ok(()));
    assert_eq!(td.bus.spy_data(), vec![0xAA]);

    assert!(td.bus.set_rmsg_data(&vec![5, 2]).is_ok());
    assert_eq!(handle_bus_command(2, &mut td.bus, &mut td.sens), Ok(()));
    assert_eq!(td.bus.spy_data(), vec![0xAA, 0x55]);

    td.sens.data_types[2] = "f32";
    assert!(td.bus.set_rmsg_data(&vec![5, 2, 77]).is_ok());
    assert_eq!(handle_bus_command(2, &mut td.bus, &mut td.sens), Ok(()));
    assert_eq!(td.bus.spy_data(), vec![0xAA, 0x55, 0x00, 0x55]);

    assert!(td.bus.set_rmsg_data(&vec![5, 9]).is_ok());
    assert_eq!(handle_bus_command(2, &mut td.bus, &mut td.sens), Ok(()));
    assert_eq!(td.bus.spy_data(), Vec::<u8>::new());
}

#[test]
fn bad_command_is_an_error_without_a_reply() {
    let mut td = setup();
    assert_eq!(td.bus.send_message(9, &vec![42, 43]), Ok(()));

    assert!(td.bus.set_rmsg_data(&vec![6]).is_ok());
    assert_eq!(handle_bus_command(2, &mut td.bus, &mut td.sens), Err(BusError::Unknown));
    assert_eq!(td.bus.spy_id(), 9);
    assert_eq!(td.bus.spy_data(), vec![42, 43]);

    assert!(td.bus.set_rmsg_data(&vec![255, 0]).is_ok());
    assert_eq!(handle_bus_command(2, &mut td.bus, &mut td.sens), Err(BusError::Unknown));
    assert_eq!(td.bus.spy_data(), vec![42, 43]);
}

#[test]
fn empty_frame_is_an_error_without_a_reply() {
    let mut td = setup();
    assert_eq!(td.bus.send_message(9, &vec![42]), Ok(()));
    assert_eq!(handle_bus_command(2, &mut td.bus, &mut td.sens), Err(BusError::Unknown));
    assert_eq!(td.bus.spy_id(), 9);
    assert_eq!(td.bus.spy_data(), vec![42]);
}

#[test]
fn data_request_without_index_is_an_error_without_a_reply() {
    let mut td = setup();
    assert_eq!(td.bus.send_message(9, &vec![42]), Ok(()));
    assert!(td.bus.set_rmsg_data(&vec![5]).is_ok());
    assert_eq!(handle_bus_command(2, &mut td.bus, &mut td.sens), Err(BusError::BadParameter));
    assert_eq!(td.bus.spy_data(), vec![42]);
    assert_eq!(td.sens.data.size, 4);
}

#[test]
fn refused_reply_is_the_result() {
    let mut td = setup();
    assert!(td.bus.set_rmsg_data(&vec![0]).is_ok());
    assert_eq!(handle_bus_command(129, &mut td.bus, &mut td.sens), Err(BusError::BadParameter));

    td.sens.sensor_name = "A sensor whose name is much too long";
    assert_eq!(handle_bus_command(1, &mut td.bus, &mut td.sens), Err(BusError::BadParameter));
}

struct DeadBus {
    sent: usize,
}

impl Bus for DeadBus {
    fn send_message(&mut self, _id: u32, _data: &Vec<u8>) -> Result<(), BusError> {
        self.sent += 1;
        Ok(())
    }

    fn receive_message(&mut self) -> Result<(u32, Vec<u8>), BusError> {
        Err(BusError::BusError)
    }
}

#[test]
fn failed_receive_is_the_result() {
    let mut td = setup();
    let mut bus = DeadBus { sent: 0 };
    assert_eq!(handle_bus_command(1, &mut bus, &mut td.sens), Err(BusError::BusError));
    assert_eq!(bus.sent, 0);
}

#[test]
fn served_through_trait_objects() {
    let mut td = setup();
    assert!(td.bus.set_rmsg_data(&vec![0]).is_ok());
    let bus: &mut dyn Bus = &mut td.bus;
    let sens: &mut dyn SensorInterface = &mut td.sens;
    assert_eq!(handle_bus_command(1, bus, sens), Ok(()));
    assert_eq!(td.bus.spy_data(), b"Fakesensor".to_vec());
}

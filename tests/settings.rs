use bevy_serialport::settings::{
    DataBits, FlowControl, Parity, SerialPortSetting, StopBits, DEFAULT_BAUD_RATE,
};

#[test]
fn default_settings() {
    let s = SerialPortSetting::default();
    assert_eq!(s.port_name, "");
    assert_eq!(s.baud_rate, 115_200);
    assert_eq!(DEFAULT_BAUD_RATE, 115_200);
    assert_eq!(s.data_bits, DataBits::Eight);
    assert_eq!(s.flow_control, FlowControl::NoFlowControl);
    assert_eq!(s.parity, Parity::NoParity);
    assert_eq!(s.stop_bits, StopBits::One);
    assert_eq!(s.timeout_ms, 0);
}

#[test]
fn settings_for_port_fill_defaults() {
    let s = SerialPortSetting::for_port(String::from("/dev/ttyUSB0"), 9600);
    assert_eq!(s.port_name, "/dev/ttyUSB0");
    assert_eq!(s.baud_rate, 9600);
    assert_eq!(s.data_bits, DataBits::Eight);
    assert_eq!(s.flow_control, FlowControl::NoFlowControl);
    assert_eq!(s.parity, Parity::NoParity);
    assert_eq!(s.stop_bits, StopBits::One);
    assert_eq!(s.timeout_ms, 0);
}

//! Line settings: how a serial device is opened and how bytes are framed on
//! the wire.

use vstd::prelude::*;

verus! {

/// Number of bits used to represent a character sent on the line.
#[derive(Clone, Copy, Debug, PartialEq, Eq, Structural)]
pub enum DataBits {
    Five,
    Six,
    Seven,
    Eight,
}

/// The type of parity used for error checking.
#[derive(Clone, Copy, Debug, PartialEq, Eq, Structural)]
pub enum Parity {
    NoParity,
    Odd,
    Even,
}

/// Number of bits used to signal the end of a character.
#[derive(Clone, Copy, Debug, PartialEq, Eq, Structural)]
pub enum StopBits {
    One,
    Two,
}

/// The type of signalling used to control data transfer.
#[derive(Clone, Copy, Debug, PartialEq, Eq, Structural)]
pub enum FlowControl {
    NoFlowControl,
    Software,
    Hardware,
}

/// The baud rate a port is opened with when none is given.
pub const DEFAULT_BAUD_RATE: u32 = 115_200;

/// Settings for opening a serial port.
#[derive(Debug)]
pub struct SerialPortSetting {
    /// The port name, usually the device path; it also names the port in the
    /// registry.
    pub port_name: String,
    /// The baud rate in symbols per second.
    pub baud_rate: u32,
    /// Number of bits used to represent a character sent on the line.
    pub data_bits: DataBits,
    /// The type of signalling used to control data transfer.
    pub flow_control: FlowControl,
    /// The type of parity used for error checking.
    pub parity: Parity,
    /// Number of bits used to signal the end of a character.
    pub stop_bits: StopBits,
    /// How long to wait for data before a read times out, in milliseconds;
    /// zero means no timeout.
    pub timeout_ms: u64,
}

/// The settings hold the documented defaults in every field but the port name
/// and the baud rate: 8 data bits, no parity, 1 stop bit, no flow control,
/// zero timeout.
pub open spec fn has_default_line(s: SerialPortSetting) -> bool {
    &&& s.data_bits == DataBits::Eight
    &&& s.flow_control == FlowControl::NoFlowControl
    &&& s.parity == Parity::NoParity
    &&& s.stop_bits == StopBits::One
    &&& s.timeout_ms == 0
}

impl SerialPortSetting {
    /// Settings for `port_name` at `baud_rate`, with the documented defaults
    /// in every other field.
    pub fn for_port(port_name: String, baud_rate: u32) -> (r: SerialPortSetting)
        ensures
            r.port_name@ == port_name@,
            r.baud_rate == baud_rate,
            has_default_line(r),
    {
        SerialPortSetting {
            port_name,
            baud_rate,
            data_bits: DataBits::Eight,
            flow_control: FlowControl::NoFlowControl,
            parity: Parity::NoParity,
            stop_bits: StopBits::One,
            timeout_ms: 0,
        }
    }
}

impl Default for SerialPortSetting {
    /// An empty port name at the default baud rate, with the documented
    /// defaults in every other field.
    fn default() -> (r: SerialPortSetting)
        ensures
            r.port_name@ == Seq::<char>::empty(),
            r.baud_rate == DEFAULT_BAUD_RATE,
            has_default_line(r),
    {
        SerialPortSetting::for_port(String::new(), DEFAULT_BAUD_RATE)
    }
}

} // verus!

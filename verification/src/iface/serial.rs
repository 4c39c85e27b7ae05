//! Packets on serial ports.

use vstd::prelude::*;
use vstd::string::*;

use crate::iface::kiss::SerialPortConfig;
use crate::iface::lifecycle;
use crate::iface::lifecycle::{Lifecycle, Medium};
use crate::iface::Interface;
use crate::text;

verus! {

/// The longest frame.
pub const HW_MTU: usize = 564;

/// Wait between opening a port and using it, in nanoseconds.
pub const SETTLE_WAIT: u64 = 500_000_000;

/// Wait before a port is opened again.
pub const RECONNECT_WAIT: u64 = 5_000_000_000;

/// Parity of a serial port.
#[derive(Debug, Clone, Copy, PartialEq, Eq, Structural)]
pub enum Parity {
    Off,
    Even,
    Odd,
}

/// The character format of a serial port.
#[derive(Debug, Clone, Copy, PartialEq, Eq, Structural)]
pub struct PortFormat {
    /// Five to eight.
    pub data_bits: u8,
    pub parity: Parity,
    pub two_stop_bits: bool,
}

/// The parity that a lower-case name stands for.
pub open spec fn parity_named(name: Seq<char>) -> Parity {
    if name == "e"@ || name == "even"@ {
        Parity::Even
    } else if name == "o"@ || name == "odd"@ {
        Parity::Odd
    } else {
        Parity::Off
    }
}

/// The parity with a lower-case name; none where the name is none.
pub fn parity_of(name: &str) -> (r: Parity)
    ensures
        r == parity_named(name@),
{
    if text::same_text(name, "e") || text::same_text(name, "even") {
        Parity::Even
    } else if text::same_text(name, "o") || text::same_text(name, "odd") {
        Parity::Odd
    } else {
        Parity::Off
    }
}

impl SerialPortConfig {
    /// The character format that the configuration asks for: eight data bits unless five to seven
    /// are given, no parity unless even or odd is, and one stop bit unless two are.
    pub fn format(&self) -> (r: PortFormat)
        ensures
            r == (PortFormat {
                data_bits: if 5 <= self.databits <= 7 {
                    self.databits
                } else {
                    8
                },
                parity: parity_named(text::lowercased(self.parity@)),
                two_stop_bits: self.stopbits == 2,
            }),
            vstd::utf8::is_ascii_chars(self.parity@) ==> r.parity == parity_named(
                text::ascii_lowered(self.parity@),
            ),
    {
        let lower: String = text::to_lowercase(self.parity.as_str());
        PortFormat {
            data_bits: if 5 <= self.databits && self.databits <= 7 {
                self.databits
            } else {
                8
            },
            parity: parity_of(lower.as_str()),
            two_stop_bits: self.stopbits == 2,
        }
    }
}

/// An interface on a serial port.
pub struct SerialInterface {
    pub serial: SerialPortConfig,
    /// Whether it runs on a stream that was opened elsewhere, and so cannot be opened again.
    pub attached: bool,
}

impl SerialInterface {
    /// An interface on a port.
    pub fn new(serial: SerialPortConfig) -> (r: Self)
        ensures
            r.serial == serial,
            !r.attached,
    {
        SerialInterface { serial, attached: false }
    }

    /// An interface on a stream that was opened elsewhere.
    pub fn from_stream() -> (r: Self)
        ensures
            r.serial.port@ == ""@,
            r.serial.speed == 9600,
            r.attached,
    {
        SerialInterface { serial: SerialPortConfig::new("", 9600), attached: true }
    }

    /// The life of the interface.
    pub fn lifecycle(&self) -> (r: Lifecycle)
        ensures
            r == lifecycle::started(Medium::Serial, !self.attached),
    {
        Lifecycle::new(Medium::Serial, !self.attached)
    }
}

impl Interface for SerialInterface {
    fn mtu() -> (r: usize)
        ensures
            r == HW_MTU,
    {
        HW_MTU
    }
}

} // verus!

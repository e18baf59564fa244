//! Ports, and the widths in which they and memory-mapped registers are accessed.

use vstd::prelude::*;

verus! {

/// The width of one access to a device register.
#[derive(Clone, Copy, Debug, PartialEq, Eq, Structural)]
pub enum AccessWidth {
    /// One byte.
    Byte,
    /// Two bytes.
    Word,
    /// Four bytes.
    Dword,
    /// Eight bytes.
    Qword,
}

impl AccessWidth {
    /// How many bytes an access of this width covers.
    pub open spec fn bytes(self) -> nat {
        match self {
            AccessWidth::Byte => 1,
            AccessWidth::Word => 2,
            AccessWidth::Dword => 4,
            AccessWidth::Qword => 8,
        }
    }

    /// How many bytes an access of this width covers.
    pub fn size(&self) -> (n: usize)
        ensures
            n == self.bytes(),
    {
        match self {
            AccessWidth::Byte => 1,
            AccessWidth::Word => 2,
            AccessWidth::Dword => 4,
            AccessWidth::Qword => 8,
        }
    }
}

/// A port of the I/O space.
#[derive(Clone, Copy, Debug, PartialEq, Eq, Structural)]
pub struct Port(pub u16);

impl Port {
    /// The port with the given number.
    pub fn new(number: u16) -> (port: Port)
        ensures
            port == Port(number),
    {
        Port(number)
    }

    /// The number of the port.
    pub fn number(&self) -> (n: u16)
        ensures
            n == self.0,
    {
        self.0
    }
}

/// The ports from `start` to `end`, both of them included.
#[derive(Clone, Copy, Debug, PartialEq, Eq, Structural)]
pub struct PortRange {
    pub start: Port,
    pub end: Port,
}

impl PortRange {
    /// The ports from `start` to `end`, both of them included.
    pub fn new(start: Port, end: Port) -> (range: PortRange)
        ensures
            range == (PortRange { start, end }),
    {
        PortRange { start, end }
    }
}

} // verus!

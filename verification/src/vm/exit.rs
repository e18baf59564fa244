//! Why a virtual processor stops running, and what is to be done about it.

use vstd::prelude::*;

use crate::bus::{AccessWidth, Port};
use crate::vm::ovmf_blk::QueueSnapshot;

verus! {

/// The port of the debug console.
pub const DEBUGCON_PORT: u16 = 0x402;

/// What the debug console reads as.
pub const DEBUGCON_READBACK: u8 = 0xe9;

/// The first port of the power management registers.
pub const ACPI_PM_IO_BASE: u16 = 0x600;

/// How many ports the power management registers have.
pub const ACPI_PM_IO_SIZE: u16 = 0x10;

/// The port is one of the power management registers.
pub open spec fn is_acpi_pm_port(port: Port) -> bool {
    0x600 <= port.0 < 0x610
}

/// Why a virtual processor has stopped running.
#[derive(Clone, Copy, Debug, PartialEq, Eq, Structural)]
pub enum VmExit {
    /// It reads a register of a device in memory.
    MmioRead { addr: u64, width: AccessWidth, reg: usize, reg_width: AccessWidth, signed_ext: bool },
    /// It writes a register of a device in memory.
    MmioWrite { addr: u64, width: AccessWidth, data: u64 },
    /// It reads a port.
    IoRead { port: Port, width: AccessWidth },
    /// It writes a port.
    IoWrite { port: Port, width: AccessWidth, data: u64 },
    /// It reads a port into memory, many times over.
    IoStringRead { port: Port, dst_gpa: u64, count: usize },
    /// It writes memory to a port, many times over.
    IoStringWrite { port: Port, src_gpa: u64, count: usize },
    /// It reads a system register.
    SysRegRead { addr: u64, reg: usize },
    /// It writes a system register.
    SysRegWrite { addr: u64, value: u64 },
    /// It accesses memory that is not mapped for the access.
    NestedPageFault { addr: u64, access_flags: u64 },
    /// Anything else.
    Other,
}

/// What is to be done about an exit outside the machine.
#[derive(Clone, Copy, Debug, PartialEq, Eq, Structural)]
pub enum ExitAction {
    /// Put a value into a register and go on.
    SetGpr { reg: usize, value: u64 },
    /// Go on.
    Resume,
    /// Read a register of a device in memory.
    ReadMmio { addr: u64, width: AccessWidth, reg: usize, reg_width: AccessWidth, signed_ext: bool },
    /// Write a register of a device in memory.
    WriteMmio { addr: u64, width: AccessWidth, data: u64 },
    /// Read a port of the host.
    ReadHostPort { port: Port, width: AccessWidth },
    /// Write a port of the host.
    WriteHostPort { port: Port, width: AccessWidth, value: u32, snapshot: Option<QueueSnapshot> },
    /// Read a port of an emulated device.
    ReadDevicePort { port: Port, width: AccessWidth },
    /// Write a port of an emulated device.
    WriteDevicePort { port: Port, width: AccessWidth, data: u64 },
    /// Read a system register.
    ReadSysReg { addr: u64, reg: usize },
    /// Write a system register.
    WriteSysReg { addr: u64, value: u64 },
    /// Have the fault handled by the address space.
    HandlePageFault { addr: u64, access_flags: u64 },
    /// Hand the exit to the caller.
    Leave,
}

/// What came of an action.
#[derive(Clone, Copy, Debug, PartialEq, Eq, Structural)]
pub enum Event {
    /// It was done.
    Done,
    /// A read gave this value.
    Value(u64),
    /// Whether the fault was handled.
    Handled(bool),
}

/// How the virtual processor goes on.
#[derive(Clone, Copy, Debug, PartialEq, Eq, Structural)]
pub enum Followup {
    /// With a value in a register.
    SetGpr { reg: usize, value: u64 },
    /// As it is.
    Resume,
    /// Not at all: the exit is handed to the caller.
    Leave,
}

impl ExitAction {
    /// The action reads something.
    pub open spec fn reads(self) -> bool {
        self is ReadMmio || self is ReadHostPort || self is ReadDevicePort || self is ReadSysReg
    }

    /// The event is one that the action can come to.
    pub open spec fn comes_to(self, event: Event) -> bool {
        if self.reads() {
            event is Value
        } else if self is HandlePageFault {
            event is Handled
        } else {
            event is Done
        }
    }
}

/// The action for an exit that only the emulated devices, the address space or the caller can
/// deal with.
pub open spec fn forwarded(exit: VmExit) -> ExitAction {
    match exit {
        VmExit::MmioRead { addr, width, reg, reg_width, signed_ext } => ExitAction::ReadMmio {
            addr,
            width,
            reg,
            reg_width,
            signed_ext,
        },
        VmExit::MmioWrite { addr, width, data } => ExitAction::WriteMmio { addr, width, data },
        VmExit::IoRead { port, width } => ExitAction::ReadDevicePort { port, width },
        VmExit::IoWrite { port, width, data } => ExitAction::WriteDevicePort { port, width, data },
        VmExit::IoStringRead { .. } => ExitAction::Resume,
        VmExit::IoStringWrite { .. } => ExitAction::Resume,
        VmExit::SysRegRead { addr, reg } => ExitAction::ReadSysReg { addr, reg },
        VmExit::SysRegWrite { addr, value } => ExitAction::WriteSysReg { addr, value },
        VmExit::NestedPageFault { addr, access_flags } => ExitAction::HandlePageFault {
            addr,
            access_flags,
        },
        VmExit::Other => ExitAction::Leave,
    }
}

/// The action for an exit that only the emulated devices, the address space or the caller can
/// deal with.
pub fn forward(exit: VmExit) -> (action: ExitAction)
    ensures
        action == forwarded(exit),
{
    match exit {
        VmExit::MmioRead { addr, width, reg, reg_width, signed_ext } => ExitAction::ReadMmio {
            addr,
            width,
            reg,
            reg_width,
            signed_ext,
        },
        VmExit::MmioWrite { addr, width, data } => ExitAction::WriteMmio { addr, width, data },
        VmExit::IoRead { port, width } => ExitAction::ReadDevicePort { port, width },
        VmExit::IoWrite { port, width, data } => ExitAction::WriteDevicePort { port, width, data },
        VmExit::IoStringRead { .. } => ExitAction::Resume,
        VmExit::IoStringWrite { .. } => ExitAction::Resume,
        VmExit::SysRegRead { addr, reg } => ExitAction::ReadSysReg { addr, reg },
        VmExit::SysRegWrite { addr, value } => ExitAction::WriteSysReg { addr, value },
        VmExit::NestedPageFault { addr, access_flags } => ExitAction::HandlePageFault {
            addr,
            access_flags,
        },
        VmExit::Other => ExitAction::Leave,
    }
}

/// Whether a port is one of the power management registers.
pub fn acpi_pm_port(port: Port) -> (b: bool)
    ensures
        b == is_acpi_pm_port(port),
{
    ACPI_PM_IO_BASE <= port.number() && port.number() < ACPI_PM_IO_BASE + ACPI_PM_IO_SIZE
}

/// What an action can come to: a read to a value, a fault to whether it was handled, and anything
/// else to being done.
pub proof fn actions_come_to_their_events(action: ExitAction, v: u64, handled: bool)
    ensures
        action.comes_to(Event::Value(v)) <==> action is ReadMmio || action is ReadHostPort
            || action is ReadDevicePort || action is ReadSysReg,
        action.comes_to(Event::Handled(handled)) <==> action is HandlePageFault,
        action.comes_to(Event::Done) <==> action is SetGpr || action is Resume || action is WriteMmio
            || action is WriteHostPort || action is WriteDevicePort || action is WriteSysReg
            || action is Leave,
{
}

} // verus!

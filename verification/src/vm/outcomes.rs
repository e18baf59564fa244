//! What each exit of a virtual processor leads to, by the fields of the exit.

use vstd::prelude::*;

use crate::bus::{AccessWidth, Port};
use crate::bytes;
use crate::fw_cfg::inner;
use crate::guest_memory::RamView;
use crate::vm::debugcon;
use crate::vm::exit::{Event, ExitAction, Followup, VmExit};
use crate::vm::machine::VmView;
use crate::vm::ovmf_blk;
use crate::vm::ovmf_blk::HostWrite;
use crate::vm::status::Arch;
use crate::vm::value;

verus! {

/// The exit leads to an action that is all that comes of it: machine and memory stay, and no line
/// is completed.
pub open spec fn leads_to(vm: VmView, e: VmExit, ram: RamView, action: ExitAction) -> bool {
    let h = vm.exit_handled(e, ram);
    &&& h.vm == vm
    &&& h.ram == ram
    &&& h.result matches Ok(done) && done.0 == action && done.1.len() == 0
}

/// Every access to device memory or to a system register goes to the devices as it is: a read as a
/// read, a write as a write, with the same address, width, register and data. A fault goes to the
/// address space with its address and its access, and an exit that the machine does not know to the
/// caller.
pub proof fn accesses_reach_the_devices(
    vm: VmView,
    ram: RamView,
    addr: u64,
    width: AccessWidth,
    reg: usize,
    reg_width: AccessWidth,
    signed_ext: bool,
    data: u64,
)
    ensures
        leads_to(
            vm,
            VmExit::MmioRead { addr, width, reg, reg_width, signed_ext },
            ram,
            ExitAction::ReadMmio { addr, width, reg, reg_width, signed_ext },
        ),
        leads_to(
            vm,
            VmExit::MmioWrite { addr, width, data },
            ram,
            ExitAction::WriteMmio { addr, width, data },
        ),
        leads_to(
            vm,
            VmExit::SysRegRead { addr, reg },
            ram,
            ExitAction::ReadSysReg { addr, reg },
        ),
        leads_to(
            vm,
            VmExit::SysRegWrite { addr, value: data },
            ram,
            ExitAction::WriteSysReg { addr, value: data },
        ),
        leads_to(
            vm,
            VmExit::NestedPageFault { addr, access_flags: data },
            ram,
            ExitAction::HandlePageFault { addr, access_flags: data },
        ),
        leads_to(vm, VmExit::Other, ram, ExitAction::Leave),
{
}

/// The machine itself answers for the port: it is the debug console, a port of the firmware
/// configuration, of the block device, or a power management register.
pub open spec fn machine_port(port: Port) -> bool {
    port.0 == 0x402 || port.0 == 0x510 || port.0 == 0x511 || port.0 == 0x514 || port.0 == 0x518
        || 0x6000 <= port.0 <= 0x607f || 0x600 <= port.0 <= 0x60f
}

/// Where the machine does not answer for a port itself, and on every architecture but x86 for all
/// ports, a read goes to the devices as a read of the same port in the same width, and a write as a
/// write of the same data. On x86 that holds of the ports of the firmware configuration as well,
/// where they are accessed in a way that is not theirs.
pub proof fn other_ports_reach_the_devices(
    vm: VmView,
    ram: RamView,
    port: Port,
    width: AccessWidth,
    data: u64,
)
    ensures
        vm.target.arch != Arch::X86_64 || !machine_port(port) || port.0 == 0x510 || port.0 == 0x514
            || port.0 == 0x518 ==> leads_to(
            vm,
            VmExit::IoRead { port, width },
            ram,
            ExitAction::ReadDevicePort { port, width },
        ),
        vm.target.arch != Arch::X86_64 || !machine_port(port) || port.0 == 0x511 || (port.0 == 0x510
            && width != AccessWidth::Word) || ((port.0 == 0x514 || port.0 == 0x518) && width
            != AccessWidth::Dword) ==> leads_to(
            vm,
            VmExit::IoWrite { port, width, data },
            ram,
            ExitAction::WriteDevicePort { port, width, data },
        ),
{
}

/// Repeated accesses to a port do nothing, but for those of the debug console on x86.
pub proof fn other_string_accesses_do_nothing(
    vm: VmView,
    ram: RamView,
    port: Port,
    gpa: u64,
    count: usize,
)
    requires
        vm.target.arch != Arch::X86_64 || port.0 != 0x402,
    ensures
        leads_to(
            vm,
            VmExit::IoStringRead { port, dst_gpa: gpa, count },
            ram,
            ExitAction::Resume,
        ),
        leads_to(
            vm,
            VmExit::IoStringWrite { port, src_gpa: gpa, count },
            ram,
            ExitAction::Resume,
        ),
{
}

/// The power management registers are those of the host, in the same width: a read reads the same
/// port of the host, a write writes the part of the data that the width holds. Eight bytes at once
/// are refused. The ports of the block device are read from the host as well.
pub proof fn power_management_goes_to_the_host(
    vm: VmView,
    ram: RamView,
    port: Port,
    width: AccessWidth,
    data: u64,
)
    requires
        vm.target.arch == Arch::X86_64,
    ensures
        (0x600 <= port.0 <= 0x60f || 0x6000 <= port.0 <= 0x607f) && width != AccessWidth::Qword
            ==> leads_to(
            vm,
            VmExit::IoRead { port, width },
            ram,
            ExitAction::ReadHostPort { port, width },
        ),
        0x600 <= port.0 <= 0x60f && width == AccessWidth::Byte ==> leads_to(
            vm,
            VmExit::IoWrite { port, width, data },
            ram,
            ExitAction::WriteHostPort {
                port,
                width,
                value: (data as int % 0x100) as u32,
                snapshot: None,
            },
        ),
        0x600 <= port.0 <= 0x60f && width == AccessWidth::Word ==> leads_to(
            vm,
            VmExit::IoWrite { port, width, data },
            ram,
            ExitAction::WriteHostPort {
                port,
                width,
                value: (data as int % 0x1_0000) as u32,
                snapshot: None,
            },
        ),
        0x600 <= port.0 <= 0x60f && width == AccessWidth::Dword ==> leads_to(
            vm,
            VmExit::IoWrite { port, width, data },
            ram,
            ExitAction::WriteHostPort {
                port,
                width,
                value: (data as int % 0x1_0000_0000) as u32,
                snapshot: None,
            },
        ),
        (0x600 <= port.0 <= 0x60f || 0x6000 <= port.0 <= 0x607f) && width == AccessWidth::Qword ==> {
            &&& vm.exit_handled(VmExit::IoRead { port, width }, ram).result is Err
            &&& vm.exit_handled(VmExit::IoWrite { port, width, data }, ram).result is Err
            &&& vm.exit_handled(VmExit::IoRead { port, width }, ram).vm == vm
            &&& vm.exit_handled(VmExit::IoWrite { port, width, data }, ram).vm == vm
        },
{
}

/// What is to go out to a port of the block device goes out to the same port of the host, in the
/// same width; what is known of the queue and the memory are as the queue leaves them, and an error
/// there is the error of the exit.
pub proof fn block_ports_go_to_the_host(
    vm: VmView,
    ram: RamView,
    port: Port,
    width: AccessWidth,
    data: u64,
)
    requires
        vm.target.arch == Arch::X86_64,
        0x6000 <= port.0 <= 0x607f,
    ensures
        ({
            let h = vm.exit_handled(VmExit::IoWrite { port, width, data }, ram);
            let w = ovmf_blk::blk_written(vm.blk, port, width, data as int, ram);
            &&& h.ram == w.ram
            &&& h.vm == VmView { blk: w.state, ..vm }
            &&& w.result matches Ok(Some(out)) ==> h.result is Ok && h.result.unwrap().0
                == (ExitAction::WriteHostPort {
                port,
                width,
                value: out.value,
                snapshot: out.snapshot,
            }) && h.result.unwrap().1.len() == 0
            &&& w.result is Err <==> h.result is Err
        }),
{
}

/// The number that the first `n` bytes of `s` from index `i` on make, the least significant one
/// first.
pub open spec fn number_of(s: Seq<u8>, i: int, n: nat) -> int
    decreases n,
{
    if n == 0 {
        0
    } else {
        s[i] + 0x100 * number_of(s, i + 1, (n - 1) as nat)
    }
}

/// What an access of a width makes of its bytes is the number that they make.
pub proof fn access_value_is_number(raw: Seq<u8>, width: AccessWidth)
    ensures
        width == AccessWidth::Byte ==> inner::le_value(raw, width) == number_of(raw, 0, 1),
        width == AccessWidth::Word ==> inner::le_value(raw, width) == number_of(raw, 0, 2),
        width == AccessWidth::Dword ==> inner::le_value(raw, width) == number_of(raw, 0, 4),
        width == AccessWidth::Qword ==> inner::le_value(raw, width) == number_of(raw, 0, 8),
{
    reveal_with_fuel(number_of, 9);
}

/// A read of the data port of the firmware configuration gives the number that the next bytes of
/// the selected item make, as many as the width has, with zeros past the end of the item, and moves
/// the reader on by as many bytes as the item still has of them.
pub proof fn data_port_reads_item(vm: VmView, ram: RamView, width: AccessWidth, n: nat, i: int)
    requires
        vm.target.arch == Arch::X86_64,
        n == match width {
            AccessWidth::Byte => 1nat,
            AccessWidth::Word => 2nat,
            AccessWidth::Dword => 4nat,
            AccessWidth::Qword => 8nat,
        },
    ensures
        ({
            let s = vm.fw_cfg;
            let raw = s.next_bytes(n);
            let h = vm.exit_handled(VmExit::IoRead { port: Port(0x511), width }, ram);
            &&& h.ram == ram
            &&& h.result matches Ok(done) && done.1.len() == 0 && done.0 == (ExitAction::SetGpr {
                reg: 0,
                value: number_of(raw, 0, n) as u64,
            })
            &&& 0 <= number_of(raw, 0, n) <= u64::MAX
            &&& raw.len() == n
            &&& s.items.contains_key(s.selector) ==> {
                let item = s.items[s.selector];
                &&& 0 <= i < n && s.offset + i < item.len() ==> raw[i] == item[s.offset + i]
                &&& 0 <= i < n && s.offset + i >= item.len() ==> raw[i] == 0
                &&& s.offset + n <= item.len() ==> h.vm.fw_cfg.offset == s.offset + n
                &&& s.offset + n > item.len() ==> h.vm.fw_cfg.offset == item.len()
            }
            &&& !s.items.contains_key(s.selector) ==> (0 <= i < n ==> raw[i] == 0)
                && h.vm.fw_cfg == s
            &&& h.vm.fw_cfg.selector == s.selector && h.vm.fw_cfg.items == s.items
        }),
{
    access_value_is_number(vm.fw_cfg.next_bytes(n), width);
}

/// A word to the selector port selects the item that the low 16 bits of the data name, from its
/// start on.
pub proof fn selector_port_selects(vm: VmView, ram: RamView, data: u64)
    requires
        vm.target.arch == Arch::X86_64,
    ensures
        ({
            let h = vm.exit_handled(
                VmExit::IoWrite { port: Port(0x510), width: AccessWidth::Word, data },
                ram,
            );
            &&& h.ram == ram
            &&& h.result matches Ok(done) && done.0 == ExitAction::Resume && done.1.len() == 0
            &&& h.vm.fw_cfg.selector == data % 0x1_0000
            &&& h.vm.fw_cfg.offset == 0
            &&& h.vm.fw_cfg.items == vm.fw_cfg.items
        }),
{
}

/// The debug console reads as 0xe9, once into register 0 and repeatedly into memory, where the
/// memory is mapped: then every byte of it is 0xe9, and no other byte has changed.
pub proof fn console_reads_as_present(
    vm: VmView,
    ram: RamView,
    width: AccessWidth,
    gpa: u64,
    count: usize,
    a: int,
)
    requires
        vm.target.arch == Arch::X86_64,
    ensures
        leads_to(
            vm,
            VmExit::IoRead { port: Port(0x402), width },
            ram,
            ExitAction::SetGpr { reg: 0, value: 0xe9 },
        ),
        ({
            let h = vm.exit_handled(
                VmExit::IoStringRead { port: Port(0x402), dst_gpa: gpa, count },
                ram,
            );
            let done = ram.spans(gpa as int, count as int);
            &&& done <==> h.result is Ok
            &&& h.vm == vm
            &&& done ==> h.result.unwrap().0 == ExitAction::Resume && h.result.unwrap().1.len() == 0
            &&& done && gpa <= a < gpa + count ==> h.ram.bytes[a] == 0xe9
            &&& ram.bytes.contains_key(a) && !(gpa <= a < gpa + count) ==> h.ram.bytes[a]
                == ram.bytes[a]
            &&& !done ==> h.ram == ram
        }),
{
    if ram.spans(gpa as int, count as int) && gpa <= a < gpa + count {
        assert(ram.bytes.contains_key(a));
    }
}

/// What is written to the debug console, one byte or memory, follows what the console held: the
/// lines that are completed and what the console holds afterwards are together what it held and
/// then came in, and no line holds the end of a line.
pub proof fn console_takes_what_is_written(
    vm: VmView,
    ram: RamView,
    width: AccessWidth,
    data: u64,
    gpa: u64,
    count: usize,
)
    requires
        vm.target.arch == Arch::X86_64,
        !vm.console.contains(10),
    ensures
        ({
            let h = vm.exit_handled(VmExit::IoWrite { port: Port(0x402), width, data }, ram);
            &&& h.ram == ram
            &&& h.vm == VmView { console: h.vm.console, ..vm }
            &&& h.result matches Ok(done) && done.0 == ExitAction::Resume && debugcon::joined(
                done.1,
                h.vm.console,
            ) == vm.console.push((data as int % 0x100) as u8)
            &&& !h.vm.console.contains(10)
            &&& data as int % 0x100 != 10 ==> h.result.unwrap().1.len() == 0
            &&& data as int % 0x100 == 10 ==> h.result.unwrap().1 == seq![vm.console]
        }),
        ({
            let h = vm.exit_handled(
                VmExit::IoStringWrite { port: Port(0x402), src_gpa: gpa, count },
                ram,
            );
            let done = ram.spans(gpa as int, count as int);
            &&& h.ram == ram
            &&& done <==> h.result is Ok
            &&& !done ==> h.vm == vm
            &&& h.vm == VmView { console: h.vm.console, ..vm }
            &&& done ==> h.result.unwrap().0 == ExitAction::Resume && debugcon::joined(
                h.result.unwrap().1,
                h.vm.console,
            ) == vm.console + ram.at(gpa as int, count as nat)
            &&& !h.vm.console.contains(10)
        }),
{
    let byte = seq![(data as int % 0x100) as u8];
    debugcon::console_loses_nothing(vm.console, byte, 0);
    debugcon::lines_hold_no_line_end(vm.console, byte, 0);
    assert(vm.console + byte.skip(0) =~= vm.console.push(byte[0]));
    reveal_with_fuel(debugcon::split_lines, 3);
    assert(seq![vm.console] + Seq::<Seq<u8>>::empty() =~= seq![vm.console]);
    let raw = ram.at(gpa as int, count as nat);
    debugcon::console_loses_nothing(vm.console, raw, 0);
    debugcon::lines_hold_no_line_end(vm.console, raw, 0);
    assert(raw.skip(0) =~= raw);
}

/// What a read of the devices, of the host or of a system register gave goes into the register that
/// the exit names, or, for a port, into register 0, and on RISC-V into register 10.
pub proof fn read_values_reach_the_register(
    vm: VmView,
    port: Port,
    width: AccessWidth,
    addr: u64,
    reg: usize,
    raw: u64,
)
    ensures
        ({
            let io: usize = if vm.target.arch == Arch::Riscv64 {
                10
            } else {
                0
            };
            &&& vm.exit_finished(ExitAction::ReadDevicePort { port, width }, Event::Value(raw)).1
                == Followup::SetGpr { reg: io, value: raw }
            &&& vm.exit_finished(ExitAction::ReadHostPort { port, width }, Event::Value(raw)).1
                == Followup::SetGpr { reg: io, value: raw }
            &&& vm.exit_finished(ExitAction::ReadSysReg { addr, reg }, Event::Value(raw)).1
                == Followup::SetGpr { reg, value: raw }
            &&& vm.exit_finished(ExitAction::SetGpr { reg, value: raw }, Event::Done).1
                == Followup::SetGpr { reg, value: raw }
        }),
        ({
            let after = vm.exit_finished(
                ExitAction::ReadHostPort { port, width },
                Event::Value(raw),
            ).0;
            &&& port.0 == 0x600c && width == AccessWidth::Word ==> after.blk.queue_size == raw
                % 0x1_0000 && after.blk.queue_pfn == vm.blk.queue_pfn
                && after.blk.translated_queue_pfn == vm.blk.translated_queue_pfn
            &&& !(port.0 == 0x600c && width == AccessWidth::Word) ==> after == vm
            &&& after == VmView { blk: after.blk, ..vm }
        }),
{
}

/// Once a write is done the virtual processor goes on; a fault that was handled lets it go on, and
/// one that was not, and an exit that the machine does not know, are handed to the caller. None of
/// them changes the machine.
pub proof fn writes_and_faults_resume(
    vm: VmView,
    port: Port,
    width: AccessWidth,
    addr: u64,
    data: u64,
    out: HostWrite,
)
    ensures
        vm.exit_finished(ExitAction::WriteMmio { addr, width, data }, Event::Done) == (
            vm,
            Followup::Resume,
        ),
        vm.exit_finished(ExitAction::WriteDevicePort { port, width, data }, Event::Done) == (
            vm,
            Followup::Resume,
        ),
        vm.exit_finished(
            ExitAction::WriteHostPort { port, width, value: out.value, snapshot: out.snapshot },
            Event::Done,
        ) == (vm, Followup::Resume),
        vm.exit_finished(ExitAction::WriteSysReg { addr, value: data }, Event::Done) == (
            vm,
            Followup::Resume,
        ),
        vm.exit_finished(ExitAction::Resume, Event::Done) == (vm, Followup::Resume),
        vm.exit_finished(
            ExitAction::HandlePageFault { addr, access_flags: data },
            Event::Handled(true),
        ) == (vm, Followup::Resume),
        vm.exit_finished(
            ExitAction::HandlePageFault { addr, access_flags: data },
            Event::Handled(false),
        ) == (vm, Followup::Leave),
        vm.exit_finished(ExitAction::Leave, Event::Done) == (vm, Followup::Leave),
{
}

/// A register takes from a read, without sign extension, the part that both the access and the
/// register have room for.
proof fn plain_value_by_width(raw: u64, width: AccessWidth, reg_width: AccessWidth)
    ensures
        ({
            let v = value::read_value(raw as int, width, reg_width, false);
            &&& width == AccessWidth::Byte || reg_width == AccessWidth::Byte ==> v == raw % 0x100
            &&& width == AccessWidth::Word && reg_width != AccessWidth::Byte ==> v == raw % 0x1_0000
            &&& reg_width == AccessWidth::Word && width != AccessWidth::Byte ==> v == raw % 0x1_0000
            &&& width == AccessWidth::Dword && (reg_width == AccessWidth::Dword || reg_width
                == AccessWidth::Qword) ==> v == raw % 0x1_0000_0000
            &&& reg_width == AccessWidth::Dword && (width == AccessWidth::Dword || width
                == AccessWidth::Qword) ==> v == raw % 0x1_0000_0000
            &&& width == AccessWidth::Qword && reg_width == AccessWidth::Qword ==> v == raw
        }),
{
    match width {
        AccessWidth::Byte => {},
        AccessWidth::Word => {},
        AccessWidth::Dword => {},
        AccessWidth::Qword => {},
    }
}

/// A register takes from a read, with sign extension, the signed number of the width of the access.
proof fn signed_value_by_width(raw: u64, width: AccessWidth, reg_width: AccessWidth)
    ensures
        ({
            let v = value::read_value(raw as int, width, reg_width, true);
            &&& width == AccessWidth::Byte ==> v == ((raw as i8) as i64) as u64
            &&& width == AccessWidth::Word ==> v == ((raw as i16) as i64) as u64
            &&& width == AccessWidth::Dword ==> v == ((raw as i32) as i64) as u64
            &&& width == AccessWidth::Qword ==> v == raw
        }),
{
    value::sign_extension_is_cast(raw);
    assert(value::low_part(value::low_part(raw as int, width), width) == value::low_part(
        raw as int,
        width,
    )) by {
        vstd::arithmetic::div_mod::lemma_mod_twice(raw as int, value::modulus(width));
    }
    assert(value::read_value(raw as int, width, reg_width, true) == value::sign_extended(
        raw as int,
        width,
    ));
    if width == AccessWidth::Qword {
        assert(value::modulus(width) == 0x1_0000_0000_0000_0000);
        assert(raw as int % 0x1_0000_0000_0000_0000 == raw);
    }
}

/// A read of device memory puts into the register that the exit names what the device gave: without
/// sign extension the part of it that both the access and the register have room for, and with sign
/// extension the number of the width of the access, as a signed number of 64 bits.
pub proof fn mmio_read_reaches_the_register(
    vm: VmView,
    ram: RamView,
    addr: u64,
    width: AccessWidth,
    reg: usize,
    reg_width: AccessWidth,
    signed_ext: bool,
    raw: u64,
)
    ensures
        ({
            let e = VmExit::MmioRead { addr, width, reg, reg_width, signed_ext };
            let action = vm.exit_handled(e, ram).result.unwrap().0;
            let end = vm.exit_finished(action, Event::Value(raw));
            &&& end.0 == vm
            &&& end.1 matches Followup::SetGpr { reg: r, value: v } && r == reg && {
                &&& !signed_ext ==> {
                    &&& width == AccessWidth::Byte || reg_width == AccessWidth::Byte ==> v == raw
                        % 0x100
                    &&& width == AccessWidth::Word && reg_width != AccessWidth::Byte ==> v == raw
                        % 0x1_0000
                    &&& reg_width == AccessWidth::Word && width != AccessWidth::Byte ==> v == raw
                        % 0x1_0000
                    &&& width == AccessWidth::Dword && (reg_width == AccessWidth::Dword || reg_width
                        == AccessWidth::Qword) ==> v == raw % 0x1_0000_0000
                    &&& reg_width == AccessWidth::Dword && (width == AccessWidth::Dword || width
                        == AccessWidth::Qword) ==> v == raw % 0x1_0000_0000
                    &&& width == AccessWidth::Qword && reg_width == AccessWidth::Qword ==> v == raw
                }
                &&& signed_ext ==> {
                    &&& width == AccessWidth::Byte ==> v == ((raw as i8) as i64) as u64
                    &&& width == AccessWidth::Word ==> v == ((raw as i16) as i64) as u64
                    &&& width == AccessWidth::Dword ==> v == ((raw as i32) as i64) as u64
                    &&& width == AccessWidth::Qword ==> v == raw
                }
            }
        }),
{
    plain_value_by_width(raw, width, reg_width);
    signed_value_by_width(raw, width, reg_width);
    let v = value::read_value(raw as int, width, reg_width, signed_ext);
    assert(0 <= v <= u64::MAX) by {
        if signed_ext {
            value::sign_extension_keeps_low_part(value::low_part(raw as int, width), width);
        }
    }
    let e = VmExit::MmioRead { addr, width, reg, reg_width, signed_ext };
    let action = vm.exit_handled(e, ram).result.unwrap().0;
    assert(action == ExitAction::ReadMmio { addr, width, reg, reg_width, signed_ext });
    assert(vm.exit_finished(action, Event::Value(raw)).1 == Followup::SetGpr {
        reg,
        value: v as u64,
    });
}

} // verus!

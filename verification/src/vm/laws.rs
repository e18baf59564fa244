//! What holds of a machine over its life and over every exit.

use vstd::prelude::*;

use crate::bus::{AccessWidth, Port};
use crate::bytes;
use crate::error::VmError;
use crate::fw_cfg::device::FwCfgDmaRequest;
use crate::fw_cfg::directory::FileView;
use crate::fw_cfg::inner;
use crate::fw_cfg::inner::FwCfgView;
use crate::guest_memory::RamView;
use crate::vm::exit;
use crate::vm::exit::{Event, ExitAction, Followup, VmExit};
use crate::vm::fw_cfg_state;
use crate::vm::fw_cfg_state::FwCfgStateView;
use crate::vm::machine::{AxVM, VmView};
use crate::vm::ovmf_blk;
use crate::vm::region::{MapFlags, VMMemoryRegion};
use crate::vm::setup;
use crate::vm::setup::{InitAction, SetupConfig};
use crate::vm::status::{Arch, VMStatus};
use crate::vm::value;

verus! {

/// A machine that has been booted cannot be booted again, whatever its state becomes.
pub proof fn machine_boots_once(vm: VmView, later: VMStatus)
    requires
        vm.bootable(),
    ensures
        !(VmView {
            status: later,
            ..(VmView { status: VMStatus::Running, booted: true, ..vm })
        }).bootable(),
{
}

/// A machine that was shut down cannot be booted, whatever its state becomes. While it is shutting
/// down or has stopped, it cannot be shut down again either.
pub proof fn ended_machine_stays_down(vm: VmView, later: VMStatus)
    ensures
        vm.ending() ==> !vm.bootable(),
        ({
            let down = VmView { status: VMStatus::Stopping, shut_down: true, ..vm };
            &&& down.ending()
            &&& !(VmView { status: later, ..down }).bootable()
        }),
{
}

/// The ports that the machine answers for do not overlap: no port belongs to two of the debug
/// console, the firmware configuration, the block device and the power management registers. So
/// the order in which they are asked does not matter.
pub proof fn ports_do_not_overlap(port: Port, width: AccessWidth, value: int, ram: RamView)
    ensures
        port.0 == 0x402 ==> !ovmf_blk::is_blk_port(port) && !exit::is_acpi_pm_port(port),
        !(ovmf_blk::is_blk_port(port) && exit::is_acpi_pm_port(port)),
        ovmf_blk::is_blk_port(port) || exit::is_acpi_pm_port(port) || port.0 == 0x402 ==> {
            &&& port.0 != 0x511
            &&& forall|s: FwCfgStateView|
                (#[trigger] fw_cfg_state::port_written(s, port, width, value, ram)).result == Ok::<
                    bool,
                    crate::error::VmError,
                >(false)
        },
{
}

/// What the setup does to the machine itself, step by step.
proof fn setup_keeps_the_machine(vm: VmView, n: nat)
    requires
        n <= vm.setup_steps().len(),
    ensures
        ({
            let after = vm.after_steps(n);
            &&& same_machine(vm, VmView { vcpus: vm.vcpus, ..after })
            &&& vm.vcpus is Some ==> after.vcpus == vm.vcpus
            &&& vm.vcpus is None ==> after.vcpus is None || after.vcpus == Some(vm.config.vcpus@)
            &&& (exists|i: int| 0 <= i < n && #[trigger] vm.setup_steps()[i] == InitAction::Publish)
                ==> after.vcpus is Some
        }),
    decreases n,
{
    if n > 0 {
        setup_keeps_the_machine(vm, (n - 1) as nat);
        if exists|i: int| 0 <= i < n && #[trigger] vm.setup_steps()[i] == InitAction::Publish {
            let i = choose|i: int|
                0 <= i < n && #[trigger] vm.setup_steps()[i] == InitAction::Publish;
            if i < n - 1 {
                assert(vm.setup_steps()[i] == InitAction::Publish);
            }
        }
    }
}

/// Once the setup is through, the machine knows its virtual processors: those that it knew before,
/// or else exactly those of its configuration. They are the ones that the last steps set up, one
/// after the other. Neither the state of the machine nor its memory has changed.
pub proof fn setup_makes_processors_known(vm: VmView)
    ensures
        ({
            let steps = vm.setup_steps();
            let after = vm.after_steps(steps.len());
            let known = vm.known_vcpus();
            &&& after.vcpus == Some(known)
            &&& vm.vcpus is None ==> known == vm.config.vcpus@
            &&& vm.vcpus is Some ==> known == vm.vcpus.unwrap()
            &&& forall|i: int|
                0 <= i < known.len() ==> #[trigger] steps[steps.len() - known.len() + i]
                    == vm.config.setup_step(vm.target, known, i)
            &&& same_machine(vm, VmView { vcpus: vm.vcpus, ..after })
        }),
{
    let steps = vm.setup_steps();
    let known = vm.known_vcpus();
    setup::processors_are_set_up_last(vm.config, vm.target, vm.id, known);
    let at = steps.len() - known.len() - 1;
    assert(steps[at] == InitAction::Publish);
    setup_keeps_the_machine(vm, steps.len());
    assert forall|i: int| 0 <= i < known.len() implies #[trigger] steps[steps.len() - known.len()
        + i] == vm.config.setup_step(vm.target, known, i) by {
        assert(at < at + 1 + i < steps.len());
    }
}

/// However the configuration is changed once the machine knows its virtual processors, another
/// setup sets up the same ones, and gives shared interrupts to the processor that follows from the
/// number that the machine was made with.
pub proof fn later_setup_keeps_processors(vm: VmView, config: SetupConfig, i: int)
    requires
        vm.vcpus is Some,
    ensures
        ({
            let again = VmView { config, ..vm };
            &&& again.known_vcpus() == vm.vcpus.unwrap()
            &&& again.after_steps(again.setup_steps().len()).vcpus == vm.vcpus
            &&& 0 <= i < again.setup_steps().len() ==> (again.setup_steps()[i] matches
                InitAction::AssignSpi { irq, cpu_id } ==> cpu_id == (vm.id - 1) as usize)
        }),
{
    let again = VmView { config, ..vm };
    setup_makes_processors_known(again);
}

/// The machine is the same one, at the same point of its life, with the same memory and the same
/// virtual processors.
pub open spec fn same_machine(vm: VmView, after: VmView) -> bool {
    &&& after.id == vm.id && after.target == vm.target
    &&& after.config == vm.config
    &&& after.status == vm.status && after.booted == vm.booted && after.shut_down == vm.shut_down
    &&& after.regions == vm.regions && after.vcpus == vm.vcpus
}

/// No exit changes what the machine is, where it is in its life, which memory it has, or which
/// virtual processors, neither when the machine decides on it nor when the action is done.
pub proof fn exits_keep_the_machine(
    vm: VmView,
    e: VmExit,
    ram: RamView,
    action: ExitAction,
    event: Event,
)
    ensures
        same_machine(vm, vm.exit_handled(e, ram).vm),
        same_machine(vm, vm.exit_finished(action, event).0),
{
}

/// On an architecture without ports of its own, and for exits that have nothing to do with ports,
/// the machine and the memory stay as they are, and no line is completed.
pub proof fn other_exits_pass_through(vm: VmView, e: VmExit, ram: RamView)
    requires
        vm.target.arch != Arch::X86_64 || !(e is IoRead || e is IoWrite || e is IoStringRead
            || e is IoStringWrite),
    ensures
        vm.exit_handled(e, ram).vm == vm,
        vm.exit_handled(e, ram).ram == ram,
        vm.exit_handled(e, ram).result == Ok::<(ExitAction, Seq<Seq<u8>>), crate::error::VmError>(
            (exit::forwarded(e), Seq::empty()),
        ),
{
}

/// The only exits that are handed to the caller are those that the machine does not know, and
/// faults that the address space does not handle.
pub proof fn only_unknown_exits_leave(vm: VmView, e: VmExit, ram: RamView, event: Event)
    requires
        vm.exit_handled(e, ram).result is Ok,
        vm.exit_handled(e, ram).result->Ok_0.0.comes_to(event),
    ensures
        ({
            let handled = vm.exit_handled(e, ram);
            handled.vm.exit_finished(handled.result->Ok_0.0, event).1 == Followup::Leave <==> (e
                == VmExit::Other || (e is NestedPageFault && event == Event::Handled(false)))
        }),
{
}

/// A value that is not sign-extended fits both the access and the register that takes it.
pub proof fn read_value_fits(raw: int, width: AccessWidth, reg_width: AccessWidth)
    requires
        0 <= raw,
    ensures
        0 <= value::read_value(raw, width, reg_width, false) < value::modulus(width),
        value::read_value(raw, width, reg_width, false) < value::modulus(reg_width),
        value::read_value(raw, width, width, false) == value::low_part(raw, width),
{
    assert(value::low_part(value::low_part(raw, width), reg_width) <= value::low_part(
        raw,
        width,
    )) by {
        vstd::arithmetic::div_mod::lemma_mod_decreases(
            value::low_part(raw, width) as nat,
            value::modulus(reg_width) as nat,
        );
    }
    vstd::arithmetic::div_mod::lemma_mod_bound(raw, value::modulus(width));
    vstd::arithmetic::div_mod::lemma_mod_bound(
        value::low_part(raw, width),
        value::modulus(reg_width),
    );
    vstd::arithmetic::div_mod::lemma_mod_twice(raw, value::modulus(width));
}

/// Reading the firmware configuration of the machine in two parts gives the same bytes as reading
/// at once, and leaves the reader at the same position.
pub proof fn machine_reads_join(s: FwCfgStateView, a: nat, b: nat)
    ensures
        s.next_bytes(a) + s.advanced(a).next_bytes(b) == s.next_bytes(a + b),
        s.advanced(a).advanced(b) == s.advanced(a + b),
        s.wf() ==> s.advanced(a).wf(),
{
    assert(s.next_bytes(a) + s.advanced(a).next_bytes(b) =~= s.next_bytes(a + b));
}

/// The firmware configuration of the machine and the device for it show the guest the same items
/// for the same memory and the same processors.
pub proof fn machine_and_device_agree(
    s: FwCfgStateView,
    dev: FwCfgView,
    regions: Seq<VMMemoryRegion>,
    cpu_count: int,
    selector: u16,
    size: nat,
)
    ensures
        s.configured(regions, cpu_count).selecting(selector).next_bytes(size) == dev.configured(
            fw_cfg_state::region_pairs(regions),
            cpu_count,
        ).selecting(selector).next_bytes(size),
{
    let pairs = fw_cfg_state::region_pairs(regions);
    let d = dev.configured(pairs, cpu_count).selecting(selector);
    let m = s.configured(regions, cpu_count).selecting(selector);
    let file = FileView {
        selector: 0x8000,
        name: "etc/e820"@,
        content: inner::e820_bytes(pairs, pairs.len()),
    };
    assert(d.files =~= seq![file]);
    if selector == 0x8000 {
        assert(inner::file_content(d.files, selector, 0) == Some(file.content));
    } else {
        assert(inner::file_content(d.files, selector, 1) is None);
        assert(inner::file_content(d.files, selector, 0) is None);
    }
    assert(m.next_bytes(size) =~= d.next_bytes(size));
}

/// A transfer that reads the firmware configuration of the machine, and that was carried out, has
/// put the next bytes of the selected item into guest memory, where the buffer does not overlap
/// the control word of the descriptor.
pub proof fn machine_dma_delivers_item(s: FwCfgStateView, gpa: int, ram: RamView)
    requires
        fw_cfg_state::dma_done(s, gpa, ram).ok,
        ram.load_span(gpa, 16) is Some,
        ({
            let request = FwCfgDmaRequest::decoded(ram.load_span(gpa, 16).unwrap());
            &&& request.reads()
            &&& request.address + request.length <= gpa || gpa + 4 <= request.address
        }),
    ensures
        ({
            let request = FwCfgDmaRequest::decoded(ram.load_span(gpa, 16).unwrap());
            let start = fw_cfg_state::dma_selected(s, request);
            let done = fw_cfg_state::dma_done(s, gpa, ram);
            &&& done.ram.at(request.address as int, request.length as nat) == start.next_bytes(
                request.length as nat,
            )
            &&& done.state == start.advanced(request.length as nat)
        }),
{
    let request = FwCfgDmaRequest::decoded(ram.load_span(gpa, 16).unwrap());
    let start = fw_cfg_state::dma_selected(s, request);
    let data = start.next_bytes(request.length as nat);
    let address = request.address as int;
    let word = bytes::be_bytes_u32(fw_cfg_state::dma_status(request));
    let moved = ram.store_span(address, data).0;
    let after = moved.store_span(gpa, word).0;
    assert(after.at(address, data.len()) =~= data) by {
        assert forall|k: int| 0 <= k < data.len() implies after.at(address, data.len())[k]
            == data[k] by {
            assert(ram.bytes.contains_key(address + k));
            assert(moved.bytes.contains_key(address + k));
        }
    }
}

/// A region is the last one of the machine, behind those that it had, exactly where mapping it
/// worked, and what mapping it came to is the result: it is mapped for reading, writing and
/// executing. Otherwise the machine is as it was.
pub proof fn region_is_added_iff_mapped<
    F: Fn(&VMMemoryRegion, MapFlags) -> Result<(), VmError>,
>(vm: VmView, map: F, region: VMMemoryRegion, r: Result<VMMemoryRegion, VmError>, i: int)
    requires
        AxVM::mapped_with(map, region, r),
    ensures
        ({
            let after = vm.with_mapped(region, r);
            let flags = MapFlags {
                read: true,
                write: true,
                execute: true,
                user: true,
                device: false,
            };
            &&& r is Ok ==> r.unwrap() == region && call_ensures(map, (&region, flags), Ok(()))
            &&& r is Err ==> call_ensures(
                map,
                (&region, flags),
                Err::<(), VmError>(r->Err_0),
            )
            &&& r is Ok ==> after.regions.len() == vm.regions.len() + 1 && after.regions.last()
                == region
            &&& r is Err ==> after == vm
            &&& 0 <= i < vm.regions.len() ==> after.regions[i] == vm.regions[i]
            &&& after == VmView { regions: after.regions, ..vm }
        }),
{
}

/// What the firmware configuration of the machine says once it is filled in: the signature, what
/// the interface can do, how many processors there are, the memory map, which lists where each
/// region lies in the guest, and the directory. The reader stays where it is.
pub proof fn machine_items_read(
    s: FwCfgStateView,
    regions: Seq<VMMemoryRegion>,
    cpu_count: int,
    i: int,
)
    requires
        0 <= i < regions.len(),
        0 <= cpu_count,
    ensures
        ({
            let after = s.configured(regions, cpu_count);
            let pairs = fw_cfg_state::region_pairs(regions);
            &&& after.items[0] == seq![0x51u8, 0x45, 0x4d, 0x55]
            &&& after.items[1].len() == 4 && bytes::le_number(after.items[1], 0, 4) == 2
            &&& after.items[5].len() == 2 && bytes::le_number(after.items[5], 0, 2) == cpu_count
                % 0x1_0000
            &&& after.items[0x8000] == inner::e820_bytes(pairs, regions.len())
            &&& pairs.len() == regions.len()
            &&& pairs[i] == (regions[i].gpa, regions[i].len)
            &&& after.items.dom() == set![0u16, 1, 5, 0x19, 0x8000]
            &&& after.selector == s.selector && after.offset == s.offset
        }),
{
    let after = s.configured(regions, cpu_count);
    bytes::bytes_make_their_number((cpu_count % 0x1_0000) as u16, 2, 0);
    assert(after.items.dom() =~= set![0u16, 1, 5, 0x19, 0x8000]);
}

} // verus!

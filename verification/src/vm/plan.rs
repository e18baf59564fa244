//! What the steps of setup and cleanup are, field by field, and where a machine is in its life.

use vstd::prelude::*;

use crate::error::VmError;
use crate::vm::machine::VmView;
use crate::vm::passthrough;
use crate::vm::passthrough::Region;
use crate::vm::region;
use crate::vm::region::{CleanupStep, MapFlags, VMMemoryRegion};
use crate::vm::setup;
use crate::vm::setup::{
    EmuDeviceKind, InitAction, SetupConfig, VcpuAffinity, VcpuCreateConfig, VcpuSetupConfig,
};
use crate::vm::status::{Arch, Target, VMInterruptMode, VMStatus};

verus! {

/// What is mapped like the registers of a device: the guest may read and write it, but not execute
/// it.
pub open spec fn as_device(flags: MapFlags) -> bool {
    flags.read && flags.write && !flags.execute && flags.user && flags.device
}

/// Each virtual processor of the configuration is created, in their order and before anything else,
/// with its number and the processors of the host that it may run on. On Arm it is told its
/// physical number, on RISC-V and LoongArch its number, and on each of them where the device tree
/// lies, which is zero where none is loaded.
pub proof fn processors_are_created_as_configured(
    cfg: SetupConfig,
    target: Target,
    id: usize,
    known: Seq<VcpuAffinity>,
    i: int,
)
    requires
        0 <= i < cfg.vcpus@.len(),
    ensures
        ({
            let steps = cfg.steps(target, id, known);
            let dtb = cfg.dtb_load_gpa;
            &&& steps[i] is CreateVcpu
            &&& steps[i]->CreateVcpu_id == cfg.vcpus@[i].0
            &&& steps[i]->affinity == cfg.vcpus@[i].1
            &&& target.arch == Arch::X86_64 ==> steps[i]->CreateVcpu_config
                == VcpuCreateConfig::Plain
            &&& target.arch == Arch::Aarch64 ==> {
                let c = steps[i]->CreateVcpu_config;
                &&& c is Aarch64 && c->mpidr_el1 == cfg.vcpus@[i].2 as u64
                &&& dtb matches Some(at) ==> c->Aarch64_dtb_addr == at
                &&& dtb is None ==> c->Aarch64_dtb_addr == 0
            }
            &&& target.arch == Arch::Riscv64 ==> {
                let c = steps[i]->CreateVcpu_config;
                &&& c is Riscv64 && c->hart_id == cfg.vcpus@[i].0
                &&& dtb matches Some(at) ==> c->Riscv64_dtb_addr == at
                &&& dtb is None ==> c->Riscv64_dtb_addr == 0
            }
            &&& target.arch == Arch::Loongarch64 ==> {
                let c = steps[i]->CreateVcpu_config;
                &&& c is Loongarch64 && c->Loongarch64_cpu_id == cfg.vcpus@[i].0
                &&& dtb matches Some(at) ==> c->Loongarch64_dtb_addr == at
                &&& dtb is None ==> c->Loongarch64_dtb_addr == 0
            }
        }),
{
    setup::processors_are_set_up_last(cfg, target, id, known);
}

/// Each virtual processor that the machine knows is set up, in their order and after everything
/// else, by its place in the list: number 0 with the first entry, every other one with the second.
/// On x86 it is told whether some emulated device is a console, on Arm and LoongArch whether
/// interrupts pass through, and the timer with them.
pub proof fn processors_are_set_up_as_configured(
    cfg: SetupConfig,
    target: Target,
    id: usize,
    known: Seq<VcpuAffinity>,
    i: int,
)
    requires
        0 <= i < known.len() <= usize::MAX,
    ensures
        ({
            let steps = cfg.steps(target, id, known);
            let step = steps[steps.len() - known.len() + i];
            let passes = cfg.interrupt_mode == VMInterruptMode::Passthrough;
            let c = step->SetupVcpu_config;
            &&& step is SetupVcpu
            &&& step->index == i
            &&& step->SetupVcpu_id == known[i].0
            &&& known[i].0 == 0 ==> step->entry == cfg.bsp_entry
            &&& known[i].0 != 0 ==> step->entry == cfg.ap_entry
            &&& target.arch == Arch::X86_64 ==> c is X86 && (c->emulate_com1 <==> exists|d: int|
                0 <= d < cfg.emu_devices@.len() && #[trigger] cfg.emu_devices@[d]
                    == EmuDeviceKind::Console)
            &&& target.arch == Arch::Riscv64 ==> c == VcpuSetupConfig::Plain
            &&& target.arch == Arch::Aarch64 || target.arch == Arch::Loongarch64 ==> c
                is Passthrough && c->interrupt == passes && c->timer == passes
        }),
{
    setup::processors_are_set_up_last(cfg, target, id, known);
    let steps = cfg.steps(target, id, known);
    let publish = steps.len() - known.len() - 1;
    assert(publish < publish + 1 + i < steps.len());
    assert(steps[publish + 1 + i] == cfg.setup_step(target, known, i));
}

/// How many steps come before those that map what passes through: one for each virtual processor
/// of the configuration, and on x86 two more.
pub open spec fn steps_before_mapping(cfg: SetupConfig, target: Target) -> int {
    cfg.vcpus@.len() + if target.arch == Arch::X86_64 {
        2int
    } else {
        0
    }
}

/// On x86, and nowhere else, the firmware configuration is filled in for as many processors as are
/// configured, and then the page of the local interrupt controller is mapped at 0xfee0_0000 like the
/// registers of a device.
pub proof fn x86_steps_follow_creation(
    cfg: SetupConfig,
    target: Target,
    id: usize,
    known: Seq<VcpuAffinity>,
    k: int,
)
    requires
        cfg.vcpus@.len() <= usize::MAX,
    ensures
        ({
            let steps = cfg.steps(target, id, known);
            let n = cfg.vcpus@.len() as int;
            &&& target.arch == Arch::X86_64 ==> {
                &&& steps[n] is ConfigureFwCfg && steps[n]->cpu_count == n
                &&& steps[n + 1] is MapLocalApic && steps[n + 1]->MapLocalApic_gpa == 0xfee0_0000
                    && steps[n + 1]->MapLocalApic_size == 0x1000 && as_device(
                    steps[n + 1]->MapLocalApic_flags,
                )
            }
            &&& target.arch != Arch::X86_64 && 0 <= k < steps.len() ==> !(steps[k]
                is ConfigureFwCfg) && !(steps[k] is MapLocalApic) && !(steps[k] is MapApicAccess)
        }),
{
}

/// Each region that passes through is mapped, in their order, to the same addresses of the host,
/// over its whole length, like the registers of a device.
pub proof fn passing_regions_are_mapped_one_to_one(
    cfg: SetupConfig,
    target: Target,
    id: usize,
    known: Seq<VcpuAffinity>,
    i: int,
)
    requires
        0 <= i < passthrough::passed_through(
            cfg.pass_through_devices@ + cfg.pass_through_addresses@,
        ).len(),
    ensures
        ({
            let r = passthrough::passed_through(
                cfg.pass_through_devices@ + cfg.pass_through_addresses@,
            )[i];
            let step = cfg.steps(target, id, known)[steps_before_mapping(cfg, target) + i];
            &&& step is MapPassthrough
            &&& step->MapPassthrough_gpa == r.0
            &&& step->hpa == r.0
            &&& step->len == r.1
            &&& as_device(step->MapPassthrough_flags)
        }),
{
}

/// The steps between the mapped regions and the moment when the machine knows its processors: where
/// the processor catches accesses to the local interrupt controller, one page is mapped for that,
/// which the guest may read and write but which is not the guest's own; then the devices are
/// created; and on Arm each shared interrupt that passes through, with its number among all
/// interrupts, which start at 32, goes to the processor one below the number of the machine, or,
/// where interrupts do not pass through, the devices behind system registers are added.
pub proof fn devices_are_built_before_publishing(
    cfg: SetupConfig,
    target: Target,
    id: usize,
    known: Seq<VcpuAffinity>,
    i: int,
)
    requires
        cfg.wf(target, id),
    ensures
        ({
            let steps = cfg.steps(target, id, known);
            let regions = passthrough::passed_through(
                cfg.pass_through_devices@ + cfg.pass_through_addresses@,
            );
            let caught = target.arch == Arch::X86_64 && target.vmx;
            let passes = target.arch == Arch::Aarch64 && cfg.interrupt_mode
                == VMInterruptMode::Passthrough;
            let mapped = steps_before_mapping(cfg, target) + regions.len();
            let build = if caught {
                mapped + 1
            } else {
                mapped
            };
            let extra = if passes {
                cfg.pass_through_spis@.len() as int
            } else if target.arch == Arch::Aarch64 {
                1
            } else {
                0
            };
            &&& caught ==> steps[mapped] is MapApicAccess && steps[mapped]->MapApicAccess_size
                == 0x1000 && steps[mapped]->MapApicAccess_flags == (MapFlags {
                read: true,
                write: true,
                execute: false,
                user: false,
                device: true,
            })
            &&& steps[build] == InitAction::BuildDevices
            &&& passes && 0 <= i < cfg.pass_through_spis@.len() ==> {
                let step = steps[build + 1 + i];
                step is AssignSpi && step->irq == 32 + cfg.pass_through_spis@[i]
                    && step->AssignSpi_cpu_id == id - 1
            }
            &&& target.arch == Arch::Aarch64 && !passes ==> steps[build + 1]
                == InitAction::AddSysRegDevices
            &&& steps[build + 1 + extra] == InitAction::Publish
            &&& steps.len() == build + 2 + extra + known.len()
        }),
{
    if cfg.owns_spis(target) && 0 <= i < cfg.pass_through_spis@.len() {
        assert(cfg.pass_through_spis@[i] + 32 <= u32::MAX);
    }
}

/// What passes through starts at the page boundary at or below its start and has the length that
/// was asked for, taken up to whole pages.
pub proof fn passing_region_is_taken_to_pages(r: Region)
    requires
        r.1 + 0x1000 <= usize::MAX,
    ensures
        ({
            let a = passthrough::aligned(r);
            &&& a.0 % 4096 == 0 && a.0 <= r.0 < a.0 + 4096
            &&& a.1 % 4096 == 0 && r.1 <= a.1 < r.1 + 4096
        }),
{
}

/// Regions can pass through wherever all of them, taken to pages, end within the address space. Of
/// regions that can pass through, every one can be taken to pages, and one alone needs nothing
/// more.
pub proof fn regions_that_end_can_pass(regions: Seq<Region>)
    ensures
        (forall|i: int|
            0 <= i < regions.len() ==> (#[trigger] regions[i]).1 + 0x1000 <= usize::MAX
                && passthrough::aligned(regions[i]).0 + passthrough::aligned(regions[i]).1
                <= usize::MAX) ==> passthrough::passable(regions),
        passthrough::passable(regions) ==> forall|i: int|
            0 <= i < regions.len() ==> (#[trigger] regions[i]).1 + 0x1000 <= usize::MAX,
        regions.len() == 1 && regions[0].1 + 0x1000 <= usize::MAX ==> passthrough::passable(
            regions,
        ),
{
    let a = passthrough::all_aligned(regions);
    let o = passthrough::ordered(a, a.len());
    passthrough::ordered_is_in_order(a, a.len());
    if forall|i: int|
        0 <= i < regions.len() ==> (#[trigger] regions[i]).1 + 0x1000 <= usize::MAX
            && passthrough::aligned(regions[i]).0 + passthrough::aligned(regions[i]).1
            <= usize::MAX {
        assert forall|k: int| 0 <= k < o.len() implies passthrough::fits(#[trigger] o[k]) by {
            let i = choose|i: int| 0 <= i < a.len() && #[trigger] a[i] == o[k];
            assert(a[i] == passthrough::aligned(regions[i]));
        }
        assert forall|i: int| 0 <= i < regions.len() implies passthrough::alignable(
            #[trigger] regions[i],
        ) by {}
    }
    if passthrough::passable(regions) {
        assert forall|i: int| 0 <= i < regions.len() implies (#[trigger] regions[i]).1 + 0x1000
            <= usize::MAX by {
            assert(passthrough::alignable(regions[i]));
        }
    }
}

/// A setup can be planned exactly where its regions can pass through and, where shared interrupts
/// pass through to the machine, the machine is not number 0 and every interrupt has a number.
pub proof fn setup_can_be_planned(vm: VmView)
    ensures
        vm.plannable() <==> {
            &&& passthrough::passable(
                vm.config.pass_through_devices@ + vm.config.pass_through_addresses@,
            )
            &&& vm.target.arch == Arch::Aarch64 && vm.config.interrupt_mode
                == VMInterruptMode::Passthrough ==> vm.id != 0 && forall|i: int|
                0 <= i < vm.config.pass_through_spis@.len()
                    ==> #[trigger] vm.config.pass_through_spis@[i] <= u32::MAX - 32
        },
{
    if vm.config.owns_spis(vm.target) {
        if forall|i: int|
            0 <= i < vm.config.pass_through_spis@.len()
                ==> #[trigger] vm.config.pass_through_spis@[i] <= u32::MAX - 32 {
            assert forall|i: int| 0 <= i < vm.config.pass_through_spis@.len() implies
                #[trigger] vm.config.pass_through_spis@[i] + 32 <= u32::MAX by {}
        }
        if vm.plannable() {
            assert forall|i: int| 0 <= i < vm.config.pass_through_spis@.len() implies
                #[trigger] vm.config.pass_through_spis@[i] <= u32::MAX - 32 by {
                assert(vm.config.pass_through_spis@[i] + 32 <= u32::MAX);
            }
        }
    }
}

/// A new machine has the number, the target and the configuration that it is made with, is being
/// created, and can be booted. A machine can be booted exactly where it has been neither booted nor
/// shut down and is being created, loaded or paused.
pub proof fn machine_can_be_booted(vm: VmView, target: Target, config: SetupConfig)
    ensures
        vm.bootable() <==> !vm.booted && !vm.shut_down && (vm.status == VMStatus::Loading
            || vm.status == VMStatus::Loaded || vm.status == VMStatus::Suspended),
        vm.ending() <==> vm.status == VMStatus::Stopping || vm.status == VMStatus::Stopped,
        ({
            let fresh = VmView::initial(target, config);
            &&& fresh.bootable()
            &&& fresh.status == VMStatus::Loading
            &&& fresh.id == config.vm_id && fresh.target == target && fresh.config == config
            &&& fresh.regions.len() == 0 && fresh.vcpus is None && fresh.console.len() == 0
            &&& fresh.fw_cfg.items == Map::<u16, Seq<u8>>::empty()
            &&& fresh.fw_cfg.selector == 0 && fresh.fw_cfg.offset == 0
            &&& fresh.fw_cfg.dma_high is None && fresh.fw_cfg.dma_address == 0
            &&& fresh.blk.queue_pfn == 0 && fresh.blk.queue_size == 0
                && fresh.blk.translated_queue_pfn == 0
        }),
{
}

/// Memory that is allocated lies in the guest where it was asked for, or where it lies in the host,
/// and is to be freed; memory that is reserved lies at the same address everywhere, and is not.
/// Either is mapped for reading, writing and executing, and is added behind the regions that were
/// there exactly where it was mapped.
pub proof fn regions_lie_where_asked(
    vm: VmView,
    gpa: Option<u64>,
    at: u64,
    hva: u64,
    hpa: u64,
    len: u64,
    align: u64,
    err: VmError,
    i: int,
)
    ensures
        ({
            let r = VMMemoryRegion::for_allocated(gpa, hva, hpa, len, align);
            &&& gpa is Some ==> r.gpa == gpa.unwrap()
            &&& gpa is None ==> r.gpa == hpa
            &&& r.hva == hva && r.hpa == hpa && r.len == len && r.align == align && r.needs_dealloc
            &&& vm.with_mapped(r, Ok(r)).regions.len() == vm.regions.len() + 1
            &&& vm.with_mapped(r, Ok(r)).regions.last() == r
            &&& 0 <= i < vm.regions.len() ==> vm.with_mapped(r, Ok(r)).regions[i] == vm.regions[i]
            &&& vm.with_mapped(r, Err(err)) == vm
        }),
        ({
            let r = VMMemoryRegion::for_reserved(at, len, align);
            r.gpa == at && r.hva == at && r.hpa == at && r.len == len && r.align == align
                && !r.needs_dealloc
        }),
        MapFlags::for_memory() == (MapFlags {
            read: true,
            write: true,
            execute: true,
            user: true,
            device: false,
        }),
{
}

/// Cleaning up unmaps each region over its whole length, frees what was allocated with the length
/// and the alignment that it was allocated with, and nothing that was not allocated.
pub proof fn cleanup_undoes_each_region(regions: Seq<VMMemoryRegion>, i: int)
    requires
        0 <= i < regions.len(),
    ensures
        ({
            let steps = region::cleanup_steps(regions);
            let r = regions[i];
            let k = (regions.len() + region::allocated_count(regions, i as nat)) as int;
            &&& steps[i] == CleanupStep::Unmap { gpa: r.gpa, len: r.len }
            &&& r.needs_dealloc ==> steps[k] == CleanupStep::Dealloc {
                hva: r.hva,
                len: r.len,
                align: r.align,
            }
            &&& steps.len() == regions.len() + region::allocated_count(regions, regions.len()) + 1
            &&& steps.last() == CleanupStep::ClearSpace
        }),
{
    region::cleanup_is_safely_ordered(regions);
    region::freeing_steps_count(regions, regions.len());
    if regions[i].needs_dealloc {
        region::allocated_regions_are_freed(regions, regions.len(), i);
    }
    assert(region::cleanup_steps(regions)[i] == region::unmap_step(regions[i]));
}

/// An address lies in a region exactly from its start up to, but not including, its end.
pub proof fn region_holds_its_addresses(r: VMMemoryRegion, a: int)
    ensures
        r.holds(a) <==> r.gpa <= a && a < r.gpa + r.len,
        r.fits() <==> r.gpa + r.len <= u64::MAX,
{
}

/// What passes through covers an address exactly where some region does, from the page boundary at
/// or below its start on and over its length, taken up to whole pages.
pub proof fn passing_regions_cover_what_was_asked(regions: Seq<Region>, a: int)
    requires
        passthrough::passable(regions),
    ensures
        (exists|k: int|
            0 <= k < passthrough::passed_through(regions).len() && (
            #[trigger] passthrough::passed_through(regions)[k]).0 <= a
                < passthrough::passed_through(regions)[k].0 + passthrough::passed_through(
                regions,
            )[k].1) <==> (exists|i: int|
            0 <= i < regions.len() && (#[trigger] regions[i]).0 as int / 4096 * 4096 <= a
                < regions[i].0 as int / 4096 * 4096 + (regions[i].1 + 4095) / 4096 * 4096),
{
    let out = passthrough::passed_through(regions);
    let al = passthrough::all_aligned(regions);
    passthrough::passed_through_covers_the_same(regions);
    regions_that_end_can_pass(regions);
    assert(passthrough::covered(out, a) <==> passthrough::covered(al, a));
    if exists|k: int| 0 <= k < out.len() && (#[trigger] out[k]).0 <= a < out[k].0 + out[k].1 {
        let k = choose|k: int|
            0 <= k < out.len() && (#[trigger] out[k]).0 <= a < out[k].0 + out[k].1;
        assert(passthrough::within(out[k], a));
        let i = choose|i: int| 0 <= i < al.len() && passthrough::within(#[trigger] al[i], a);
        assert(al[i] == passthrough::aligned(regions[i]));
        assert(regions[i].1 + 0x1000 <= usize::MAX);
    }
    if exists|i: int|
        0 <= i < regions.len() && (#[trigger] regions[i]).0 as int / 4096 * 4096 <= a
            < regions[i].0 as int / 4096 * 4096 + (regions[i].1 + 4095) / 4096 * 4096 {
        let i = choose|i: int|
            0 <= i < regions.len() && (#[trigger] regions[i]).0 as int / 4096 * 4096 <= a
                < regions[i].0 as int / 4096 * 4096 + (regions[i].1 + 4095) / 4096 * 4096;
        assert(regions[i].1 + 0x1000 <= usize::MAX);
        assert(al[i] == passthrough::aligned(regions[i]));
        assert(passthrough::within(al[i], a));
        let k = choose|k: int| 0 <= k < out.len() && passthrough::within(#[trigger] out[k], a);
        assert(out[k].0 <= a < out[k].0 + out[k].1);
    }
}

} // verus!

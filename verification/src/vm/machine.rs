//! The virtual machine itself.

use vstd::prelude::*;

use crate::bus::{AccessWidth, Port};
use crate::error::VmError;
use crate::fw_cfg::device::FW_CFG_IO_DATA;
use crate::fw_cfg::inner;
use crate::guest_memory::{GuestSpace, RamView};
use crate::vm::cpu_mask;
use crate::vm::cpu_mask::VcpuMask;
use crate::vm::debugcon;
use crate::vm::debugcon::DebugConsole;
use crate::vm::exit;
use crate::vm::exit::{Event, ExitAction, Followup, VmExit, DEBUGCON_PORT, DEBUGCON_READBACK};
use crate::vm::fw_cfg_state;
use crate::vm::fw_cfg_state::{FwCfgState, FwCfgStateView};
use crate::vm::ovmf_blk;
use crate::vm::ovmf_blk::{
    OvmfVirtioBlkIoState, OVMF_VIRTIO_BLK_IO_BASE, OVMF_VIRTIO_BLK_IO_SIZE,
};
use crate::vm::passthrough;
use crate::vm::region;
use crate::vm::region::{CleanupPlan, MapFlags, VMMemoryRegion};
use crate::vm::setup::{InitAction, SetupConfig, VcpuAffinity};
use crate::vm::status::{Arch, Target, VMInterruptMode, VMStatus};
use crate::vm::value;

verus! {

/// The register that a read of a port goes to: the argument register on RISC-V, register 0 on
/// the other architectures.
pub open spec fn io_register(arch: Arch) -> usize {
    if arch == Arch::Riscv64 {
        10
    } else {
        0
    }
}

/// The numbers of the virtual processors.
pub open spec fn vcpu_ids(vcpus: Seq<VcpuAffinity>) -> Seq<usize> {
    vcpus.map_values(|v: VcpuAffinity| v.0)
}

/// The state of a machine.
#[verifier::ext_equal]
pub struct VmView {
    pub id: usize,
    pub target: Target,
    pub config: SetupConfig,
    pub status: VMStatus,
    /// The machine has been booted before.
    pub booted: bool,
    /// The machine has been shut down before.
    pub shut_down: bool,
    pub regions: Seq<VMMemoryRegion>,
    /// The virtual processors, once the machine knows them.
    pub vcpus: Option<Seq<VcpuAffinity>>,
    pub fw_cfg: FwCfgStateView,
    pub blk: OvmfVirtioBlkIoState,
    /// What the debug console holds of a line that has not ended.
    pub console: Seq<u8>,
}

/// What the machine makes of an exit: its state and the memory afterwards, what is to be done, and
/// the lines that the debug console has completed.
pub struct ExitHandled {
    pub vm: VmView,
    pub ram: RamView,
    pub result: Result<(ExitAction, Seq<Seq<u8>>), VmError>,
}

impl VmView {
    /// What holds of a machine in every state: its memory ends within the address space.
    pub open spec fn wf(self) -> bool {
        forall|i: int| 0 <= i < self.regions.len() ==> (#[trigger] self.regions[i]).fits()
    }

    /// A new machine.
    pub open spec fn initial(target: Target, config: SetupConfig) -> VmView {
        VmView {
            id: config.vm_id,
            target,
            config,
            status: VMStatus::Loading,
            booted: false,
            shut_down: false,
            regions: Seq::empty(),
            vcpus: None,
            fw_cfg: FwCfgStateView::initial(),
            blk: OvmfVirtioBlkIoState::initial(),
            console: Seq::empty(),
        }
    }

    /// The machine can be booted: it has been neither booted nor shut down before, and it neither
    /// runs nor shuts down nor has stopped.
    pub open spec fn bootable(self) -> bool {
        !self.booted && !self.shut_down && self.status != VMStatus::Running && !self.ending()
    }

    /// The machine is shutting down, or has stopped.
    pub open spec fn ending(self) -> bool {
        self.status == VMStatus::Stopping || self.status == VMStatus::Stopped
    }

    /// The machine after mapping a region has come to a result: the region is added where it was
    /// mapped.
    pub open spec fn with_mapped(
        self,
        region: VMMemoryRegion,
        r: Result<VMMemoryRegion, VmError>,
    ) -> VmView {
        if r is Ok {
            VmView { regions: self.regions.push(region), ..self }
        } else {
            self
        }
    }

    /// The action is all that comes of the exit.
    pub open spec fn passing(self, action: ExitAction, ram: RamView) -> ExitHandled {
        ExitHandled { vm: self, ram, result: Ok((action, Seq::empty())) }
    }

    /// The exit is refused.
    pub open spec fn refusing(self, err: VmError, ram: RamView) -> ExitHandled {
        ExitHandled { vm: self, ram, result: Err(err) }
    }

    /// The debug console takes bytes.
    pub open spec fn console_written(self, data: Seq<u8>, ram: RamView) -> ExitHandled {
        let (lines, rest) = debugcon::split_lines(self.console, data, 0);
        ExitHandled {
            vm: VmView { console: rest, ..self },
            ram,
            result: Ok((ExitAction::Resume, lines)),
        }
    }

    /// A read of a port on x86: the debug console, the firmware configuration, the block device
    /// and the power management registers come before the emulated devices.
    pub open spec fn port_read(self, port: Port, width: AccessWidth, ram: RamView) -> ExitHandled {
        if port.0 == DEBUGCON_PORT {
            self.passing(ExitAction::SetGpr { reg: 0, value: 0xe9 }, ram)
        } else if port.0 == 0x511 {
            VmView { fw_cfg: self.fw_cfg.advanced(width.bytes()), ..self }.passing(
                ExitAction::SetGpr {
                    reg: 0,
                    value: inner::le_value(self.fw_cfg.next_bytes(width.bytes()), width),
                },
                ram,
            )
        } else if ovmf_blk::is_blk_port(port) || exit::is_acpi_pm_port(port) {
            if width == AccessWidth::Qword {
                self.refusing(VmError::InvalidInput, ram)
            } else {
                self.passing(ExitAction::ReadHostPort { port, width }, ram)
            }
        } else {
            self.passing(ExitAction::ReadDevicePort { port, width }, ram)
        }
    }

    /// A write to a port on x86, in the same order.
    pub open spec fn port_written(
        self,
        port: Port,
        width: AccessWidth,
        data: u64,
        ram: RamView,
    ) -> ExitHandled {
        let fw = fw_cfg_state::port_written(self.fw_cfg, port, width, data as int, ram);
        let blk = ovmf_blk::blk_written(self.blk, port, width, data as int, ram);
        if port.0 == DEBUGCON_PORT {
            self.console_written(seq![(data as int % 0x100) as u8], ram)
        } else if fw.result != Ok::<bool, VmError>(false) {
            ExitHandled {
                vm: VmView { fw_cfg: fw.state, ..self },
                ram: fw.ram,
                result: match fw.result {
                    Ok(_) => Ok((ExitAction::Resume, Seq::empty())),
                    Err(err) => Err(err),
                },
            }
        } else if ovmf_blk::is_blk_port(port) {
            ExitHandled {
                vm: VmView { blk: blk.state, ..self },
                ram: blk.ram,
                result: match blk.result {
                    Ok(Some(out)) => Ok(
                        (
                            ExitAction::WriteHostPort {
                                port,
                                width,
                                value: out.value,
                                snapshot: out.snapshot,
                            },
                            Seq::empty(),
                        ),
                    ),
                    Ok(None) => Ok((ExitAction::Resume, Seq::empty())),
                    Err(err) => Err(err),
                },
            }
        } else if exit::is_acpi_pm_port(port) {
            if width == AccessWidth::Qword {
                self.refusing(VmError::InvalidInput, ram)
            } else {
                self.passing(
                    ExitAction::WriteHostPort {
                        port,
                        width,
                        value: ovmf_blk::narrowed(data as int, width),
                        snapshot: None,
                    },
                    ram,
                )
            }
        } else {
            self.passing(ExitAction::WriteDevicePort { port, width, data }, ram)
        }
    }

    /// A read of the debug console into memory.
    pub open spec fn string_read(self, dst_gpa: u64, count: nat, ram: RamView) -> ExitHandled {
        let (after, ok) = ram.store_span(dst_gpa as int, Seq::new(count, |i: int| 0xe9u8));
        if ok {
            self.passing(ExitAction::Resume, after)
        } else {
            self.refusing(VmError::InvalidInput, after)
        }
    }

    /// A write of memory to the debug console.
    pub open spec fn string_written(self, src_gpa: u64, count: nat, ram: RamView) -> ExitHandled {
        match ram.load_span(src_gpa as int, count) {
            Some(data) => self.console_written(data, ram),
            None => self.refusing(VmError::InvalidInput, ram),
        }
    }

    /// What the machine makes of an exit. Only x86 has ports that the machine itself answers for.
    pub open spec fn exit_handled(self, exit: VmExit, ram: RamView) -> ExitHandled {
        if self.target.arch == Arch::X86_64 {
            match exit {
                VmExit::IoRead { port, width } => self.port_read(port, width, ram),
                VmExit::IoWrite { port, width, data } => self.port_written(port, width, data, ram),
                VmExit::IoStringRead { port, dst_gpa, count } => if port.0 == DEBUGCON_PORT {
                    self.string_read(dst_gpa, count as nat, ram)
                } else {
                    self.passing(ExitAction::Resume, ram)
                },
                VmExit::IoStringWrite { port, src_gpa, count } => if port.0 == DEBUGCON_PORT {
                    self.string_written(src_gpa, count as nat, ram)
                } else {
                    self.passing(ExitAction::Resume, ram)
                },
                _ => self.passing(exit::forwarded(exit), ram),
            }
        } else {
            self.passing(exit::forwarded(exit), ram)
        }
    }

    /// Where the exit reads the firmware configuration, the position lies within the selected
    /// item, and where it sets off a transfer, the transfer can be carried out.
    pub open spec fn exit_fits(self, exit: VmExit, ram: RamView) -> bool {
        self.target.arch == Arch::X86_64 ==> match exit {
            VmExit::IoRead { port, width } => port.0 == 0x511 ==> self.fw_cfg.wf(),
            VmExit::IoWrite { port, width, data } => fw_cfg_state::port_write_fits(
                self.fw_cfg,
                port,
                width,
                data as int,
                ram,
            ),
            _ => true,
        }
    }

    /// The machine after the virtual processors have been made known. They stay the ones that were
    /// made known first.
    pub open spec fn published(self, vcpus: Seq<VcpuAffinity>) -> VmView {
        VmView {
            vcpus: match self.vcpus {
                Some(known) => Some(known),
                None => Some(vcpus),
            },
            ..self
        }
    }

    /// The virtual processors that the machine knows once those of the configuration have been made
    /// known.
    pub open spec fn known_vcpus(self) -> Seq<VcpuAffinity> {
        self.published(self.config.vcpus@).vcpus.unwrap()
    }

    /// The setup of the machine can be planned.
    pub open spec fn plannable(self) -> bool {
        self.config.wf(self.target, self.id)
    }

    /// The steps that set the machine up.
    pub open spec fn setup_steps(self) -> Seq<InitAction> {
        self.config.steps(self.target, self.id, self.known_vcpus())
    }

    /// The machine after its own part of a step of the setup: it fills in the firmware
    /// configuration, and comes to know the processors of the configuration.
    pub open spec fn after_step(self, step: InitAction) -> VmView {
        match step {
            InitAction::ConfigureFwCfg { cpu_count } => VmView {
                fw_cfg: self.fw_cfg.configured(self.regions, cpu_count as int),
                ..self
            },
            InitAction::Publish => self.published(self.config.vcpus@),
            _ => self,
        }
    }

    /// The machine after its own part of the first `n` steps of the setup.
    pub open spec fn after_steps(self, n: nat) -> VmView
        decreases n,
    {
        if n == 0 {
            self
        } else {
            self.after_steps((n - 1) as nat).after_step(self.setup_steps()[n - 1])
        }
    }

    /// The machine after an action has come to an event, and how the virtual processor goes on.
    pub open spec fn exit_finished(self, action: ExitAction, event: Event) -> (VmView, Followup) {
        let raw = match event {
            Event::Value(v) => v,
            _ => 0,
        };
        match action {
            ExitAction::SetGpr { reg, value } => (self, Followup::SetGpr { reg, value }),
            ExitAction::ReadMmio { addr, width, reg, reg_width, signed_ext } => (
                self,
                Followup::SetGpr {
                    reg,
                    value: value::read_value(raw as int, width, reg_width, signed_ext) as u64,
                },
            ),
            ExitAction::ReadHostPort { port, width } => (
                VmView {
                    blk: if port.0 == 0x600c && width == AccessWidth::Word {
                        OvmfVirtioBlkIoState {
                            queue_size: (raw as int % 0x1_0000) as u16,
                            ..self.blk
                        }
                    } else {
                        self.blk
                    },
                    ..self
                },
                Followup::SetGpr { reg: io_register(self.target.arch), value: raw },
            ),
            ExitAction::ReadDevicePort { port, width } => (
                self,
                Followup::SetGpr { reg: io_register(self.target.arch), value: raw },
            ),
            ExitAction::ReadSysReg { addr, reg } => (self, Followup::SetGpr { reg, value: raw }),
            ExitAction::HandlePageFault { addr, access_flags } => (
                self,
                if event == Event::Handled(true) {
                    Followup::Resume
                } else {
                    Followup::Leave
                },
            ),
            ExitAction::Leave => (self, Followup::Leave),
            _ => (self, Followup::Resume),
        }
    }
}

/// What is to be done about an exit, and the lines that the debug console has completed.
#[derive(Debug)]
pub struct Handled {
    pub action: ExitAction,
    pub lines: Vec<Vec<u8>>,
}

impl Handled {
    /// The result of an exit is the one that was to come.
    pub open spec fn agrees(
        r: Result<Handled, VmError>,
        want: Result<(ExitAction, Seq<Seq<u8>>), VmError>,
    ) -> bool {
        match want {
            Ok((action, lines)) => r matches Ok(h) && h.action == action && debugcon::line_views(
                h.lines@,
            ) == lines,
            Err(err) => r matches Err(e) && e == err,
        }
    }

    /// The action is all that comes of the exit.
    fn just(action: ExitAction) -> (h: Handled)
        ensures
            h.action == action,
            debugcon::line_views(h.lines@) == Seq::<Seq<u8>>::empty(),
    {
        let h = Handled { action, lines: Vec::new() };
        assert(debugcon::line_views(h.lines@) =~= Seq::<Seq<u8>>::empty());
        h
    }
}

/// A virtual machine.
pub struct AxVM {
    id: usize,
    target: Target,
    config: SetupConfig,
    vm_status: VMStatus,
    booted: bool,
    shut_down: bool,
    memory_regions: Vec<VMMemoryRegion>,
    vcpus: Option<Vec<VcpuAffinity>>,
    fw_cfg: FwCfgState,
    ovmf_virtio_blk: OvmfVirtioBlkIoState,
    debugcon: DebugConsole,
}

impl View for AxVM {
    type V = VmView;

    closed spec fn view(&self) -> VmView {
        VmView {
            id: self.id,
            target: self.target,
            config: self.config,
            status: self.vm_status,
            booted: self.booted,
            shut_down: self.shut_down,
            regions: self.memory_regions@,
            vcpus: match self.vcpus {
                Some(vcpus) => Some(vcpus@),
                None => None,
            },
            fw_cfg: self.fw_cfg@,
            blk: self.ovmf_virtio_blk,
            console: self.debugcon@,
        }
    }
}

impl AxVM {
    /// A new machine, which is not started until it is booted. Its number stays the one that it is
    /// configured with now.
    pub fn new(target: Target, config: SetupConfig) -> (vm: AxVM)
        ensures
            vm@ == VmView::initial(target, config),
            vm@.wf(),
            vm@.fw_cfg.wf(),
    {
        AxVM {
            id: config.vm_id,
            target,
            config,
            vm_status: VMStatus::Loading,
            booted: false,
            shut_down: false,
            memory_regions: Vec::new(),
            vcpus: None,
            fw_cfg: FwCfgState::new(),
            ovmf_virtio_blk: OvmfVirtioBlkIoState::new(),
            debugcon: DebugConsole::new(),
        }
    }

    /// The number of the machine.
    pub fn id(&self) -> (id: usize)
        ensures
            id == self@.id,
    {
        self.id
    }

    /// How interrupts reach the machine, as it is configured now.
    pub fn interrupt_mode(&self) -> (mode: VMInterruptMode)
        ensures
            mode == self@.config.interrupt_mode,
    {
        self.config.interrupt_mode
    }

    /// Calls `f` with the configuration of the machine, which it may change.
    pub fn with_config<R, F: FnOnce(&mut SetupConfig) -> R>(&mut self, f: F) -> (r: R)
        requires
            forall|c: &mut SetupConfig| *c == old(self)@.config ==> call_requires(f, (c,)),
        ensures
            exists|c: &mut SetupConfig|
                *c == old(self)@.config && *final(c) == final(self)@.config && call_ensures(
                    f,
                    (c,),
                    r,
                ),
            final(self)@ == (VmView { config: final(self)@.config, ..old(self)@ }),
            old(self)@.wf() ==> final(self)@.wf(),
    {
        f(&mut self.config)
    }

    /// Whether the setup of the machine can be planned.
    pub fn can_init(&self) -> (b: bool)
        ensures
            b == self@.plannable(),
    {
        self.config.can_init(self.target, self.id)
    }

    /// The steps that set the machine up, in order. A step that fails ends the setup. Where the
    /// machine knows its virtual processors already, those are the ones that are set up.
    pub fn init(&self) -> (steps: Vec<InitAction>)
        requires
            self@.plannable(),
        ensures
            steps@ == self@.setup_steps(),
    {
        let known = match &self.vcpus {
            Some(vcpus) => vcpus.as_slice(),
            None => self.config.vcpus.as_slice(),
        };
        self.config.init_steps(self.target, self.id, known)
    }

    /// Fills in the firmware configuration, as one step of the setup.
    pub fn configure_fw_cfg(&mut self, cpu_count: usize)
        requires
            old(self)@.wf(),
        ensures
            final(self)@ == (VmView {
                fw_cfg: old(self)@.fw_cfg.configured(old(self)@.regions, cpu_count as int),
                ..old(self)@
            }),
            final(self)@.wf(),
            old(self)@.fw_cfg.offset == 0 ==> final(self)@.fw_cfg.wf(),
    {
        proof {
            let pairs = fw_cfg_state::region_pairs(self@.regions);
            assert forall|i: int|
                0 <= i < pairs.len() && (#[trigger] pairs[i]).0 < 0x1_0000_0000 implies pairs[i].0
                + pairs[i].1 <= u64::MAX by {
                assert(self@.regions[i].fits());
            }
        }
        self.fw_cfg.configure(self.memory_regions.as_slice(), cpu_count);
    }

    /// Makes the virtual processors known to the machine, as one step of the setup. They stay the
    /// ones that were made known first.
    pub fn publish_vcpus(&mut self, vcpus: Vec<VcpuAffinity>)
        ensures
            final(self)@ == old(self)@.published(vcpus@),
            old(self)@.wf() ==> final(self)@.wf(),
    {
        if self.vcpus.is_none() {
            self.vcpus = Some(vcpus);
        }
    }

    /// Does the machine's own part of a step of the setup; the rest of the step is up to the
    /// platform.
    pub fn take_step(&mut self, step: InitAction)
        requires
            old(self)@.wf(),
        ensures
            final(self)@ == old(self)@.after_step(step),
            final(self)@.wf(),
    {
        match step {
            InitAction::ConfigureFwCfg { cpu_count } => self.configure_fw_cfg(cpu_count),
            InitAction::Publish => {
                let mut vcpus: Vec<VcpuAffinity> = Vec::new();
                let mut i: usize = 0;
                while i < self.config.vcpus.len()
                    invariant
                        *self == *old(self),
                        i <= self.config.vcpus@.len(),
                        vcpus@ == self.config.vcpus@.take(i as int),
                    decreases self.config.vcpus@.len() - i,
                {
                    vcpus.push(self.config.vcpus[i]);
                    i = i + 1;
                    assert(vcpus@ =~= self.config.vcpus@.take(i as int));
                }
                assert(self.config.vcpus@.take(i as int) =~= self.config.vcpus@);
                self.publish_vcpus(vcpus);
            },
            _ => {},
        }
    }

    /// Sets the state of the machine.
    pub fn set_vm_status(&mut self, status: VMStatus)
        ensures
            final(self)@ == (VmView { status, ..old(self)@ }),
            old(self)@.wf() ==> final(self)@.wf(),
    {
        self.vm_status = status;
    }

    /// The state of the machine.
    pub fn vm_status(&self) -> (status: VMStatus)
        ensures
            status == self@.status,
    {
        self.vm_status
    }

    /// The virtual processor at an index, if there is one.
    pub fn vcpu(&self, vcpu_id: usize) -> (r: Option<VcpuAffinity>)
        requires
            self@.vcpus is Some,
        ensures
            r == if vcpu_id < self@.vcpus.unwrap().len() {
                Some(self@.vcpus.unwrap()[vcpu_id as int])
            } else {
                None
            },
    {
        let list = self.vcpu_list();
        if vcpu_id < list.len() {
            Some(list[vcpu_id])
        } else {
            None
        }
    }

    /// The virtual processor that is to be run. A number that none has is refused, before
    /// anything is run.
    pub fn checked_vcpu(&self, vcpu_id: usize) -> (r: Result<VcpuAffinity, VmError>)
        requires
            self@.vcpus is Some,
        ensures
            vcpu_id < self@.vcpus.unwrap().len() ==> r == Ok::<VcpuAffinity, VmError>(
                self@.vcpus.unwrap()[vcpu_id as int],
            ),
            vcpu_id >= self@.vcpus.unwrap().len() ==> r == Err::<VcpuAffinity, VmError>(
                VmError::InvalidInput,
            ),
    {
        match self.vcpu(vcpu_id) {
            Some(vcpu) => Ok(vcpu),
            None => Err(VmError::InvalidInput),
        }
    }

    /// How many virtual processors the machine has.
    pub fn vcpu_num(&self) -> (n: usize)
        requires
            self@.vcpus is Some,
        ensures
            n == self@.vcpus.unwrap().len(),
    {
        self.vcpu_list().len()
    }

    /// The virtual processors of the machine.
    pub fn vcpu_list(&self) -> (list: &[VcpuAffinity])
        requires
            self@.vcpus is Some,
        ensures
            list@ == self@.vcpus.unwrap(),
    {
        match &self.vcpus {
            Some(vcpus) => vcpus.as_slice(),
            None => {
                assert(false);
                &[]
            },
        }
    }

    /// The virtual processors of the machine, each with its number, the processors of the host
    /// that it may run on, and its physical number.
    pub fn get_vcpu_affinities_pcpu_ids(&self) -> (list: Vec<VcpuAffinity>)
        requires
            self@.vcpus is Some,
        ensures
            list@ == self@.vcpus.unwrap(),
    {
        let known = self.vcpu_list();
        let mut list: Vec<VcpuAffinity> = Vec::new();
        let mut i: usize = 0;
        while i < known.len()
            invariant
                i <= known@.len(),
                list@ == known@.take(i as int),
            decreases known@.len() - i,
        {
            list.push(known[i]);
            i = i + 1;
            assert(list@ =~= known@.take(i as int));
        }
        assert(known@.take(i as int) =~= known@);
        list
    }

    /// Boots the machine. A machine can be booted once, and not after it was shut down.
    pub fn boot(&mut self) -> (r: Result<(), VmError>)
        ensures
            r == if old(self)@.bootable() {
                Ok::<(), VmError>(())
            } else {
                Err(VmError::BadState)
            },
            final(self)@ == if old(self)@.bootable() {
                VmView { status: VMStatus::Running, booted: true, ..old(self)@ }
            } else {
                old(self)@
            },
            old(self)@.wf() ==> final(self)@.wf(),
    {
        if self.running() || self.booted || self.shut_down || self.stopping() || self.stopped() {
            Err(VmError::BadState)
        } else {
            self.booted = true;
            self.set_vm_status(VMStatus::Running);
            Ok(())
        }
    }

    /// Whether the machine is running.
    pub fn running(&self) -> (b: bool)
        ensures
            b == (self@.status == VMStatus::Running),
    {
        self.vm_status == VMStatus::Running
    }

    /// Whether the machine is shutting down.
    pub fn stopping(&self) -> (b: bool)
        ensures
            b == (self@.status == VMStatus::Stopping),
    {
        self.vm_status == VMStatus::Stopping
    }

    /// Whether the machine is paused.
    pub fn suspending(&self) -> (b: bool)
        ensures
            b == (self@.status == VMStatus::Suspended),
    {
        self.vm_status == VMStatus::Suspended
    }

    /// Whether the machine has stopped.
    pub fn stopped(&self) -> (b: bool)
        ensures
            b == (self@.status == VMStatus::Stopped),
    {
        self.vm_status == VMStatus::Stopped
    }

    /// Shuts the machine down, which tells its virtual processors to leave. A machine that is
    /// shutting down or has stopped cannot be shut down.
    pub fn shutdown(&mut self) -> (r: Result<(), VmError>)
        ensures
            r == if old(self)@.ending() {
                Err::<(), VmError>(VmError::BadState)
            } else {
                Ok(())
            },
            final(self)@ == if old(self)@.ending() {
                old(self)@
            } else {
                VmView { status: VMStatus::Stopping, shut_down: true, ..old(self)@ }
            },
            old(self)@.wf() ==> final(self)@.wf(),
    {
        if self.stopping() || self.stopped() {
            Err(VmError::BadState)
        } else {
            self.shut_down = true;
            self.set_vm_status(VMStatus::Stopping);
            Ok(())
        }
    }

    /// The memory regions of the machine.
    pub fn memory_regions(&self) -> (regions: Vec<VMMemoryRegion>)
        ensures
            regions@ == self@.regions,
    {
        let mut regions: Vec<VMMemoryRegion> = Vec::new();
        let mut i: usize = 0;
        while i < self.memory_regions.len()
            invariant
                i <= self.memory_regions@.len(),
                regions@ == self.memory_regions@.take(i as int),
            decreases self.memory_regions@.len() - i,
        {
            regions.push(self.memory_regions[i]);
            i = i + 1;
            assert(regions@ =~= self.memory_regions@.take(i as int));
        }
        assert(self.memory_regions@.take(i as int) =~= self.memory_regions@);
        regions
    }

    /// Has a region mapped, and adds it to the regions of the machine where that worked.
    fn map_and_add<F: Fn(&VMMemoryRegion, MapFlags) -> Result<(), VmError>>(
        &mut self,
        region: VMMemoryRegion,
        map: F,
    ) -> (r: Result<VMMemoryRegion, VmError>)
        requires
            call_requires(map, (&region, MapFlags::for_memory())),
            call_ensures(map, (&region, MapFlags::for_memory()), Ok(())) ==> region.fits(),
        ensures
            AxVM::mapped_with(map, region, r),
            final(self)@ == old(self)@.with_mapped(region, r),
            old(self)@.wf() ==> final(self)@.wf(),
    {
        let mapped = map(&region, MapFlags::memory());
        match mapped {
            Ok(done) => {
                assert(done == ());
                self.memory_regions.push(region);
                Ok(region)
            },
            Err(err) => Err(err),
        }
    }

    /// The result for a region is what mapping it came to, as memory that the guest may read, write
    /// and execute.
    pub open spec fn mapped_with<F: Fn(&VMMemoryRegion, MapFlags) -> Result<(), VmError>>(
        map: F,
        region: VMMemoryRegion,
        r: Result<VMMemoryRegion, VmError>,
    ) -> bool {
        match r {
            Ok(added) => added == region && call_ensures(map, (&region, MapFlags::for_memory()), Ok(())),
            Err(err) => call_ensures(map, (&region, MapFlags::for_memory()), Err::<(), VmError>(err)),
        }
    }

    /// Adds memory that was allocated at `hva`, which is none where nothing could be allocated.
    /// Where no address in the guest is asked for, it is the physical address in the host. The
    /// region is added once `map` has mapped it.
    pub fn alloc_memory_region<F: Fn(&VMMemoryRegion, MapFlags) -> Result<(), VmError>>(
        &mut self,
        gpa: Option<u64>,
        hva: Option<u64>,
        hpa: u64,
        len: u64,
        align: u64,
        map: F,
    ) -> (r: Result<VMMemoryRegion, VmError>)
        requires
            len > 0,
            hva matches Some(hva) ==> {
                let region = VMMemoryRegion::for_allocated(gpa, hva, hpa, len, align);
                &&& call_requires(map, (&region, MapFlags::for_memory()))
                &&& call_ensures(map, (&region, MapFlags::for_memory()), Ok(())) ==> region.fits()
            },
        ensures
            match hva {
                None => {
                    &&& r == Err::<VMMemoryRegion, VmError>(VmError::NoMemory)
                    &&& final(self)@ == old(self)@
                },
                Some(hva) => {
                    let region = VMMemoryRegion::for_allocated(gpa, hva, hpa, len, align);
                    &&& AxVM::mapped_with(map, region, r)
                    &&& final(self)@ == old(self)@.with_mapped(region, r)
                },
            },
            old(self)@.wf() ==> final(self)@.wf(),
    {
        match hva {
            None => Err(VmError::NoMemory),
            Some(hva) => self.map_and_add(
                VMMemoryRegion::allocated(gpa, hva, hpa, len, align),
                map,
            ),
        }
    }

    /// Adds memory that is reserved for the machine at the same address everywhere. The region is
    /// added once `map` has mapped it.
    pub fn map_reserved_memory_region<F: Fn(&VMMemoryRegion, MapFlags) -> Result<(), VmError>>(
        &mut self,
        gpa: u64,
        len: u64,
        align: u64,
        map: F,
    ) -> (r: Result<VMMemoryRegion, VmError>)
        requires
            len > 0,
            ({
                let region = VMMemoryRegion::for_reserved(gpa, len, align);
                &&& call_requires(map, (&region, MapFlags::for_memory()))
                &&& call_ensures(map, (&region, MapFlags::for_memory()), Ok(())) ==> region.fits()
            }),
        ensures
            AxVM::mapped_with(map, VMMemoryRegion::for_reserved(gpa, len, align), r),
            final(self)@ == old(self)@.with_mapped(
                VMMemoryRegion::for_reserved(gpa, len, align),
                r,
            ),
            old(self)@.wf() ==> final(self)@.wf(),
    {
        self.map_and_add(VMMemoryRegion::reserved(gpa, len, align), map)
    }

    /// The virtual processors that an interrupt for the targets is to be queued for, in order.
    pub fn inject_interrupt_to_vcpu(&self, targets: &VcpuMask) -> (ids: Vec<usize>)
        requires
            self@.vcpus is Some,
            forall|i: int|
                0 <= i < self@.vcpus.unwrap().len() ==> (#[trigger] self@.vcpus.unwrap()[i]).0 < 64,
        ensures
            ids@ == cpu_mask::targeted(
                targets@,
                vcpu_ids(self@.vcpus.unwrap()),
                self@.vcpus.unwrap().len(),
            ),
    {
        let list = self.vcpu_list();
        let mut ids: Vec<usize> = Vec::new();
        let mut i: usize = 0;
        while i < list.len()
            invariant
                i <= list@.len(),
                list@ == self@.vcpus.unwrap(),
                ids@ == vcpu_ids(list@).take(i as int),
            decreases list@.len() - i,
        {
            ids.push(list[i].0);
            i = i + 1;
            assert(ids@ =~= vcpu_ids(list@).take(i as int));
        }
        assert(ids@ =~= vcpu_ids(list@));
        cpu_mask::interrupt_targets(targets, ids.as_slice())
    }

    /// Allocates a channel between machines. The size that was asked for is taken up to whole
    /// pages, and `alloc` finds the place for it.
    pub fn alloc_ivc_channel<F: Fn(usize) -> Result<u64, VmError>>(
        &self,
        expected_size: usize,
        alloc: F,
    ) -> (r: Result<(u64, usize), VmError>)
        requires
            expected_size + 0x1000 <= usize::MAX,
            call_requires(alloc, (passthrough::page_len(expected_size as int) as usize,)),
        ensures
            ({
                let size = passthrough::page_len(expected_size as int) as usize;
                match r {
                    Ok((gpa, actual)) => actual == size && call_ensures(alloc, (size,), Ok(gpa)),
                    Err(err) => call_ensures(alloc, (size,), Err::<u64, VmError>(err)),
                }
            }),
    {
        let size: usize = passthrough::ivc_channel_size(expected_size);
        match alloc(size) {
            Ok(gpa) => Ok((gpa, size)),
            Err(err) => Err(err),
        }
    }

    /// The indices of the memory regions that hold the address of a fault.
    pub fn fault_regions(&self, addr: u64) -> (found: Vec<usize>)
        requires
            self@.wf(),
        ensures
            found@ == region::hits(self@.regions, addr as int, 0),
    {
        assert(self.memory_regions@ == self@.regions);
        region::regions_holding(self.memory_regions.as_slice(), addr)
    }

    /// Lets go of the memory of the machine before it goes away, and says in which steps it is to
    /// be unmapped and freed. A machine that was not shut down is shutting down afterwards.
    pub fn cleanup_resources(&mut self) -> (plan: CleanupPlan)
        ensures
            plan.steps@ == region::cleanup_steps(old(self)@.regions),
            region::safely_ordered(plan.steps@),
            plan.done == 0,
            final(self)@ == (VmView {
                status: if old(self)@.ending() {
                    old(self)@.status
                } else {
                    VMStatus::Stopping
                },
                regions: Seq::empty(),
                ..old(self)@
            }),
    {
        if !self.stopping() && !self.stopped() {
            self.set_vm_status(VMStatus::Stopping);
        }
        let plan = region::plan_cleanup(self.memory_regions.as_slice());
        self.memory_regions.clear();
        plan
    }

    /// Reads an object of `size` bytes from guest memory, which lies at a multiple of its
    /// alignment.
    pub fn read_from_guest_of<M: GuestSpace>(mem: &M, gpa_ptr: u64, size: usize, align: u64) -> (r:
        Result<Vec<u8>, VmError>)
        requires
            align > 0,
        ensures
            match mem.ram().load_span(gpa_ptr as int, size as nat) {
                Some(bytes) => if gpa_ptr % align == 0 {
                    r matches Ok(v) && v@ == bytes
                } else {
                    r == Err::<Vec<u8>, VmError>(VmError::InvalidInput)
                },
                None => r == Err::<Vec<u8>, VmError>(VmError::InvalidInput),
            },
    {
        if gpa_ptr % align != 0 {
            return Err(VmError::InvalidInput);
        }
        mem.read_span(gpa_ptr, size)
    }

    /// Writes the bytes of an object to guest memory.
    pub fn write_to_guest_of<M: GuestSpace>(mem: &mut M, gpa_ptr: u64, data: &[u8]) -> (r: Result<
        (),
        VmError,
    >)
        ensures
            final(mem).ram() == old(mem).ram().store_span(gpa_ptr as int, data@).0,
            r == VmError::unless_invalid(old(mem).ram().store_span(gpa_ptr as int, data@).1),
    {
        mem.write_span(gpa_ptr, data)
    }

    /// Takes bytes for the debug console, and hands out the lines that they complete.
    fn debugcon_write_bytes(&mut self, data: &[u8]) -> (lines: Vec<Vec<u8>>)
        ensures
            (debugcon::line_views(lines@), final(self)@.console) == debugcon::split_lines(
                old(self)@.console,
                data@,
                0,
            ),
            final(self)@ == (VmView { console: final(self)@.console, ..old(self)@ }),
    {
        self.debugcon.write_bytes(data)
    }

    /// What the machine makes of a read of a port on x86.
    fn handle_port_read(&mut self, port: Port, width: AccessWidth) -> (r: Result<Handled, VmError>)
        requires
            old(self)@.wf(),
            port.0 == 0x511 ==> old(self)@.fw_cfg.wf(),
        ensures
            forall|ram: RamView|
                {
                    let want = #[trigger] old(self)@.port_read(port, width, ram);
                    final(self)@ == want.vm && want.ram == ram && Handled::agrees(r, want.result)
                },
            final(self)@.wf(),
    {
        if port.number() == DEBUGCON_PORT {
            return Ok(Handled::just(ExitAction::SetGpr { reg: 0, value: DEBUGCON_READBACK as u64 }));
        }
        match self.fw_cfg.io_read(port, width) {
            Some(value) => return Ok(Handled::just(ExitAction::SetGpr { reg: 0, value })),
            None => {},
        }
        let number: u16 = port.number();
        let is_blk: bool = OVMF_VIRTIO_BLK_IO_BASE <= number && number < OVMF_VIRTIO_BLK_IO_BASE
            + OVMF_VIRTIO_BLK_IO_SIZE;
        if is_blk || exit::acpi_pm_port(port) {
            if width == AccessWidth::Qword {
                return Err(VmError::InvalidInput);
            }
            return Ok(Handled::just(ExitAction::ReadHostPort { port, width }));
        }
        Ok(Handled::just(ExitAction::ReadDevicePort { port, width }))
    }

    /// What the machine makes of a write to a port on x86.
    fn handle_port_write<M: GuestSpace>(
        &mut self,
        port: Port,
        width: AccessWidth,
        data: u64,
        mem: &mut M,
    ) -> (r: Result<Handled, VmError>)
        requires
            old(self)@.wf(),
            fw_cfg_state::port_write_fits(
                old(self)@.fw_cfg,
                port,
                width,
                data as int,
                old(mem).ram(),
            ),
        ensures
            ({
                let want = old(self)@.port_written(port, width, data, old(mem).ram());
                &&& final(self)@ == want.vm
                &&& final(mem).ram() == want.ram
                &&& Handled::agrees(r, want.result)
            }),
            final(self)@.wf(),
    {
        if port.number() == DEBUGCON_PORT {
            let byte: [u8; 1] = [(data % 0x100) as u8];
            assert(byte@ =~= seq![(data as int % 0x100) as u8]);
            let lines = self.debugcon_write_bytes(byte.as_slice());
            return Ok(Handled { action: ExitAction::Resume, lines });
        }
        match self.fw_cfg.io_write(port, width, data, mem) {
            Ok(true) => return Ok(Handled::just(ExitAction::Resume)),
            Ok(false) => {},
            Err(err) => return Err(err),
        }
        match self.ovmf_virtio_blk.io_write(port, width, data, mem) {
            Ok(Some(out)) => return Ok(
                Handled::just(
                    ExitAction::WriteHostPort {
                        port,
                        width,
                        value: out.value,
                        snapshot: out.snapshot,
                    },
                ),
            ),
            Ok(None) => {},
            Err(err) => return Err(err),
        }
        if exit::acpi_pm_port(port) {
            if width == AccessWidth::Qword {
                return Err(VmError::InvalidInput);
            }
            return Ok(
                Handled::just(
                    ExitAction::WriteHostPort {
                        port,
                        width,
                        value: ovmf_blk::narrow(data, width),
                        snapshot: None,
                    },
                ),
            );
        }
        Ok(Handled::just(ExitAction::WriteDevicePort { port, width, data }))
    }

    /// Whether the machine can make something of an exit: it cannot where the exit would read the
    /// firmware configuration from outside the selected item, or move its reader further than can
    /// be counted.
    pub fn can_handle<M: GuestSpace>(&self, exit: VmExit, mem: &M) -> (b: bool)
        ensures
            b == self@.exit_fits(exit, mem.ram()),
    {
        match exit {
            VmExit::IoRead { port, width } => self.target.arch != Arch::X86_64 || port.number()
                != FW_CFG_IO_DATA || self.fw_cfg.in_item(),
            VmExit::IoWrite { port, width, data } => self.target.arch != Arch::X86_64
                || self.fw_cfg.can_write(port, width, data, mem),
            _ => true,
        }
    }

    /// What the machine makes of an exit of a virtual processor: what is to be done outside the
    /// machine, and the lines that the debug console has completed.
    pub fn handle_exit<M: GuestSpace>(&mut self, exit: VmExit, mem: &mut M) -> (r: Result<
        Handled,
        VmError,
    >)
        requires
            old(self)@.wf(),
            old(self)@.exit_fits(exit, old(mem).ram()),
        ensures
            ({
                let want = old(self)@.exit_handled(exit, old(mem).ram());
                &&& final(self)@ == want.vm
                &&& final(mem).ram() == want.ram
                &&& Handled::agrees(r, want.result)
            }),
            final(self)@.wf(),
    {
        if self.target.arch == Arch::X86_64 {
            match exit {
                VmExit::IoRead { port, width } => return self.handle_port_read(port, width),
                VmExit::IoWrite { port, width, data } => return self.handle_port_write(
                    port,
                    width,
                    data,
                    mem,
                ),
                VmExit::IoStringRead { port, dst_gpa, count } => {
                    if port.number() == DEBUGCON_PORT {
                        let fill: Vec<u8> = vec![DEBUGCON_READBACK; count];
                        assert(fill@ =~= Seq::new(count as nat, |i: int| 0xe9u8));
                        return match mem.write_span(dst_gpa, fill.as_slice()) {
                            Ok(()) => Ok(Handled::just(ExitAction::Resume)),
                            Err(err) => Err(err),
                        };
                    }
                },
                VmExit::IoStringWrite { port, src_gpa, count } => {
                    if port.number() == DEBUGCON_PORT {
                        return match mem.read_span(src_gpa, count) {
                            Ok(data) => {
                                let lines = self.debugcon_write_bytes(data.as_slice());
                                Ok(Handled { action: ExitAction::Resume, lines })
                            },
                            Err(err) => Err(err),
                        };
                    }
                },
                _ => {},
            }
        }
        Ok(Handled::just(exit::forward(exit)))
    }

    /// How a virtual processor goes on once an action has come to an event.
    pub fn finish_exit(&mut self, action: ExitAction, event: Event) -> (next: Followup)
        requires
            action.comes_to(event),
        ensures
            (final(self)@, next) == old(self)@.exit_finished(action, event),
            old(self)@.wf() ==> final(self)@.wf(),
    {
        let raw: u64 = match event {
            Event::Value(value) => value,
            _ => 0,
        };
        let io_reg: usize = if self.target.arch == Arch::Riscv64 {
            10
        } else {
            0
        };
        match action {
            ExitAction::SetGpr { reg, value } => Followup::SetGpr { reg, value },
            ExitAction::ReadMmio { addr, width, reg, reg_width, signed_ext } => Followup::SetGpr {
                reg,
                value: value::mmio_read_value(raw, width, reg_width, signed_ext),
            },
            ExitAction::ReadHostPort { port, width } => {
                self.ovmf_virtio_blk.note_read(port, width, raw);
                Followup::SetGpr { reg: io_reg, value: raw }
            },
            ExitAction::ReadDevicePort { .. } => Followup::SetGpr { reg: io_reg, value: raw },
            ExitAction::ReadSysReg { addr, reg } => Followup::SetGpr { reg, value: raw },
            ExitAction::HandlePageFault { .. } => match event {
                Event::Handled(true) => Followup::Resume,
                _ => Followup::Leave,
            },
            ExitAction::Leave => Followup::Leave,
            _ => Followup::Resume,
        }
    }
}

} // verus!

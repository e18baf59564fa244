//! How a machine is set up before it boots: the steps, in the order in which they are taken.

use vstd::prelude::*;

use crate::vm::passthrough;
use crate::vm::passthrough::Region;
use crate::vm::region::MapFlags;
use crate::vm::status::{Arch, Target, VMInterruptMode};

verus! {

/// Where the registers of the local interrupt controller lie in the guest.
pub const LOCAL_APIC_GPA: u64 = 0xfee0_0000;

/// How long the registers of the local interrupt controller are.
pub const LOCAL_APIC_SIZE: u64 = 0x1000;

/// How long the page is on which accesses to the local interrupt controller are caught.
pub const APIC_ACCESS_SIZE: u64 = 0x1000;

/// The number of the first shared peripheral interrupt.
pub const FIRST_SPI: u32 = 32;

/// A virtual processor: its number, the processors of the host that it may run on, and its
/// physical number.
pub type VcpuAffinity = (usize, Option<usize>, usize);

/// The kind of an emulated device.
#[derive(Clone, Copy, Debug, PartialEq, Eq, Structural)]
pub enum EmuDeviceKind {
    /// A serial console.
    Console,
    /// Any other device.
    Other,
}

/// What a virtual processor is created with.
#[derive(Clone, Copy, Debug, PartialEq, Eq, Structural)]
pub enum VcpuCreateConfig {
    /// Nothing.
    Plain,
    /// Its affinity register, and where the device tree lies.
    Aarch64 { mpidr_el1: u64, dtb_addr: u64 },
    /// Its hardware thread, and where the device tree lies.
    Riscv64 { hart_id: usize, dtb_addr: u64 },
    /// Its number, and where the device tree lies.
    Loongarch64 { cpu_id: usize, dtb_addr: u64 },
}

/// What a virtual processor is set up with.
#[derive(Clone, Copy, Debug, PartialEq, Eq, Structural)]
pub enum VcpuSetupConfig {
    /// Nothing.
    Plain,
    /// Whether the first serial port is emulated.
    X86 { emulate_com1: bool },
    /// Whether interrupts and the timer pass through.
    Passthrough { interrupt: bool, timer: bool },
}

/// A step of the setup.
#[derive(Clone, Copy, Debug, PartialEq, Eq, Structural)]
pub enum InitAction {
    /// Create a virtual processor.
    CreateVcpu { id: usize, affinity: Option<usize>, config: VcpuCreateConfig },
    /// Fill in the firmware configuration.
    ConfigureFwCfg { cpu_count: usize },
    /// Map the registers of the local interrupt controller to the page of the host that stands for
    /// them.
    MapLocalApic { gpa: u64, size: u64, flags: MapFlags },
    /// Map a region of the guest to a region of the host.
    MapPassthrough { gpa: usize, hpa: usize, len: usize, flags: MapFlags },
    /// Map the page on which the processor catches accesses to the local interrupt controller.
    MapApicAccess { size: u64, flags: MapFlags },
    /// Create the emulated devices.
    BuildDevices,
    /// Give a shared interrupt to a processor, on the first distributor among the devices.
    AssignSpi { irq: u32, cpu_id: usize },
    /// Add the devices behind system registers.
    AddSysRegDevices,
    /// Make the processors of the configuration and the devices known to the machine.
    Publish,
    /// Set up the virtual processor at an index among those that the machine knows.
    SetupVcpu { index: usize, id: usize, entry: u64, config: VcpuSetupConfig },
}

/// The configuration of a machine.
#[derive(Debug)]
pub struct SetupConfig {
    pub vm_id: usize,
    pub interrupt_mode: VMInterruptMode,
    pub dtb_load_gpa: Option<u64>,
    pub vcpus: Vec<VcpuAffinity>,
    pub pass_through_devices: Vec<Region>,
    pub pass_through_addresses: Vec<Region>,
    pub pass_through_spis: Vec<u32>,
    pub emu_devices: Vec<EmuDeviceKind>,
    pub bsp_entry: u64,
    pub ap_entry: u64,
}

/// What a virtual processor is created with.
pub open spec fn create_config(
    arch: Arch,
    dtb: Option<u64>,
    vcpu: VcpuAffinity,
) -> VcpuCreateConfig {
    let dtb_addr = match dtb {
        Some(addr) => addr,
        None => 0,
    };
    match arch {
        Arch::X86_64 => VcpuCreateConfig::Plain,
        Arch::Aarch64 => VcpuCreateConfig::Aarch64 { mpidr_el1: vcpu.2 as u64, dtb_addr },
        Arch::Riscv64 => VcpuCreateConfig::Riscv64 { hart_id: vcpu.0, dtb_addr },
        Arch::Loongarch64 => VcpuCreateConfig::Loongarch64 { cpu_id: vcpu.0, dtb_addr },
    }
}

/// Some of the devices is a console.
pub open spec fn has_console(devices: Seq<EmuDeviceKind>) -> bool {
    exists|i: int| 0 <= i < devices.len() && #[trigger] devices[i] == EmuDeviceKind::Console
}

/// The step that maps the page on which accesses to the local interrupt controller are caught.
pub open spec fn apic_access_steps(target: Target) -> Seq<InitAction> {
    if target.arch == Arch::X86_64 && target.vmx {
        seq![
            InitAction::MapApicAccess {
                size: APIC_ACCESS_SIZE,
                flags: MapFlags::for_apic_access(),
            },
        ]
    } else {
        Seq::empty()
    }
}

impl SetupConfig {
    /// The step that creates the virtual processor at an index.
    pub open spec fn create_step(self, target: Target, i: int) -> InitAction {
        InitAction::CreateVcpu {
            id: self.vcpus@[i].0,
            affinity: self.vcpus@[i].1,
            config: create_config(target.arch, self.dtb_load_gpa, self.vcpus@[i]),
        }
    }

    /// The steps that x86 takes once the processors are created.
    pub open spec fn platform_steps(self, target: Target) -> Seq<InitAction> {
        if target.arch == Arch::X86_64 {
            seq![
                InitAction::ConfigureFwCfg { cpu_count: self.vcpus@.len() as usize },
                InitAction::MapLocalApic {
                    gpa: LOCAL_APIC_GPA,
                    size: LOCAL_APIC_SIZE,
                    flags: MapFlags::for_device(),
                },
            ]
        } else {
            Seq::empty()
        }
    }

    /// The regions that pass through.
    pub open spec fn regions(self) -> Seq<Region> {
        passthrough::passed_through(self.pass_through_devices@ + self.pass_through_addresses@)
    }

    /// The step that maps the region at an index: to the same addresses of the host, as the
    /// registers of a device.
    pub open spec fn map_step(self, i: int) -> InitAction {
        InitAction::MapPassthrough {
            gpa: self.regions()[i].0,
            hpa: self.regions()[i].0,
            len: self.regions()[i].1,
            flags: MapFlags::for_device(),
        }
    }

    /// The step that assigns the shared interrupt at an index, in the machine with a number.
    pub open spec fn spi_step(self, id: usize, i: int) -> InitAction {
        InitAction::AssignSpi {
            irq: (self.pass_through_spis@[i] + 32) as u32,
            cpu_id: (id - 1) as usize,
        }
    }

    /// The machine owns shared interrupts of the host.
    pub open spec fn owns_spis(self, target: Target) -> bool {
        target.arch == Arch::Aarch64 && self.interrupt_mode == VMInterruptMode::Passthrough
    }

    /// The steps that come once the devices are created.
    pub open spec fn device_steps(self, target: Target, id: usize) -> Seq<InitAction> {
        if self.owns_spis(target) {
            Seq::new(self.pass_through_spis@.len(), |i: int| self.spi_step(id, i))
        } else if target.arch == Arch::Aarch64 {
            seq![InitAction::AddSysRegDevices]
        } else {
            Seq::empty()
        }
    }

    /// What the virtual processors are set up with.
    pub open spec fn setup_config(self, target: Target) -> VcpuSetupConfig {
        let passthrough = self.interrupt_mode == VMInterruptMode::Passthrough;
        match target.arch {
            Arch::X86_64 => VcpuSetupConfig::X86 { emulate_com1: has_console(self.emu_devices@) },
            Arch::Riscv64 => VcpuSetupConfig::Plain,
            _ => VcpuSetupConfig::Passthrough { interrupt: passthrough, timer: passthrough },
        }
    }

    /// The step that sets up the virtual processor at an index of a list. The first processor
    /// starts at an entry of its own.
    pub open spec fn setup_step(
        self,
        target: Target,
        known: Seq<VcpuAffinity>,
        i: int,
    ) -> InitAction {
        InitAction::SetupVcpu {
            index: i as usize,
            id: known[i].0,
            entry: if known[i].0 == 0 {
                self.bsp_entry
            } else {
                self.ap_entry
            },
            config: self.setup_config(target),
        }
    }

    /// The steps that set up the machine with the number `id`, which knows the virtual processors
    /// of `known` once it has been told of those of the configuration.
    pub open spec fn steps(
        self,
        target: Target,
        id: usize,
        known: Seq<VcpuAffinity>,
    ) -> Seq<InitAction> {
        Seq::new(self.vcpus@.len(), |i: int| self.create_step(target, i)) + self.platform_steps(
            target,
        ) + Seq::new(self.regions().len(), |i: int| self.map_step(i)) + apic_access_steps(target)
            + seq![InitAction::BuildDevices] + self.device_steps(target, id)
            + seq![InitAction::Publish] + Seq::new(
            known.len(),
            |i: int| self.setup_step(target, known, i),
        )
    }

    /// The regions can be aligned and merged, and the numbers of shared interrupts and of the
    /// processor that gets them exist.
    pub open spec fn wf(self, target: Target, id: usize) -> bool {
        &&& passthrough::passable(self.pass_through_devices@ + self.pass_through_addresses@)
        &&& self.owns_spis(target) ==> id >= 1 && forall|i: int|
            0 <= i < self.pass_through_spis@.len() ==> #[trigger] self.pass_through_spis@[i] + 32
                <= u32::MAX
    }

    /// Whether the setup of the machine with a number can be planned.
    pub fn can_init(&self, target: Target, id: usize) -> (b: bool)
        ensures
            b == self.wf(target, id),
    {
        if !passthrough::can_pass_through(
            self.pass_through_devices.as_slice(),
            self.pass_through_addresses.as_slice(),
        ) {
            return false;
        }
        if target.arch != Arch::Aarch64 || self.interrupt_mode != VMInterruptMode::Passthrough {
            return true;
        }
        let mut i: usize = 0;
        while i < self.pass_through_spis.len()
            invariant
                i <= self.pass_through_spis@.len(),
                self.owns_spis(target),
                forall|k: int|
                    0 <= k < i ==> #[trigger] self.pass_through_spis@[k] + 32 <= u32::MAX,
            decreases self.pass_through_spis@.len() - i,
        {
            if self.pass_through_spis[i] > u32::MAX - FIRST_SPI {
                assert(!(self.pass_through_spis@[i as int] + 32 <= u32::MAX));
                return false;
            }
            i = i + 1;
        }
        id >= 1
    }

    /// Whether some of the devices is a console.
    fn emulates_com1(&self) -> (b: bool)
        ensures
            b == has_console(self.emu_devices@),
    {
        let mut i: usize = 0;
        while i < self.emu_devices.len()
            invariant
                i <= self.emu_devices@.len(),
                forall|k: int| 0 <= k < i ==> #[trigger] self.emu_devices@[k]
                    != EmuDeviceKind::Console,
            decreases self.emu_devices@.len() - i,
        {
            if self.emu_devices[i] == EmuDeviceKind::Console {
                return true;
            }
            i = i + 1;
        }
        false
    }

    /// Appends the steps that create the virtual processors.
    fn push_create_steps(&self, target: Target, steps: &mut Vec<InitAction>)
        ensures
            final(steps)@ == old(steps)@ + Seq::new(
                self.vcpus@.len(),
                |i: int| self.create_step(target, i),
            ),
    {
        let dtb_addr: u64 = match self.dtb_load_gpa {
            Some(addr) => addr,
            None => 0,
        };
        let mut i: usize = 0;
        while i < self.vcpus.len()
            invariant
                i <= self.vcpus@.len(),
                dtb_addr == match self.dtb_load_gpa {
                    Some(addr) => addr,
                    None => 0,
                },
                steps@ == old(steps)@ + Seq::new(i as nat, |i: int| self.create_step(target, i)),
            decreases self.vcpus@.len() - i,
        {
            let (id, affinity, pcpu_id) = self.vcpus[i];
            let config = match target.arch {
                Arch::X86_64 => VcpuCreateConfig::Plain,
                Arch::Aarch64 => VcpuCreateConfig::Aarch64 { mpidr_el1: pcpu_id as u64, dtb_addr },
                Arch::Riscv64 => VcpuCreateConfig::Riscv64 { hart_id: id, dtb_addr },
                Arch::Loongarch64 => VcpuCreateConfig::Loongarch64 { cpu_id: id, dtb_addr },
            };
            steps.push(InitAction::CreateVcpu { id, affinity, config });
            i = i + 1;
            assert(steps@ =~= old(steps)@ + Seq::new(
                i as nat,
                |i: int| self.create_step(target, i),
            ));
        }
    }

    /// Appends the steps that map the regions that pass through.
    fn push_map_steps(&self, steps: &mut Vec<InitAction>)
        requires
            passthrough::passable(self.pass_through_devices@ + self.pass_through_addresses@),
        ensures
            final(steps)@ == old(steps)@ + Seq::new(
                self.regions().len(),
                |i: int| self.map_step(i),
            ),
    {
        let regions = passthrough::passthrough_regions(
            self.pass_through_devices.as_slice(),
            self.pass_through_addresses.as_slice(),
        );
        let mut i: usize = 0;
        while i < regions.len()
            invariant
                i <= regions@.len(),
                regions@ == self.regions(),
                steps@ == old(steps)@ + Seq::new(i as nat, |i: int| self.map_step(i)),
            decreases regions@.len() - i,
        {
            let (gpa, len) = regions[i];
            steps.push(
                InitAction::MapPassthrough { gpa, hpa: gpa, len, flags: MapFlags::device() },
            );
            i = i + 1;
            assert(steps@ =~= old(steps)@ + Seq::new(i as nat, |i: int| self.map_step(i)));
        }
    }

    /// Appends the steps that come once the devices are created.
    fn push_device_steps(&self, target: Target, id: usize, steps: &mut Vec<InitAction>)
        requires
            self.wf(target, id),
        ensures
            final(steps)@ == old(steps)@ + self.device_steps(target, id),
    {
        if target.arch == Arch::Aarch64 && self.interrupt_mode == VMInterruptMode::Passthrough {
            let cpu_id: usize = id - 1;
            let mut i: usize = 0;
            while i < self.pass_through_spis.len()
                invariant
                    i <= self.pass_through_spis@.len(),
                    self.wf(target, id),
                    self.owns_spis(target),
                    cpu_id == id - 1,
                    steps@ == old(steps)@ + Seq::new(i as nat, |i: int| self.spi_step(id, i)),
                decreases self.pass_through_spis@.len() - i,
            {
                assert(self.pass_through_spis@[i as int] + 32 <= u32::MAX);
                steps.push(
                    InitAction::AssignSpi { irq: self.pass_through_spis[i] + FIRST_SPI, cpu_id },
                );
                i = i + 1;
                assert(steps@ =~= old(steps)@ + Seq::new(i as nat, |i: int| self.spi_step(id, i)));
            }
        } else if target.arch == Arch::Aarch64 {
            steps.push(InitAction::AddSysRegDevices);
            assert(steps@ =~= old(steps)@ + self.device_steps(target, id));
        } else {
            assert(steps@ =~= old(steps)@ + self.device_steps(target, id));
        }
    }

    /// Appends the steps that set up the virtual processors of a list.
    fn push_setup_steps(
        &self,
        target: Target,
        known: &[VcpuAffinity],
        steps: &mut Vec<InitAction>,
    )
        ensures
            final(steps)@ == old(steps)@ + Seq::new(
                known@.len(),
                |i: int| self.setup_step(target, known@, i),
            ),
    {
        let passthrough: bool = self.interrupt_mode == VMInterruptMode::Passthrough;
        let config = match target.arch {
            Arch::X86_64 => VcpuSetupConfig::X86 { emulate_com1: self.emulates_com1() },
            Arch::Riscv64 => VcpuSetupConfig::Plain,
            _ => VcpuSetupConfig::Passthrough { interrupt: passthrough, timer: passthrough },
        };
        let mut i: usize = 0;
        while i < known.len()
            invariant
                i <= known@.len(),
                config == self.setup_config(target),
                steps@ == old(steps)@ + Seq::new(
                    i as nat,
                    |i: int| self.setup_step(target, known@, i),
                ),
            decreases known@.len() - i,
        {
            let id: usize = known[i].0;
            let entry: u64 = if id == 0 {
                self.bsp_entry
            } else {
                self.ap_entry
            };
            steps.push(InitAction::SetupVcpu { index: i, id, entry, config });
            i = i + 1;
            assert(steps@ =~= old(steps)@ + Seq::new(
                i as nat,
                |i: int| self.setup_step(target, known@, i),
            ));
        }
    }

    /// The steps that set up the machine with the number `id`, in the order in which they are to be
    /// taken. A step that fails ends the setup.
    pub fn init_steps(&self, target: Target, id: usize, known: &[VcpuAffinity]) -> (steps: Vec<
        InitAction,
    >)
        requires
            self.wf(target, id),
        ensures
            steps@ == self.steps(target, id, known@),
    {
        let mut steps: Vec<InitAction> = Vec::new();
        self.push_create_steps(target, &mut steps);
        if target.arch == Arch::X86_64 {
            steps.push(InitAction::ConfigureFwCfg { cpu_count: self.vcpus.len() });
            steps.push(
                InitAction::MapLocalApic {
                    gpa: LOCAL_APIC_GPA,
                    size: LOCAL_APIC_SIZE,
                    flags: MapFlags::device(),
                },
            );
        }
        let ghost creates = Seq::new(self.vcpus@.len(), |i: int| self.create_step(target, i));
        assert(steps@ =~= creates + self.platform_steps(target));
        self.push_map_steps(&mut steps);
        let ghost maps = Seq::new(self.regions().len(), |i: int| self.map_step(i));
        if target.arch == Arch::X86_64 && target.vmx {
            steps.push(
                InitAction::MapApicAccess {
                    size: APIC_ACCESS_SIZE,
                    flags: MapFlags::apic_access(),
                },
            );
        }
        assert(steps@ =~= creates + self.platform_steps(target) + maps + apic_access_steps(target));
        steps.push(InitAction::BuildDevices);
        self.push_device_steps(target, id, &mut steps);
        steps.push(InitAction::Publish);
        assert(steps@ =~= creates + self.platform_steps(target) + maps + apic_access_steps(target)
            + seq![InitAction::BuildDevices] + self.device_steps(target, id)
            + seq![InitAction::Publish]);
        self.push_setup_steps(target, known, &mut steps);
        steps
    }
}

/// No virtual processor is set up before the machine knows the processors and the devices. Each
/// virtual processor of the configuration is created first, by the step at its index, and each one
/// that the machine knows is set up last, by the step as far from the end.
pub proof fn processors_are_set_up_last(
    cfg: SetupConfig,
    target: Target,
    id: usize,
    known: Seq<VcpuAffinity>,
)
    ensures
        ({
            let steps = cfg.steps(target, id, known);
            let publish = steps.len() - known.len() - 1;
            &&& cfg.vcpus@.len() < publish
            &&& steps[publish] == InitAction::Publish
            &&& forall|i: int|
                0 <= i < cfg.vcpus@.len() ==> #[trigger] steps[i] == cfg.create_step(target, i)
            &&& forall|i: int|
                publish < i < steps.len() ==> #[trigger] steps[i] == cfg.setup_step(
                    target,
                    known,
                    i - publish - 1,
                )
        }),
{
}

} // verus!

use axvm_devices::bus::{AccessWidth, Port};
use axvm_devices::error::VmError;
use axvm_devices::guest_memory::{GuestMemory, GuestRam};
use axvm_devices::vm::chunks::{gather_chunks, scatter_ranges};
use axvm_devices::vm::cpu_mask::{interrupt_targets, VcpuMask};
use axvm_devices::vm::exit::{Event, ExitAction, Followup, VmExit};
use axvm_devices::vm::machine::AxVM;
use axvm_devices::vm::ovmf_blk::OvmfVirtioBlkIoState;
use axvm_devices::vm::passthrough::{ivc_channel_size, passthrough_regions};
use axvm_devices::vm::region::{CleanupStep, MapFlags, VMMemoryRegion};
use axvm_devices::vm::setup::{
    EmuDeviceKind, InitAction, SetupConfig, VcpuCreateConfig, VcpuSetupConfig,
};
use axvm_devices::vm::status::{Arch, Target, VMInterruptMode, VMStatus};
use axvm_devices::vm::value::{mmio_read_value, sign_extend_value, width_mask};

const X86: Target = Target {
    arch: Arch::X86_64,
    vmx: true,
};

const ARM: Target = Target {
    arch: Arch::Aarch64,
    vmx: false,
};

const RISCV: Target = Target {
    arch: Arch::Riscv64,
    vmx: false,
};

fn machine() -> AxVM {
    let mut cfg = config();
    cfg.vm_id = 3;
    cfg.interrupt_mode = VMInterruptMode::Emulated;
    AxVM::new(X86, cfg)
}

#[test]
fn status_names() {
    assert_eq!(VMStatus::Loading.as_str(), "loading");
    assert_eq!(VMStatus::Loaded.as_str(), "loaded");
    assert_eq!(VMStatus::Running.as_str(), "running");
    assert_eq!(VMStatus::Suspended.as_str(), "suspended");
    assert_eq!(VMStatus::Stopping.as_str(), "stopping");
    assert_eq!(VMStatus::Stopped.as_str(), "stopped");
    assert_eq!(VMStatus::Running.as_str_with_icon(), "🚀 running");
    assert_eq!(VMStatus::Stopping.as_str_with_icon(), "⏹️ stopping");
}

#[test]
fn machine_boots_once_and_shuts_down_once() {
    let mut vm = machine();
    assert_eq!(vm.id(), 3);
    assert_eq!(vm.interrupt_mode(), VMInterruptMode::Emulated);
    assert_eq!(vm.vm_status(), VMStatus::Loading);
    assert_eq!(vm.boot(), Ok(()));
    assert!(vm.running());
    assert_eq!(vm.boot(), Err(VmError::BadState));
    vm.set_vm_status(VMStatus::Suspended);
    assert!(vm.suspending());
    assert_eq!(vm.boot(), Err(VmError::BadState));
    assert_eq!(vm.shutdown(), Ok(()));
    assert!(vm.stopping());
    assert_eq!(vm.shutdown(), Err(VmError::BadState));
    assert_eq!(vm.boot(), Err(VmError::BadState));
    vm.set_vm_status(VMStatus::Stopped);
    assert!(vm.stopped());
    assert_eq!(vm.shutdown(), Err(VmError::BadState));
    assert_eq!(vm.boot(), Err(VmError::BadState));
}

#[test]
fn machine_that_was_shut_down_before_it_ran_does_not_boot() {
    let mut vm = machine();
    vm.shutdown().unwrap();
    assert_eq!(vm.boot(), Err(VmError::BadState));
    assert!(!vm.running());
    vm.set_vm_status(VMStatus::Loaded);
    assert_eq!(vm.boot(), Err(VmError::BadState));
    assert_eq!(vm.vm_status(), VMStatus::Loaded);
}

#[test]
fn suspended_machine_that_never_ran_boots() {
    let mut vm = machine();
    vm.set_vm_status(VMStatus::Suspended);
    assert_eq!(vm.boot(), Ok(()));
}

#[test]
fn memory_regions_are_kept_and_cleaned_up() {
    let mut vm = machine();
    let allocated = vm
        .alloc_memory_region(None, Some(0x7000), 0x4000, 0x1000, 0x1000, |_r: &VMMemoryRegion, _flags: MapFlags| {
            Ok(())
        })
        .unwrap();
    assert_eq!(allocated.gpa, 0x4000);
    assert_eq!(allocated.size(), 0x1000);
    assert_eq!(allocated.host_paddr(), 0x4000);
    assert!(allocated.is_identical());
    let moved = vm
        .alloc_memory_region(
            Some(0x10_0000),
            Some(0x9000),
            0x5000,
            0x2000,
            0x1000,
            |_r: &VMMemoryRegion, _flags: MapFlags| Ok(()),
        )
        .unwrap();
    assert!(!moved.is_identical());
    vm.map_reserved_memory_region(0x20_0000, 0x3000, 0x1000, |_r: &VMMemoryRegion, _flags: MapFlags| Ok(()))
        .unwrap();
    assert_eq!(
        vm.alloc_memory_region(None, None, 0, 1, 1, |_r: &VMMemoryRegion, _flags: MapFlags| Ok(())),
        Err(VmError::NoMemory)
    );
    assert_eq!(
        vm.map_reserved_memory_region(0, 1, 1, |_r: &VMMemoryRegion, _flags: MapFlags| Err(VmError::InvalidInput)),
        Err(VmError::InvalidInput)
    );
    assert_eq!(vm.memory_regions().len(), 3);
    assert_eq!(vm.fault_regions(0x10_1fff), vec![1]);
    assert_eq!(vm.fault_regions(0x10_2000), Vec::<usize>::new());
    assert_eq!(vm.fault_regions(0x20_0000), vec![2]);

    let mut plan = vm.cleanup_resources();
    assert!(vm.memory_regions().is_empty());
    assert!(vm.stopping());
    let mut steps = Vec::new();
    while let Some(step) = plan.next_step(Err(VmError::InvalidInput)) {
        steps.push(step);
    }
    assert_eq!(
        steps,
        vec![
            CleanupStep::Unmap {
                gpa: 0x4000,
                len: 0x1000
            },
            CleanupStep::Unmap {
                gpa: 0x10_0000,
                len: 0x2000
            },
            CleanupStep::Unmap {
                gpa: 0x20_0000,
                len: 0x3000
            },
            CleanupStep::Dealloc {
                hva: 0x7000,
                len: 0x1000,
                align: 0x1000
            },
            CleanupStep::Dealloc {
                hva: 0x9000,
                len: 0x2000,
                align: 0x1000
            },
            CleanupStep::ClearSpace,
        ]
    );
    assert_eq!(plan.next_step(Ok(())), None);
    assert_eq!(vm.cleanup_resources().steps, vec![CleanupStep::ClearSpace]);
}

#[test]
fn memory_is_mapped_for_reading_writing_and_executing() {
    let mut vm = machine();
    let all = MapFlags {
        read: true,
        write: true,
        execute: true,
        user: true,
        device: false,
    };
    vm.alloc_memory_region(None, Some(0x7000), 0x4000, 0x1000, 0x1000, |r: &VMMemoryRegion, flags| {
        assert_eq!((r.gpa, r.hpa), (0x4000, 0x4000));
        assert_eq!(flags, all);
        Ok(())
    })
    .unwrap();
}

#[test]
fn cleanup_keeps_a_stopped_machine_stopped() {
    let mut vm = machine();
    vm.set_vm_status(VMStatus::Stopped);
    let plan = vm.cleanup_resources();
    assert_eq!(plan.steps, vec![CleanupStep::ClearSpace]);
    assert!(vm.stopped());
}

#[test]
fn masks_and_sign_extension() {
    assert_eq!(width_mask(AccessWidth::Byte), 0xff);
    assert_eq!(width_mask(AccessWidth::Word), 0xffff);
    assert_eq!(width_mask(AccessWidth::Dword), 0xffff_ffff);
    assert_eq!(width_mask(AccessWidth::Qword), u64::MAX);
    assert_eq!(sign_extend_value(0x180, AccessWidth::Byte), (-128i64) as u64);
    assert_eq!(sign_extend_value(0x17f, AccessWidth::Byte), 0x7f);
    assert_eq!(sign_extend_value(0x8000, AccessWidth::Word), (-32768i64) as u64);
    assert_eq!(
        sign_extend_value(0xffff_fffe, AccessWidth::Dword),
        (-2i64) as u64
    );
    assert_eq!(sign_extend_value(u64::MAX, AccessWidth::Qword), u64::MAX);
    assert_eq!(
        mmio_read_value(0x1_80ff, AccessWidth::Word, AccessWidth::Byte, false),
        0xff
    );
    assert_eq!(
        mmio_read_value(0x1_80ff, AccessWidth::Word, AccessWidth::Dword, true),
        0xffff_ffff_ffff_80ff
    );
}

#[test]
fn passthrough_regions_are_aligned_ordered_and_merged() {
    let regions = passthrough_regions(
        &[(0x5123, 0x10), (0x1000, 0x1001), (0xa000, 0x1000)],
        &[(0x3000, 0x1000), (0x2800, 0x800), (0xb000, 1)],
    );
    assert_eq!(
        regions,
        vec![(0x1000, 0x3000), (0x5000, 0x1000), (0xa000, 0x2000)]
    );
    assert!(passthrough_regions(&[], &[]).is_empty());
    assert_eq!(passthrough_regions(&[(0x1fff, 0)], &[]), vec![(0x1000, 0)]);
    assert_eq!(
        passthrough_regions(&[(0x1000, 0x5000), (0x2000, 0x1000)], &[]),
        vec![(0x1000, 0x5000)]
    );
}

#[test]
fn channels_take_whole_pages() {
    assert_eq!(ivc_channel_size(1), 0x1000);
    assert_eq!(ivc_channel_size(0x1000), 0x1000);
    assert_eq!(ivc_channel_size(0), 0);
    let vm = machine();
    assert_eq!(
        vm.alloc_ivc_channel(0x1001, |size: usize| {
            assert_eq!(size, 0x2000);
            Ok(0x8000)
        }),
        Ok((0x8000, 0x2000))
    );
    assert_eq!(
        vm.alloc_ivc_channel(1, |_size: usize| Err(VmError::NoMemory)),
        Err(VmError::NoMemory)
    );
}

fn config() -> SetupConfig {
    SetupConfig {
        vm_id: 1,
        interrupt_mode: VMInterruptMode::Passthrough,
        dtb_load_gpa: Some(0x800),
        vcpus: vec![(0, Some(1), 7), (1, None, 8)],
        pass_through_devices: vec![(0x1010, 0x20)],
        pass_through_addresses: vec![(0x2000, 0x1000)],
        pass_through_spis: vec![5, 9],
        emu_devices: vec![EmuDeviceKind::Other, EmuDeviceKind::Console],
        bsp_entry: 0x10,
        ap_entry: 0x20,
    }
}

#[test]
fn setup_steps_on_x86() {
    let setup = VcpuSetupConfig::X86 { emulate_com1: true };
    let device = MapFlags {
        read: true,
        write: true,
        execute: false,
        user: true,
        device: true,
    };
    let vm = AxVM::new(X86, config());
    assert!(vm.can_init());
    assert_eq!(
        vm.init(),
        vec![
            InitAction::CreateVcpu {
                id: 0,
                affinity: Some(1),
                config: VcpuCreateConfig::Plain
            },
            InitAction::CreateVcpu {
                id: 1,
                affinity: None,
                config: VcpuCreateConfig::Plain
            },
            InitAction::ConfigureFwCfg { cpu_count: 2 },
            InitAction::MapLocalApic {
                gpa: 0xfee0_0000,
                size: 0x1000,
                flags: device
            },
            InitAction::MapPassthrough {
                gpa: 0x1000,
                hpa: 0x1000,
                len: 0x2000,
                flags: device
            },
            InitAction::MapApicAccess {
                size: 0x1000,
                flags: MapFlags {
                    user: false,
                    ..device
                }
            },
            InitAction::BuildDevices,
            InitAction::Publish,
            InitAction::SetupVcpu {
                index: 0,
                id: 0,
                entry: 0x10,
                config: setup
            },
            InitAction::SetupVcpu {
                index: 1,
                id: 1,
                entry: 0x20,
                config: setup
            },
        ]
    );
}

#[test]
fn setup_makes_the_configured_processors_known() {
    let mut vm = machine();
    for step in vm.init() {
        vm.take_step(step);
    }
    assert_eq!(vm.vcpu_num(), 2);
    assert_eq!(vm.vm_status(), VMStatus::Loading);
    assert_eq!(vm.checked_vcpu(0), Ok((0, Some(1), 7)));
    assert_eq!(vm.checked_vcpu(1), Ok((1, None, 8)));
    assert_eq!(vm.checked_vcpu(2), Err(VmError::InvalidInput));
}

#[test]
fn later_setup_keeps_the_processors_and_the_number() {
    let mut cfg = config();
    cfg.vm_id = 3;
    cfg.vcpus = vec![(4, Some(1), 7)];
    let mut vm = AxVM::new(ARM, cfg);
    for step in vm.init() {
        vm.take_step(step);
    }
    let was = vm.with_config(|cfg| {
        cfg.vm_id = 1;
        cfg.vcpus = vec![(0, None, 0), (1, None, 1)];
        cfg.ap_entry = 0x99;
        cfg.vm_id + 1
    });
    assert_eq!(was, 2);
    assert_eq!(vm.id(), 3);
    let steps = vm.init();
    assert_eq!(steps[4], InitAction::AssignSpi { irq: 37, cpu_id: 2 });
    assert_eq!(steps[6], InitAction::Publish);
    assert_eq!(
        steps[7..],
        [InitAction::SetupVcpu {
            index: 0,
            id: 4,
            entry: 0x99,
            config: VcpuSetupConfig::Passthrough {
                interrupt: true,
                timer: true
            }
        }]
    );
    for step in steps {
        vm.take_step(step);
    }
    assert_eq!(vm.get_vcpu_affinities_pcpu_ids(), vec![(4, Some(1), 7)]);
}

#[test]
fn interrupt_mode_is_the_configured_one() {
    let mut vm = machine();
    assert_eq!(vm.interrupt_mode(), VMInterruptMode::Emulated);
    vm.with_config(|cfg| cfg.interrupt_mode = VMInterruptMode::Passthrough);
    assert_eq!(vm.interrupt_mode(), VMInterruptMode::Passthrough);
}

#[test]
fn processors_with_one_number_are_all_set_up() {
    let mut cfg = config();
    cfg.vcpus = vec![(1, None, 0), (1, None, 1)];
    let steps = cfg.init_steps(RISCV, 1, &cfg.vcpus);
    for (index, step) in steps[5..].iter().enumerate() {
        assert_eq!(
            *step,
            InitAction::SetupVcpu {
                index,
                id: 1,
                entry: 0x20,
                config: VcpuSetupConfig::Plain
            }
        );
    }
    assert_eq!(steps.len(), 7);
}

#[test]
fn setup_that_cannot_be_planned_is_found_out() {
    let mut cfg = config();
    let high = usize::MAX - 0xfff;
    cfg.pass_through_devices = vec![(high, 0x2000)];
    cfg.pass_through_addresses = vec![(0x1000, 1)];
    assert!(cfg.can_init(X86, 1));
    assert_eq!(
        passthrough_regions(&[(high, 0x2000)], &[(0x1000, 1)]),
        vec![(0x1000, 0x1000), (high, 0x2000)]
    );
    cfg.pass_through_addresses = vec![(high - 0x1000, 0x1000)];
    assert!(!cfg.can_init(X86, 1));
    cfg.pass_through_addresses = vec![(high, 0x3000)];
    assert!(!cfg.can_init(X86, 1));
    cfg.pass_through_devices = vec![(0, usize::MAX)];
    cfg.pass_through_addresses = vec![];
    assert!(!cfg.can_init(X86, 1));

    cfg.pass_through_devices = vec![];
    assert!(cfg.can_init(ARM, 1));
    cfg.pass_through_spis = vec![u32::MAX - 31];
    assert!(!cfg.can_init(ARM, 1));
    cfg.pass_through_spis = vec![];
    assert!(cfg.can_init(ARM, 1));
    assert!(!cfg.can_init(ARM, 0));
    assert!(cfg.can_init(RISCV, 0));
    cfg.vm_id = 0;
    assert!(!AxVM::new(ARM, cfg).can_init());
}

#[test]
fn reader_outside_a_shorter_item_is_found_out() {
    let mut vm = machine();
    let mut ram = GuestRam::new(0, 0, vec![0; 0x100]);
    vm.alloc_memory_region(None, Some(0x7000), 0x4000, 0x1000, 0x1000, |_r: &VMMemoryRegion, _f: MapFlags| {
        Ok(())
    })
    .unwrap();
    vm.configure_fw_cfg(1);
    act(&mut vm, &mut ram, io_write(0x510, AccessWidth::Word, 0x8000));
    act(&mut vm, &mut ram, io_read(0x511, AccessWidth::Qword));
    vm.cleanup_resources();
    vm.configure_fw_cfg(1);
    assert!(!vm.can_handle(io_read(0x511, AccessWidth::Byte), &ram));
    act(&mut vm, &mut ram, io_write(0x510, AccessWidth::Word, 0));
    assert!(vm.can_handle(io_read(0x511, AccessWidth::Byte), &ram));
}

#[test]
fn setup_steps_on_other_architectures() {
    let mut cfg = config();
    let steps = cfg.init_steps(ARM, 1, &cfg.vcpus);
    assert_eq!(
        steps[0],
        InitAction::CreateVcpu {
            id: 0,
            affinity: Some(1),
            config: VcpuCreateConfig::Aarch64 {
                mpidr_el1: 7,
                dtb_addr: 0x800
            }
        }
    );
    assert_eq!(steps[3], InitAction::BuildDevices);
    assert_eq!(steps[4], InitAction::AssignSpi { irq: 37, cpu_id: 0 });
    assert_eq!(steps[5], InitAction::AssignSpi { irq: 41, cpu_id: 0 });
    assert_eq!(
        steps[7],
        InitAction::SetupVcpu {
            index: 0,
            id: 0,
            entry: 0x10,
            config: VcpuSetupConfig::Passthrough {
                interrupt: true,
                timer: true
            }
        }
    );

    cfg.interrupt_mode = VMInterruptMode::Emulated;
    assert_eq!(cfg.init_steps(ARM, 1, &cfg.vcpus)[4], InitAction::AddSysRegDevices);

    cfg.dtb_load_gpa = None;
    let steps = cfg.init_steps(RISCV, 1, &cfg.vcpus);
    assert_eq!(
        steps[1],
        InitAction::CreateVcpu {
            id: 1,
            affinity: None,
            config: VcpuCreateConfig::Riscv64 {
                hart_id: 1,
                dtb_addr: 0
            }
        }
    );
    assert_eq!(steps.len(), 2 + 1 + 2 + 2);
    assert_eq!(
        steps[6],
        InitAction::SetupVcpu {
            index: 1,
            id: 1,
            entry: 0x20,
            config: VcpuSetupConfig::Plain
        }
    );
}

#[test]
fn virtual_processors_are_published_once() {
    let mut vm = machine();
    vm.publish_vcpus(vec![(0, None, 0), (1, Some(3), 5)]);
    vm.publish_vcpus(vec![]);
    assert_eq!(vm.vcpu_num(), 2);
    assert_eq!(vm.vcpu(1), Some((1, Some(3), 5)));
    assert_eq!(vm.vcpu(2), None);
    assert_eq!(vm.get_vcpu_affinities_pcpu_ids(), vm.vcpu_list().to_vec());
}

#[test]
fn interrupts_go_to_the_named_processors() {
    let mask = VcpuMask::from_cpus(&[1, 3, 63]);
    assert!(mask.holds(63));
    assert!(!mask.holds(0));
    assert_eq!(interrupt_targets(&mask, &[0, 1, 2, 3]), vec![1, 3]);

    let mut vm = machine();
    vm.publish_vcpus(vec![(0, None, 0), (1, None, 1), (3, None, 2)]);
    assert_eq!(vm.inject_interrupt_to_vcpu(&mask), vec![1, 3]);
    assert_eq!(
        vm.inject_interrupt_to_vcpu(&VcpuMask::from_cpus(&[])),
        Vec::<usize>::new()
    );
}

#[test]
fn pieces_of_memory_are_gathered_and_filled() {
    let pieces: [&[u8]; 3] = [&[1, 2], &[], &[3, 4, 5]];
    assert_eq!(gather_chunks(&pieces, 4), vec![1, 2, 3, 4]);
    assert_eq!(gather_chunks(&pieces, 9), vec![1, 2, 3, 4, 5]);
    assert_eq!(gather_chunks(&pieces, 0), Vec::<u8>::new());
    assert_eq!(scatter_ranges(&[2, 0, 3], 4), vec![(0, 2), (2, 2), (2, 4)]);
    assert_eq!(scatter_ranges(&[2, 3], 1), vec![(0, 1), (1, 1)]);
}

#[test]
fn guest_objects_are_read_where_they_are_aligned() {
    let mut ram = GuestRam::new(0x1000, 0, vec![0; 0x100]);
    assert_eq!(AxVM::write_to_guest_of(&mut ram, 0x1004, &[1, 2, 3, 4]), Ok(()));
    assert_eq!(
        AxVM::read_from_guest_of(&ram, 0x1004, 4, 4),
        Ok(vec![1, 2, 3, 4])
    );
    assert_eq!(
        AxVM::read_from_guest_of(&ram, 0x1006, 4, 4),
        Err(VmError::InvalidInput)
    );
    assert_eq!(
        AxVM::read_from_guest_of(&ram, 0x2000, 4, 4),
        Err(VmError::InvalidInput)
    );
    assert_eq!(
        AxVM::write_to_guest_of(&mut ram, 0x10fe, &[1, 2, 3]),
        Err(VmError::InvalidInput)
    );
    assert_eq!(ram.as_slice()[0xfe..], [0, 0]);
}

fn act(vm: &mut AxVM, ram: &mut GuestRam, exit: VmExit) -> ExitAction {
    assert!(vm.can_handle(exit, ram));
    let handled = vm.handle_exit(exit, ram).unwrap();
    assert!(handled.lines.is_empty());
    handled.action
}

fn io_write(port: u16, width: AccessWidth, data: u64) -> VmExit {
    VmExit::IoWrite {
        port: Port::new(port),
        width,
        data,
    }
}

fn io_read(port: u16, width: AccessWidth) -> VmExit {
    VmExit::IoRead {
        port: Port::new(port),
        width,
    }
}

#[test]
fn exits_that_devices_answer_for() {
    let mut vm = machine();
    let mut ram = GuestRam::new(0, 0, vec![0; 16]);
    let read = act(
        &mut vm,
        &mut ram,
        VmExit::MmioRead {
            addr: 0x10,
            width: AccessWidth::Byte,
            reg: 4,
            reg_width: AccessWidth::Dword,
            signed_ext: true,
        },
    );
    assert_eq!(
        vm.finish_exit(read, Event::Value(0x1ff)),
        Followup::SetGpr {
            reg: 4,
            value: u64::MAX
        }
    );
    let write = act(
        &mut vm,
        &mut ram,
        VmExit::MmioWrite {
            addr: 0x10,
            width: AccessWidth::Word,
            data: 5,
        },
    );
    assert_eq!(vm.finish_exit(write, Event::Done), Followup::Resume);
    let port = act(&mut vm, &mut ram, io_read(0x60, AccessWidth::Byte));
    assert_eq!(
        port,
        ExitAction::ReadDevicePort {
            port: Port::new(0x60),
            width: AccessWidth::Byte
        }
    );
    assert_eq!(
        vm.finish_exit(port, Event::Value(9)),
        Followup::SetGpr { reg: 0, value: 9 }
    );
    assert_eq!(
        act(&mut vm, &mut ram, io_write(0x60, AccessWidth::Byte, 7)),
        ExitAction::WriteDevicePort {
            port: Port::new(0x60),
            width: AccessWidth::Byte,
            data: 7
        }
    );
    let sysreg = act(&mut vm, &mut ram, VmExit::SysRegRead { addr: 1, reg: 6 });
    assert_eq!(
        vm.finish_exit(sysreg, Event::Value(8)),
        Followup::SetGpr { reg: 6, value: 8 }
    );
    assert_eq!(
        act(&mut vm, &mut ram, VmExit::SysRegWrite { addr: 1, value: 2 }),
        ExitAction::WriteSysReg { addr: 1, value: 2 }
    );
    let fault = act(
        &mut vm,
        &mut ram,
        VmExit::NestedPageFault {
            addr: 0x99,
            access_flags: 1,
        },
    );
    assert_eq!(vm.finish_exit(fault, Event::Handled(true)), Followup::Resume);
    assert_eq!(vm.finish_exit(fault, Event::Handled(false)), Followup::Leave);
    let other = act(&mut vm, &mut ram, VmExit::Other);
    assert_eq!(vm.finish_exit(other, Event::Done), Followup::Leave);
}

#[test]
fn port_reads_go_to_the_argument_register_on_riscv() {
    let mut vm = AxVM::new(RISCV, config());
    let mut ram = GuestRam::new(0, 0, vec![0; 16]);
    let port = act(&mut vm, &mut ram, io_read(0x402, AccessWidth::Byte));
    assert_eq!(
        vm.finish_exit(port, Event::Value(9)),
        Followup::SetGpr { reg: 10, value: 9 }
    );
}

#[test]
fn debug_console_completes_lines() {
    let mut vm = machine();
    let mut ram = GuestRam::new(0, 0, b"lo\nwor\nld".to_vec());
    assert_eq!(
        act(&mut vm, &mut ram, io_read(0x402, AccessWidth::Byte)),
        ExitAction::SetGpr {
            reg: 0,
            value: 0xe9
        }
    );
    for byte in b"hel" {
        assert_eq!(
            act(&mut vm, &mut ram, io_write(0x402, AccessWidth::Byte, *byte as u64)),
            ExitAction::Resume
        );
    }
    let handled = vm
        .handle_exit(
            VmExit::IoStringWrite {
                port: Port::new(0x402),
                src_gpa: 0,
                count: 9,
            },
            &mut ram,
        )
        .unwrap();
    assert_eq!(handled.lines, vec![b"hello".to_vec(), b"wor".to_vec()]);
    let last = vm
        .handle_exit(io_write(0x402, AccessWidth::Byte, 0x10a), &mut ram)
        .unwrap();
    assert_eq!(last.lines, vec![b"ld".to_vec()]);

    assert_eq!(
        act(
            &mut vm,
            &mut ram,
            VmExit::IoStringRead {
                port: Port::new(0x402),
                dst_gpa: 1,
                count: 2
            }
        ),
        ExitAction::Resume
    );
    assert_eq!(&ram.as_slice()[0..4], &[b'l', 0xe9, 0xe9, b'w']);
    assert_eq!(
        vm.handle_exit(
            VmExit::IoStringRead {
                port: Port::new(0x402),
                dst_gpa: 8,
                count: 2
            },
            &mut ram
        )
        .unwrap_err(),
        VmError::InvalidInput
    );
    assert_eq!(
        vm.handle_exit(
            VmExit::IoStringWrite {
                port: Port::new(0x402),
                src_gpa: 100,
                count: 2
            },
            &mut ram
        )
        .unwrap_err(),
        VmError::InvalidInput
    );
    assert_eq!(
        act(
            &mut vm,
            &mut ram,
            VmExit::IoStringRead {
                port: Port::new(0x60),
                dst_gpa: 100,
                count: 2
            }
        ),
        ExitAction::Resume
    );
}

#[test]
fn firmware_configuration_of_the_machine() {
    let mut vm = machine();
    vm.alloc_memory_region(None, Some(0x7000), 0x4000, 0x1000, 0x1000, |_r: &VMMemoryRegion, _flags: MapFlags| {
        Ok(())
    })
    .unwrap();
    vm.configure_fw_cfg(2);
    let mut ram = GuestRam::new(0, 0, vec![0; 0x200]);

    act(&mut vm, &mut ram, io_write(0x510, AccessWidth::Word, 0));
    assert_eq!(
        act(&mut vm, &mut ram, io_read(0x511, AccessWidth::Word)),
        ExitAction::SetGpr {
            reg: 0,
            value: 0x4551
        }
    );
    act(&mut vm, &mut ram, io_write(0x510, AccessWidth::Word, 0x8000));
    assert_eq!(
        act(&mut vm, &mut ram, io_read(0x511, AccessWidth::Qword)),
        ExitAction::SetGpr {
            reg: 0,
            value: 0x4000
        }
    );

    let mut descriptor = (0x0005_0000u32 | 8 | 2).to_be_bytes().to_vec();
    descriptor.extend_from_slice(&2u32.to_be_bytes());
    descriptor.extend_from_slice(&0x100u64.to_be_bytes());
    ram.write_buffer(0x40, &descriptor).unwrap();
    act(&mut vm, &mut ram, io_write(0x514, AccessWidth::Dword, 0));
    act(
        &mut vm,
        &mut ram,
        io_write(0x518, AccessWidth::Dword, 0x4000_0000),
    );
    assert_eq!(&ram.as_slice()[0x100..0x102], &[2, 0]);
    assert_eq!(&ram.as_slice()[0x40..0x44], &[0; 4]);

    ram.write_buffer(0x40, &1u32.to_be_bytes()).unwrap();
    act(&mut vm, &mut ram, io_write(0x514, AccessWidth::Dword, 0));
    act(
        &mut vm,
        &mut ram,
        io_write(0x518, AccessWidth::Dword, 0x4000_0000),
    );
    assert_eq!(&ram.as_slice()[0x40..0x44], &[0, 0, 0, 1]);

    ram.write_buffer(0x40, &(1u32 | 4).to_be_bytes()).unwrap();
    act(&mut vm, &mut ram, io_write(0x514, AccessWidth::Dword, 0));
    act(
        &mut vm,
        &mut ram,
        io_write(0x518, AccessWidth::Dword, 0x4000_0000),
    );
    assert_eq!(&ram.as_slice()[0x40..0x44], &[0; 4]);

    act(&mut vm, &mut ram, io_write(0x514, AccessWidth::Dword, 1));
    assert_eq!(
        vm.handle_exit(io_write(0x518, AccessWidth::Dword, 0), &mut ram)
            .unwrap_err(),
        VmError::InvalidInput
    );
    assert_eq!(
        act(&mut vm, &mut ram, io_write(0x518, AccessWidth::Dword, 0)),
        ExitAction::Resume
    );
}

#[test]
fn block_device_of_the_host_gets_host_addresses() {
    let mut vm = machine();
    let mut ram = GuestRam::new(0, 0x100_0000, vec![0; 0x8000]);

    let size = act(&mut vm, &mut ram, io_read(0x600c, AccessWidth::Word));
    assert_eq!(
        size,
        ExitAction::ReadHostPort {
            port: Port::new(0x600c),
            width: AccessWidth::Word
        }
    );
    assert_eq!(
        vm.finish_exit(size, Event::Value(8)),
        Followup::SetGpr { reg: 0, value: 8 }
    );
    assert_eq!(
        act(&mut vm, &mut ram, io_write(0x6008, AccessWidth::Dword, 1)),
        ExitAction::WriteHostPort {
            port: Port::new(0x6008),
            width: AccessWidth::Dword,
            value: 0x1001,
            snapshot: None
        }
    );

    ram.write_buffer(0x1000, &0x3000u64.to_le_bytes()).unwrap();
    ram.write_buffer(0x1008, &16u32.to_le_bytes()).unwrap();
    ram.write_buffer(0x100c, &[1, 0, 2, 0]).unwrap();
    ram.write_buffer(0x1020, &0x9_0000u64.to_le_bytes()).unwrap();
    ram.write_buffer(0x102c, &[0, 0, 0, 0]).unwrap();
    ram.write_buffer(0x1082, &[1, 0]).unwrap();

    let notify = act(&mut vm, &mut ram, io_write(0x6010, AccessWidth::Word, 0x1_0005));
    assert!(matches!(
        notify,
        ExitAction::WriteHostPort {
            value: 5,
            snapshot: Some(s),
            ..
        } if s.avail_idx == 1 && s.used_idx == 0
    ));
    assert_eq!(&ram.as_slice()[0x1000..0x1008], &0x100_3000u64.to_le_bytes());
    assert_eq!(&ram.as_slice()[0x1008..0x1010], &[16, 0, 0, 0, 1, 0, 2, 0]);
    assert_eq!(&ram.as_slice()[0x1020..0x1028], &0x9_0000u64.to_le_bytes());

    assert_eq!(
        vm.handle_exit(io_write(0x6000, AccessWidth::Qword, 0), &mut ram)
            .unwrap_err(),
        VmError::InvalidInput
    );
    assert_eq!(
        vm.handle_exit(io_read(0x6000, AccessWidth::Qword), &mut ram)
            .unwrap_err(),
        VmError::InvalidInput
    );
}

#[test]
fn page_outside_memory_is_passed_on_unchanged() {
    let mut state = OvmfVirtioBlkIoState::new();
    let mut ram = GuestRam::new(0, 0x100_0000, vec![0; 0x1000]);
    let out = state
        .io_write(Port::new(0x6008), AccessWidth::Dword, 0x77, &mut ram)
        .unwrap()
        .unwrap();
    assert_eq!(out.value, 0x77);
    assert_eq!(state.queue_pfn, 0);
    assert_eq!(state.snapshot_queue(&ram), Ok(None));
    assert_eq!(
        state.io_write(Port::new(0x6080), AccessWidth::Dword, 0, &mut ram),
        Ok(None)
    );
    state.note_read(Port::new(0x600c), AccessWidth::Word, 4);
    state
        .io_write(Port::new(0x6008), AccessWidth::Dword, 0, &mut ram)
        .unwrap();
    assert_eq!(
        state.io_write(Port::new(0x6010), AccessWidth::Word, 0, &mut ram),
        Ok(Some(axvm_devices::vm::ovmf_blk::HostWrite {
            value: 0,
            snapshot: None
        }))
    );
}

#[test]
fn power_management_ports_are_those_of_the_host() {
    let mut vm = machine();
    let mut ram = GuestRam::new(0, 0, vec![0; 16]);
    assert_eq!(
        act(&mut vm, &mut ram, io_read(0x608, AccessWidth::Dword)),
        ExitAction::ReadHostPort {
            port: Port::new(0x608),
            width: AccessWidth::Dword
        }
    );
    assert_eq!(
        act(&mut vm, &mut ram, io_write(0x60f, AccessWidth::Byte, 0x1ff)),
        ExitAction::WriteHostPort {
            port: Port::new(0x60f),
            width: AccessWidth::Byte,
            value: 0xff,
            snapshot: None
        }
    );
    assert_eq!(
        vm.handle_exit(io_write(0x600, AccessWidth::Qword, 0), &mut ram)
            .unwrap_err(),
        VmError::InvalidInput
    );
    assert!(matches!(
        act(&mut vm, &mut ram, io_read(0x610, AccessWidth::Qword)),
        ExitAction::ReadDevicePort { .. }
    ));
}

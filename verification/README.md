# axvm_devices

Emulated devices of a hypervisor, and the decisions of the virtual machine around them, written
in Rust and proved with Verus.

- `src/bytes.rs`, `src/bus.rs`, `src/error.rs`: numbers as bytes, ports and access widths, errors.
- `src/guest_memory.rs`: guest physical memory, the traits through which the devices and the
  machine reach it, and a flat memory that implements them.
- `src/virtio_blk/`: a legacy virtio block device with its disk in memory.
- `src/pic/`: a pair of 8259 interrupt controllers.
- `src/fw_cfg/`: the firmware configuration device, and the directory of its files.
- `src/acpi_blobs.rs`: the ACPI files that are taken from the directory of the host's own firmware
  configuration.
- `src/vm/`: the virtual machine: its life cycle, its memory regions, the steps of its setup, and
  what it decides when a virtual processor exits.
- `src/uefi_map.rs`: the memory map of a UEFI firmware.
- `tests/`: tests on concrete values.
- `app/`: ordinary Rust around the library: locks, host ports, address spaces, and the loop that
  runs a virtual processor.

The functions state in `requires` and `ensures` what they take and give back, over the models that
stand beside them. What holds of several functions together stands as public proof functions in
the `laws` modules, and for the order in which block requests are answered in
`src/virtio_blk/order.rs`.

//! Emulated platform devices of an x86 virtual machine, and the decisions of the machine
//! around them.

pub mod acpi_blobs;
pub mod bus;
pub mod bytes;
pub mod error;
pub mod fw_cfg;
pub mod guest_memory;
pub mod pic;
pub mod uefi_map;
pub mod virtio_blk;
pub mod vm;

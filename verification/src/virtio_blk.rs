//! A legacy virtio block device behind I/O ports, with its disk in memory.

pub mod device;
pub mod disk;
pub mod effects;
pub mod laws;
pub mod model;
pub mod order;
pub mod queue;
pub mod reading;
pub mod request;

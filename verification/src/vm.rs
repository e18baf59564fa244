//! The virtual machine: its life cycle, its memory regions, and what it decides when a virtual
//! processor exits.

pub mod chunks;
pub mod cpu_mask;
pub mod debugcon;
pub mod exit;
pub mod fw_cfg_state;
pub mod host_queue;
pub mod laws;
pub mod machine;
pub mod outcomes;
pub mod ovmf_blk;
pub mod passthrough;
pub mod plan;
pub mod region;
pub mod setup;
pub mod status;
pub mod transfers;
pub mod value;

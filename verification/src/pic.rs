//! A pair of 8259 interrupt controllers, the slave cascaded through line 2 of the master.

pub mod chip;
pub mod delivery;
pub mod laws;
pub mod lines;
pub mod pair;

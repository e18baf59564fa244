//! The firmware configuration device: items of bytes behind selectors, some of them files that
//! a directory lists.

pub mod content;
pub mod device;
pub mod directory;
pub mod inner;
pub mod laws;
pub mod transfers;

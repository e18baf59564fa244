//! Errors that the devices and the virtual machine report.

use vstd::prelude::*;

verus! {

/// Why a request to a device or to the virtual machine was refused.
#[derive(Clone, Copy, Debug, PartialEq, Eq, Structural)]
pub enum VmError {
    /// An argument, or a value found in guest memory, is not acceptable.
    InvalidInput,
    /// Data handed over by the platform is malformed.
    InvalidData,
    /// A required entity does not exist.
    NotFound,
    /// The access is not one that the device knows.
    Unsupported,
    /// The operation is not allowed in the current state.
    BadState,
    /// Memory could not be allocated.
    NoMemory,
    /// A bounded amount of work was done without reaching the end.
    TimedOut,
}

impl VmError {
    /// The value, or the error that stands for unacceptable input where there is none.
    pub open spec fn or_invalid<T>(value: Option<T>) -> Result<T, VmError> {
        match value {
            Some(v) => Ok(v),
            None => Err(VmError::InvalidInput),
        }
    }

    /// Success, or the error that stands for unacceptable input.
    pub open spec fn unless_invalid(ok: bool) -> Result<(), VmError> {
        if ok {
            Ok(())
        } else {
            Err(VmError::InvalidInput)
        }
    }
}

} // verus!

use vstd::prelude::*;

verus! {

/// The ways in which an operation of the engine can fail.
#[derive(Clone, Copy, Debug, PartialEq, Eq, Structural)]
pub enum DebugError {
    /// The kernel refused to begin tracing the process.
    AttachError,
    /// The kernel rejected a memory or register access.
    IoError,
    /// All four hardware breakpoint slots are in use.
    SlotExhausted,
    /// A debug-register index of 4 or more was given for a hardware breakpoint.
    InvalidRegisterIndex,
    /// A breakpoint already exists at the address.
    DuplicateBreakpoint,
    /// The requested window could not be fetched or decoded.
    DecodeUnavailable,
}

impl DebugError {
    /// A short text for a status line.
    pub fn message(&self) -> (text: String)
        ensures
            text@ == match *self {
                DebugError::AttachError => "cannot begin tracing the process"@,
                DebugError::IoError => "memory or register access failed"@,
                DebugError::SlotExhausted => "no hardware breakpoint slot is free"@,
                DebugError::InvalidRegisterIndex => "debug register index out of range"@,
                DebugError::DuplicateBreakpoint => "a breakpoint already exists at this address"@,
                DebugError::DecodeUnavailable => "the region could not be fetched or decoded"@,
            },
    {
        match self {
            DebugError::AttachError => "cannot begin tracing the process".to_owned(),
            DebugError::IoError => "memory or register access failed".to_owned(),
            DebugError::SlotExhausted => "no hardware breakpoint slot is free".to_owned(),
            DebugError::InvalidRegisterIndex => "debug register index out of range".to_owned(),
            DebugError::DuplicateBreakpoint => "a breakpoint already exists at this address".to_owned(),
            DebugError::DecodeUnavailable => "the region could not be fetched or decoded".to_owned(),
        }
    }
}

} // verus!

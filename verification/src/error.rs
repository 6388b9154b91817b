//! The error taxonomy of the builder.
//!
//! Execution-level errors terminate only the current call frame, which
//! completes as a failure; every other variant is fatal for the whole
//! block build.

use vstd::prelude::*;

verus! {

/// Errors an instruction itself can raise. They are recorded on the
/// execution step and drive the call state machine; they never abort the
/// block build.
#[derive(Clone, Copy, Debug, Hash, PartialEq, Eq, Structural)]
pub enum ExecError {
    StackUnderflow,
    StackOverflow,
    OutOfGas,
    InvalidJump,
    WriteProtection,
    Depth,
}

/// Errors the builder surfaces to its caller.
#[derive(Clone, Copy, Debug, PartialEq, Eq, Structural)]
pub enum Error {
    /// A builder primitive was invoked outside any call frame; a defect
    /// in the driving code, never expected in correct operation.
    NoActiveCall,
    /// The supplied trace does not match the contract this layer
    /// assumes: an inconsistent program counter, depth, or observed
    /// post-state, or a trace that ends mid-call.
    InvalidTraceStep,
    /// The block-wide sequence counter or the call-id counter is
    /// exhausted; a builder-internal limit, fatal for the block.
    CounterOverflow,
    /// A recorded access disagreed with the value derived from the
    /// current state: a read-after-write consistency violation caught at
    /// append time, treated as builder-internal.
    InconsistentValue,
    /// An execution-level error, recoverable at the call-frame level.
    Execution(ExecError),
}

} // verus!

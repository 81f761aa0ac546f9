//! Type-safe error and status representations for the dry-exec execution layer.
use vstd::prelude::*;

verus! {

/// The I/O error type of `std`, carried through unchanged.
#[verifier::external_type_specification]
#[verifier::external_body]
pub struct ExIoError(std::io::Error);

/// Type-safe error variants encountered during state delta computation.
#[derive(Debug)]
pub enum DeltaError {
    /// Memory mapping failure.
    MmapFailure(String),
    /// Kernel pagemap parsing error.
    PagemapParseError(String),
    /// Process memory access error.
    ProcessMemoryError { pid: i32, reason: String },
    /// Filesystem snapshot or diff failure.
    FsDiffError(String),
    /// IO error.
    IoError(std::io::Error),
}

/// Resulting execution boundary exit status returned to the control flow.
#[derive(Debug, Clone, PartialEq, Eq, Structural)]
pub enum BoundaryExitStatus {
    /// Isolated process completed execution with status code.
    Exited(i32),
    /// Isolated process was terminated by an external signal.
    Signaled(i32),
    /// Intercepted syscall breached the boundary, resulting in deterministic SIGSYS interception.
    SyscallViolation { syscall_nr: u32, instruction_pointer: u64 },
}

} // verus!

//! Failures that operations on a target process report.

use vstd::prelude::*;

verus! {

/// Why the system refused to open the target process.
#[derive(Debug, Clone, Copy, PartialEq, Eq, Structural)]
pub enum OpenRefusal {
    /// The caller lacks the privilege to open the process with the rights
    /// it asked for.
    AccessDenied,
    /// There is no such process.
    NotFound,
}

/// Why an operation on the target process did not succeed.
#[derive(Debug, Clone, Copy, PartialEq, Eq, Structural)]
pub enum MemoryError {
    /// No handle was granted. Nothing can be done with the target.
    OpenFailed(OpenRefusal),
    /// The very first region query of a scan was rejected.
    ScanFailed,
    /// A read was rejected or copied fewer bytes than the value needs.
    ReadFailed,
    /// A write was rejected or stored fewer bytes than the value has.
    WriteFailed,
}

impl MemoryError {
    /// The text that describes the failure.
    pub open spec fn text(self) -> Seq<char> {
        match self {
            MemoryError::OpenFailed(_) => "Failed to open process"@,
            MemoryError::ScanFailed => "Failed to query memory"@,
            MemoryError::ReadFailed => "Failed to read memory"@,
            MemoryError::WriteFailed => "Failed to write memory"@,
        }
    }

    /// A short description of the failure, fit for a log or an error report.
    pub fn message(&self) -> (message: &'static str)
        ensures
            message@ == self.text(),
    {
        match self {
            MemoryError::OpenFailed(_) => "Failed to open process",
            MemoryError::ScanFailed => "Failed to query memory",
            MemoryError::ReadFailed => "Failed to read memory",
            MemoryError::WriteFailed => "Failed to write memory",
        }
    }
}

} // verus!

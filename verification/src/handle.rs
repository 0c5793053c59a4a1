//! The handle that grants access to the target process.
//!
//! The caller asks the system for the handle and passes on what it was
//! given; the library keeps it, hands it out while it is held, and yields
//! it for release exactly once.

use vstd::prelude::*;
use crate::error::{MemoryError, OpenRefusal};

verus! {

/// Access right: change the protection of, or otherwise operate on, memory.
pub const PROCESS_VM_OPERATION: u32 = 0x0008;

/// Access right: read memory.
pub const PROCESS_VM_READ: u32 = 0x0010;

/// Access right: write memory.
pub const PROCESS_VM_WRITE: u32 = 0x0020;

/// Access right: query region metadata.
pub const PROCESS_QUERY_INFORMATION: u32 = 0x0400;

/// The system's error code for a request that lacks the privilege it needs.
pub const ERROR_ACCESS_DENIED: u32 = 5;

/// Why an open request was refused, given the system's error code for it:
/// access was denied where the code says so, and the process was not found
/// otherwise.
pub open spec fn refusal_of(error_code: u32) -> OpenRefusal {
    if error_code == ERROR_ACCESS_DENIED {
        OpenRefusal::AccessDenied
    } else {
        OpenRefusal::NotFound
    }
}

/// The access mask `access` includes every bit of `right`.
pub open spec fn covers(access: u32, right: u32) -> bool {
    access & right == right
}

/// The access rights to request when opening the target: those needed to
/// query region metadata and to read and write memory, and no others.
pub fn required_access() -> (access: u32)
    ensures
        access == 0x0438,
        covers(access, PROCESS_QUERY_INFORMATION),
        covers(access, PROCESS_VM_READ),
        covers(access, PROCESS_VM_WRITE),
        covers(access, PROCESS_VM_OPERATION),
{
    let access: u32 = PROCESS_VM_READ | PROCESS_VM_WRITE | PROCESS_VM_OPERATION
        | PROCESS_QUERY_INFORMATION;
    assert(0x0010u32 | 0x0020u32 | 0x0008u32 | 0x0400u32 == 0x0438u32) by (bit_vector);
    assert(0x0438u32 & 0x0400u32 == 0x0400u32 && 0x0438u32 & 0x0010u32 == 0x0010u32 && 0x0438u32
        & 0x0020u32 == 0x0020u32 && 0x0438u32 & 0x0008u32 == 0x0008u32) by (bit_vector);
    access
}

/// Ownership of the native handle to the target process.
///
/// Its view is the native handle while it is held, and `None` once it has
/// been yielded for release.
pub struct ProcessHandle {
    native: usize,
    held: bool,
}

/// What closing yields for release: the native handle if it is still held.
pub open spec fn yielded_by_close(handle: Option<usize>) -> Option<usize> {
    handle
}

/// The state of a handle after closing: nothing is held.
pub open spec fn after_close(handle: Option<usize>) -> Option<usize> {
    None
}

/// Closing twice is safe: the second close yields nothing for release and
/// leaves the handle as the first close left it.
pub proof fn lemma_close_is_idempotent(handle: Option<usize>)
    ensures
        yielded_by_close(after_close(handle)) is None,
        after_close(after_close(handle)) == after_close(handle),
{
}

impl View for ProcessHandle {
    type V = Option<usize>;

    closed spec fn view(&self) -> Option<usize> {
        if self.held {
            Some(self.native)
        } else {
            None
        }
    }
}

impl ProcessHandle {
    /// Takes ownership of what the system returned for an open request:
    /// the native handle, and the system's error code where the handle is
    /// null. A null handle means that the request was refused; the error
    /// code then tells why, and is not looked at otherwise.
    pub fn open(native: usize, error_code: u32) -> (opened: Result<ProcessHandle, MemoryError>)
        ensures
            match opened {
                Ok(handle) => native != 0 && handle@ == Some(native),
                Err(error) => native == 0 && error == MemoryError::OpenFailed(
                    refusal_of(error_code),
                ),
            },
    {
        if native != 0 {
            Ok(ProcessHandle { native, held: true })
        } else if error_code == ERROR_ACCESS_DENIED {
            Err(MemoryError::OpenFailed(OpenRefusal::AccessDenied))
        } else {
            Err(MemoryError::OpenFailed(OpenRefusal::NotFound))
        }
    }

    /// The native handle, while it is held.
    pub fn native(&self) -> (native: Option<usize>)
        ensures
            native == self@,
    {
        if self.held {
            Some(self.native)
        } else {
            None
        }
    }

    /// Gives the native handle up. The first call yields it, and the caller
    /// must release it; every later call yields nothing.
    pub fn close(&mut self) -> (yielded: Option<usize>)
        ensures
            yielded == yielded_by_close(old(self)@),
            final(self)@ == after_close(old(self)@),
        no_unwind
    {
        let yielded = if self.held {
            Some(self.native)
        } else {
            None
        };
        self.held = false;
        yielded
    }
}

} // verus!

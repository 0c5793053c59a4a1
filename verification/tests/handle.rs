use process_memory::error::{MemoryError, OpenRefusal};
use process_memory::handle::{
    required_access, ProcessHandle, ERROR_ACCESS_DENIED, PROCESS_QUERY_INFORMATION,
    PROCESS_VM_OPERATION, PROCESS_VM_READ, PROCESS_VM_WRITE,
};

#[test]
fn required_access_is_the_union_of_the_four_rights() {
    assert_eq!(required_access(), 0x0438);
    assert_eq!(
        required_access(),
        PROCESS_VM_READ | PROCESS_VM_WRITE | PROCESS_VM_OPERATION | PROCESS_QUERY_INFORMATION
    );
}

#[test]
fn required_access_covers_query_read_and_write() {
    let access = required_access();
    assert_eq!(access & PROCESS_QUERY_INFORMATION, PROCESS_QUERY_INFORMATION);
    assert_eq!(access & PROCESS_VM_READ, PROCESS_VM_READ);
    assert_eq!(access & PROCESS_VM_WRITE, PROCESS_VM_WRITE);
    assert_eq!(access & PROCESS_VM_OPERATION, PROCESS_VM_OPERATION);
}

#[test]
fn null_handle_with_access_denied_is_a_denial() {
    assert_eq!(ERROR_ACCESS_DENIED, 5);
    assert!(matches!(
        ProcessHandle::open(0, 5),
        Err(MemoryError::OpenFailed(OpenRefusal::AccessDenied))
    ));
}

#[test]
fn null_handle_with_another_error_is_a_missing_process() {
    assert!(matches!(
        ProcessHandle::open(0, 87),
        Err(MemoryError::OpenFailed(OpenRefusal::NotFound))
    ));
    assert!(matches!(
        ProcessHandle::open(0, 0),
        Err(MemoryError::OpenFailed(OpenRefusal::NotFound))
    ));
}

#[test]
fn error_code_is_ignored_when_a_handle_was_granted() {
    let handle = match ProcessHandle::open(0x10, 5) {
        Ok(handle) => handle,
        Err(error) => panic!("open failed: {}", error.message()),
    };
    assert_eq!(handle.native(), Some(0x10));
}

#[test]
fn granted_handle_is_held() {
    let handle = match ProcessHandle::open(0x1234, 0) {
        Ok(handle) => handle,
        Err(error) => panic!("open failed: {}", error.message()),
    };
    assert_eq!(handle.native(), Some(0x1234));
}

#[test]
fn close_yields_the_handle_once() {
    let mut handle = match ProcessHandle::open(0x1234, 0) {
        Ok(handle) => handle,
        Err(error) => panic!("open failed: {}", error.message()),
    };
    assert_eq!(handle.close(), Some(0x1234));
    assert_eq!(handle.native(), None);
    assert_eq!(handle.close(), None);
    assert_eq!(handle.native(), None);
    assert_eq!(handle.close(), None);
}

#[test]
fn errors_describe_themselves() {
    assert_eq!(
        MemoryError::OpenFailed(OpenRefusal::AccessDenied).message(),
        "Failed to open process"
    );
    assert_eq!(MemoryError::OpenFailed(OpenRefusal::NotFound).message(), "Failed to open process");
    assert_eq!(MemoryError::ScanFailed.message(), "Failed to query memory");
    assert_eq!(MemoryError::ReadFailed.message(), "Failed to read memory");
    assert_eq!(MemoryError::WriteFailed.message(), "Failed to write memory");
}

use process_memory::region::{
    is_executable, is_readable, is_writable, MemoryRegion, RegionDescriptor, MEM_COMMIT,
    PAGE_EXECUTE, PAGE_EXECUTE_READ, PAGE_EXECUTE_READWRITE, PAGE_EXECUTE_WRITECOPY, PAGE_GUARD,
    PAGE_NOACCESS, PAGE_NOCACHE, PAGE_READONLY, PAGE_READWRITE, PAGE_WRITECOMBINE, PAGE_WRITECOPY,
};

fn flags(protect: u32) -> (bool, bool, bool) {
    (is_readable(protect), is_writable(protect), is_executable(protect))
}

#[test]
fn protection_constants_have_their_documented_values() {
    assert_eq!(MEM_COMMIT, 0x1000);
    assert_eq!(PAGE_NOACCESS, 0x01);
    assert_eq!(PAGE_READONLY, 0x02);
    assert_eq!(PAGE_READWRITE, 0x04);
    assert_eq!(PAGE_WRITECOPY, 0x08);
    assert_eq!(PAGE_EXECUTE, 0x10);
    assert_eq!(PAGE_EXECUTE_READ, 0x20);
    assert_eq!(PAGE_EXECUTE_READWRITE, 0x40);
    assert_eq!(PAGE_EXECUTE_WRITECOPY, 0x80);
    assert_eq!(PAGE_GUARD, 0x100);
    assert_eq!(PAGE_NOCACHE, 0x200);
    assert_eq!(PAGE_WRITECOMBINE, 0x400);
}

#[test]
fn no_access_grants_nothing() {
    assert_eq!(flags(PAGE_NOACCESS), (false, false, false));
    assert_eq!(flags(0), (false, false, false));
}

#[test]
fn read_only_grants_read_alone() {
    assert_eq!(flags(PAGE_READONLY), (true, false, false));
}

#[test]
fn read_write_grants_read_and_write() {
    assert_eq!(flags(PAGE_READWRITE), (true, true, false));
    assert_eq!(flags(PAGE_WRITECOPY), (true, true, false));
}

#[test]
fn execute_grants_execute_alone() {
    assert_eq!(flags(PAGE_EXECUTE), (false, false, true));
}

#[test]
fn execute_read_grants_read_and_execute() {
    assert_eq!(flags(PAGE_EXECUTE_READ), (true, false, true));
}

#[test]
fn execute_read_write_grants_everything() {
    assert_eq!(flags(PAGE_EXECUTE_READWRITE), (true, true, true));
    assert_eq!(flags(PAGE_EXECUTE_WRITECOPY), (true, true, true));
}

#[test]
fn modifiers_do_not_change_the_flags() {
    assert_eq!(flags(PAGE_READWRITE | PAGE_GUARD), (true, true, false));
    assert_eq!(flags(PAGE_READONLY | PAGE_NOCACHE), (true, false, false));
    assert_eq!(flags(PAGE_EXECUTE_READ | PAGE_WRITECOMBINE), (true, false, true));
    assert_eq!(flags(PAGE_NOACCESS | PAGE_GUARD), (false, false, false));
    assert_eq!(flags(PAGE_GUARD | PAGE_NOCACHE | PAGE_WRITECOMBINE), (false, false, false));
}

#[test]
fn region_is_built_from_its_descriptor() {
    let descriptor = RegionDescriptor {
        base_address: 0x10000,
        region_size: 0x3000,
        state: MEM_COMMIT,
        protect: PAGE_EXECUTE_READ,
    };
    let region = MemoryRegion::from_descriptor(&descriptor);
    assert_eq!(
        region,
        MemoryRegion {
            start_address: 0x10000,
            size: 0x3000,
            is_readable: true,
            is_writable: false,
            is_executable: true,
            protection: 0x20,
        }
    );
}

#[test]
fn region_keeps_the_raw_protection_code() {
    let descriptor = RegionDescriptor {
        base_address: 0x2000,
        region_size: 0x1000,
        state: MEM_COMMIT,
        protect: PAGE_READWRITE | PAGE_GUARD,
    };
    let region = MemoryRegion::from_descriptor(&descriptor);
    assert_eq!(region.protection, 0x104);
    assert!(region.is_readable);
    assert!(region.is_writable);
    assert!(!region.is_executable);
}

//! Memory regions and the protection codes that describe them.

use vstd::prelude::*;

verus! {

/// State code of a region that is backed by storage.
pub const MEM_COMMIT: u32 = 0x1000;

/// Protection code: no access at all.
pub const PAGE_NOACCESS: u32 = 0x01;

/// Protection code: read only.
pub const PAGE_READONLY: u32 = 0x02;

/// Protection code: read and write.
pub const PAGE_READWRITE: u32 = 0x04;

/// Protection code: read, and write to a private copy.
pub const PAGE_WRITECOPY: u32 = 0x08;

/// Protection code: execute only.
pub const PAGE_EXECUTE: u32 = 0x10;

/// Protection code: execute and read.
pub const PAGE_EXECUTE_READ: u32 = 0x20;

/// Protection code: execute, read and write.
pub const PAGE_EXECUTE_READWRITE: u32 = 0x40;

/// Protection code: execute, read, and write to a private copy.
pub const PAGE_EXECUTE_WRITECOPY: u32 = 0x80;

/// Modifier: the first access to the page raises a guard exception.
pub const PAGE_GUARD: u32 = 0x100;

/// Modifier: the page is not cached.
pub const PAGE_NOCACHE: u32 = 0x200;

/// Modifier: writes to the page may be combined.
pub const PAGE_WRITECOMBINE: u32 = 0x400;

/// `protect` carries the bit of the protection code `code`.
pub open spec fn has_code(protect: u32, code: u32) -> bool {
    protect & code != 0
}

/// The protection lets the region be read: it carries one of the six codes
/// that include read access.
pub open spec fn grants_read(protect: u32) -> bool {
    ||| has_code(protect, PAGE_READONLY)
    ||| has_code(protect, PAGE_READWRITE)
    ||| has_code(protect, PAGE_WRITECOPY)
    ||| has_code(protect, PAGE_EXECUTE_READ)
    ||| has_code(protect, PAGE_EXECUTE_READWRITE)
    ||| has_code(protect, PAGE_EXECUTE_WRITECOPY)
}

/// The protection lets the region be written: it carries one of the four
/// codes that include write access.
pub open spec fn grants_write(protect: u32) -> bool {
    ||| has_code(protect, PAGE_READWRITE)
    ||| has_code(protect, PAGE_WRITECOPY)
    ||| has_code(protect, PAGE_EXECUTE_READWRITE)
    ||| has_code(protect, PAGE_EXECUTE_WRITECOPY)
}

/// The protection lets the region be executed: it carries one of the four
/// codes that include execute access.
pub open spec fn grants_execute(protect: u32) -> bool {
    ||| has_code(protect, PAGE_EXECUTE)
    ||| has_code(protect, PAGE_EXECUTE_READ)
    ||| has_code(protect, PAGE_EXECUTE_READWRITE)
    ||| has_code(protect, PAGE_EXECUTE_WRITECOPY)
}

/// The protection grants exactly the given access: `read`, `write` and
/// `execute` say whether it can be read, written and executed.
pub open spec fn grants(protect: u32, read: bool, write: bool, execute: bool) -> bool {
    &&& grants_read(protect) == read
    &&& grants_write(protect) == write
    &&& grants_execute(protect) == execute
}

/// The access that each of the eight protection codes grants, whatever
/// modifiers (guard, no-cache, write-combine and the like) come with it.
pub proof fn lemma_protection_flags(modifiers: u32)
    by (bit_vector)
    requires
        modifiers & 0xFF == 0,
    ensures
        grants(PAGE_NOACCESS | modifiers, false, false, false),
        grants(PAGE_READONLY | modifiers, true, false, false),
        grants(PAGE_READWRITE | modifiers, true, true, false),
        grants(PAGE_WRITECOPY | modifiers, true, true, false),
        grants(PAGE_EXECUTE | modifiers, false, false, true),
        grants(PAGE_EXECUTE_READ | modifiers, true, false, true),
        grants(PAGE_EXECUTE_READWRITE | modifiers, true, true, true),
        grants(PAGE_EXECUTE_WRITECOPY | modifiers, true, true, true),
{
}

/// Whether a protection code includes read access.
pub fn is_readable(protect: u32) -> (readable: bool)
    ensures
        readable == grants_read(protect),
{
    assert((protect & 0xEE != 0) == (protect & 0x02 != 0 || protect & 0x04 != 0 || protect & 0x08
        != 0 || protect & 0x20 != 0 || protect & 0x40 != 0 || protect & 0x80 != 0))
        by (bit_vector);
    protect & 0xEE != 0
}

/// Whether a protection code includes write access.
pub fn is_writable(protect: u32) -> (writable: bool)
    ensures
        writable == grants_write(protect),
{
    assert((protect & 0xCC != 0) == (protect & 0x04 != 0 || protect & 0x08 != 0 || protect & 0x40
        != 0 || protect & 0x80 != 0)) by (bit_vector);
    protect & 0xCC != 0
}

/// Whether a protection code includes execute access.
pub fn is_executable(protect: u32) -> (executable: bool)
    ensures
        executable == grants_execute(protect),
{
    assert((protect & 0xF0 != 0) == (protect & 0x10 != 0 || protect & 0x20 != 0 || protect & 0x40
        != 0 || protect & 0x80 != 0)) by (bit_vector);
    protect & 0xF0 != 0
}

/// What one boundary query reports about the range that covers an address.
#[derive(Debug, Clone, Copy, PartialEq, Eq)]
pub struct RegionDescriptor {
    /// First address of the range.
    pub base_address: usize,
    /// Length of the range in bytes.
    pub region_size: usize,
    /// State code of the range; `MEM_COMMIT` when it is backed by storage.
    pub state: u32,
    /// Protection code of the range.
    pub protect: u32,
}

/// The answer to one boundary query.
#[derive(Debug, Clone, Copy, PartialEq, Eq)]
pub enum QueryOutcome {
    /// The range that covers the queried address.
    Region(RegionDescriptor),
    /// Nothing is mapped at or above the queried address.
    EndOfSpace,
    /// The query was rejected for any other reason.
    Failed,
}

/// One contiguous committed range of the target's address space.
#[derive(Debug, Clone, Copy, PartialEq, Eq)]
pub struct MemoryRegion {
    /// First address of the region.
    pub start_address: usize,
    /// Length of the region in bytes.
    pub size: usize,
    /// The protection includes read access.
    pub is_readable: bool,
    /// The protection includes write access.
    pub is_writable: bool,
    /// The protection includes execute access.
    pub is_executable: bool,
    /// The raw protection code, kept for diagnostics.
    pub protection: u32,
}

impl RegionDescriptor {
    /// The range is backed by storage.
    pub open spec fn committed(self) -> bool {
        self.state == MEM_COMMIT
    }

    /// The region that this descriptor stands for in a catalog.
    pub open spec fn region(self) -> MemoryRegion {
        MemoryRegion {
            start_address: self.base_address,
            size: self.region_size,
            is_readable: grants_read(self.protect),
            is_writable: grants_write(self.protect),
            is_executable: grants_execute(self.protect),
            protection: self.protect,
        }
    }
}

impl MemoryRegion {
    /// One past the last address of the region.
    pub open spec fn end(self) -> int {
        self.start_address + self.size
    }

    /// The region is not empty, ends inside the address space, and its three
    /// flags are the ones that its protection code grants.
    pub open spec fn wf(self) -> bool {
        &&& self.size > 0
        &&& self.end() <= usize::MAX
        &&& self.is_readable == grants_read(self.protection)
        &&& self.is_writable == grants_write(self.protection)
        &&& self.is_executable == grants_execute(self.protection)
    }

    /// The two regions share at least one address.
    pub open spec fn overlaps(self, other: MemoryRegion) -> bool {
        self.start_address < other.end() && other.start_address < self.end()
    }

    /// Builds the catalog entry for a descriptor, deriving the three access
    /// flags from its protection code.
    pub fn from_descriptor(descriptor: &RegionDescriptor) -> (region: MemoryRegion)
        ensures
            region == descriptor.region(),
    {
        MemoryRegion {
            start_address: descriptor.base_address,
            size: descriptor.region_size,
            is_readable: is_readable(descriptor.protect),
            is_writable: is_writable(descriptor.protect),
            is_executable: is_executable(descriptor.protect),
            protection: descriptor.protect,
        }
    }
}

/// A catalog as a scan returns it: every region is well formed, the regions
/// stand in strictly ascending order of their start addresses, and no two of
/// them overlap.
pub open spec fn catalog_wf(regions: Seq<MemoryRegion>) -> bool {
    &&& forall|i: int| 0 <= i < regions.len() ==> (#[trigger] regions[i]).wf()
    &&& forall|i: int, j: int|
        0 <= i < j < regions.len() ==> (#[trigger] regions[i]).start_address < (
        #[trigger] regions[j]).start_address
    &&& forall|i: int, j: int|
        0 <= i < regions.len() && 0 <= j < regions.len() && i != j ==> !(#[trigger] regions[i]).overlaps(
            #[trigger] regions[j],
        )
}

/// Every region of the catalog ends at or below `limit`.
pub open spec fn ends_by(regions: Seq<MemoryRegion>, limit: int) -> bool {
    forall|i: int| 0 <= i < regions.len() ==> (#[trigger] regions[i]).end() <= limit
}

/// A region that starts at or above the end of every region of a catalog may
/// be appended to it.
pub proof fn lemma_catalog_push(regions: Seq<MemoryRegion>, region: MemoryRegion, limit: int)
    requires
        catalog_wf(regions),
        ends_by(regions, limit),
        region.wf(),
        limit <= region.start_address,
    ensures
        catalog_wf(regions.push(region)),
        ends_by(regions.push(region), region.end()),
{
    let extended = regions.push(region);
    assert forall|i: int| 0 <= i < extended.len() implies (#[trigger] extended[i]).wf() by {
        if i < regions.len() {
            assert(extended[i] == regions[i]);
        }
    }
    assert forall|i: int| 0 <= i < extended.len() implies (#[trigger] extended[i]).end()
        <= region.end() by {
        if i < regions.len() {
            assert(extended[i] == regions[i]);
        }
    }
    assert forall|i: int, j: int| 0 <= i < j < extended.len() implies (#[trigger] extended[i]).start_address
        < (#[trigger] extended[j]).start_address by {
        assert(extended[i] == regions[i]);
        if j < regions.len() {
            assert(extended[j] == regions[j]);
        }
    }
    assert forall|i: int, j: int|
        0 <= i < extended.len() && 0 <= j < extended.len() && i != j implies !(
        #[trigger] extended[i]).overlaps(#[trigger] extended[j]) by {
        if i < regions.len() {
            assert(extended[i] == regions[i]);
        }
        if j < regions.len() {
            assert(extended[j] == regions[j]);
        }
    }
}

} // verus!

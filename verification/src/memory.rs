//! The owner of a target process: its handle, its region catalog, and the
//! operations on its memory.
//!
//! The operations reach the target through functions that the caller
//! passes in, one for each service of the operating system. The library
//! decides what to ask for and what follows from each answer; nothing is
//! assumed of the answers.

use vstd::prelude::*;
pub use crate::region::MemoryRegion;
use crate::accessor::{read_result, read_value, write_result, write_status};
use crate::error::MemoryError;
use crate::handle::{after_close, refusal_of, yielded_by_close, ProcessHandle};
use crate::matcher::{region_match, search_from, search_region, search_result};
use crate::plain_data::PlainData;
use crate::region::{catalog_wf, QueryOutcome};
use crate::scanner::{
    answers_with, catalog_of_layout, pass_answered, pass_under_way, scan_after, scan_fails,
    scan_found, scan_of_layout, Layout, RegionScan, ScanStep,
};

verus! {

/// What a `Memory` stands for: the native handle while it is held, and the
/// catalog of the last completed scan.
pub ghost struct MemoryView {
    pub handle: Option<usize>,
    pub regions: Seq<MemoryRegion>,
}

/// A target process: the handle to it and the catalog of its regions.
pub struct Memory {
    handle: ProcessHandle,
    regions: Vec<MemoryRegion>,
}

/// What reads of fixed memory contents return: `contents(a, n)` holds the
/// bytes copied by a read of `n` bytes at address `a`, or `None` where the
/// read is rejected, whenever it is asked.
pub type Contents = spec_fn(usize, usize) -> Option<Seq<u8>>;

/// The bytes that a read copied, or `None` where it was rejected.
pub open spec fn copied(transfer: Option<Vec<u8>>) -> Option<Seq<u8>> {
    match transfer {
        Some(bytes) => Some(bytes@),
        None => None,
    }
}

/// Every result that `read` can give for `handle` is the one that the
/// contents hold for the address and length.
pub open spec fn reads_with<F: Fn(usize, usize, usize) -> Option<Vec<u8>>>(
    read: F,
    handle: usize,
    contents: Contents,
) -> bool {
    forall|address: usize, length: usize, transfer: Option<Vec<u8>>|
        read.ensures((handle, address, length), transfer) ==> copied(transfer) == contents(
            address,
            length,
        )
}

/// What reading each region of a catalog in full returns, for fixed memory
/// contents.
pub open spec fn transfers_of(regions: Seq<MemoryRegion>, contents: Contents) -> Seq<
    Option<Seq<u8>>,
> {
    Seq::new(regions.len(), |i: int| contents(regions[i].start_address, regions[i].size))
}

/// Reading the region with `read` and searching what was copied can yield
/// the occurrence at `address`.
pub open spec fn finds_at<F: Fn(usize, usize, usize) -> Option<Vec<u8>>>(
    read: F,
    handle: usize,
    region: MemoryRegion,
    pattern: Seq<u8>,
    mask: Seq<bool>,
    address: usize,
) -> bool {
    exists|transfer: Option<Vec<u8>>|
        {
            &&& read.ensures((handle, region.start_address, region.size), transfer)
            &&& region_match(region, copied(transfer), pattern, mask) == Some(address)
        }
}

/// The region is not readable, or reading it with `read` and searching
/// what was copied can yield no occurrence.
pub open spec fn passes_over<F: Fn(usize, usize, usize) -> Option<Vec<u8>>>(
    read: F,
    handle: usize,
    region: MemoryRegion,
    pattern: Seq<u8>,
    mask: Seq<bool>,
) -> bool {
    !region.is_readable || exists|transfer: Option<Vec<u8>>|
        {
            &&& read.ensures((handle, region.start_address, region.size), transfer)
            &&& region_match(region, copied(transfer), pattern, mask) is None
        }
}

/// Every one of the first `count` regions is passed over.
pub open spec fn passes_over_all<F: Fn(usize, usize, usize) -> Option<Vec<u8>>>(
    read: F,
    handle: usize,
    regions: Seq<MemoryRegion>,
    count: int,
    pattern: Seq<u8>,
    mask: Seq<bool>,
) -> bool {
    forall|j: int|
        0 <= j < count ==> passes_over(read, handle, #[trigger] regions[j], pattern, mask)
}

/// What a scan comes to where the answer `last` ends the pass that the
/// answers `earlier` led to, and the catalog before the scan was `before`:
/// the reply, and the catalog afterwards. A pass that fails leaves the
/// catalog as it was; any other pass replaces it with what it found.
pub open spec fn scan_outcome(
    earlier: Seq<QueryOutcome>,
    last: QueryOutcome,
    before: Seq<MemoryRegion>,
) -> (Result<(), MemoryError>, Seq<MemoryRegion>) {
    if scan_fails(scan_after(earlier), last) {
        (Err(MemoryError::ScanFailed), before)
    } else {
        (Ok(()), scan_found(scan_after(earlier), last))
    }
}

impl View for Memory {
    type V = MemoryView;

    closed spec fn view(&self) -> MemoryView {
        MemoryView { handle: self.handle@, regions: self.regions@ }
    }
}

impl Memory {
    /// The invariant: the regions form a catalog.
    #[verifier::type_invariant]
    spec fn wf(&self) -> bool {
        catalog_wf(self.regions@)
    }

    /// Takes ownership of what the system returned for a request to open
    /// the target with `required_access()`: the native handle, and the
    /// system's error code where the handle is null. A null handle means
    /// that the request was refused; the error code then tells why. The
    /// catalog starts empty.
    pub fn new(native_handle: usize, error_code: u32) -> (opened: Result<Memory, MemoryError>)
        ensures
            match opened {
                Ok(memory) => {
                    &&& native_handle != 0
                    &&& memory@.handle == Some(native_handle)
                    &&& memory@.regions == Seq::<MemoryRegion>::empty()
                },
                Err(error) => native_handle == 0 && error == MemoryError::OpenFailed(
                    refusal_of(error_code),
                ),
            },
    {
        match ProcessHandle::open(native_handle, error_code) {
            Ok(handle) => {
                let memory = Memory { handle, regions: Vec::new() };
                assert(memory@.regions =~= Seq::empty());
                Ok(memory)
            },
            Err(error) => Err(error),
        }
    }

    /// The native handle, while it is held.
    pub fn handle(&self) -> (native: Option<usize>)
        ensures
            native == self@.handle,
    {
        self.handle.native()
    }

    /// Gives the native handle up. The first call yields it, and the caller
    /// must release it; every later call yields nothing. The catalog stays.
    pub fn close(&mut self) -> (yielded: Option<usize>)
        ensures
            yielded == yielded_by_close(old(self)@.handle),
            final(self)@.handle == after_close(old(self)@.handle),
            final(self)@.regions == old(self)@.regions,
    {
        proof {
            use_type_invariant(&*self);
        }
        self.handle.close()
    }

    /// The catalog of the last completed scan; empty before the first.
    pub fn get_regions(&self) -> (regions: &Vec<MemoryRegion>)
        ensures
            regions@ == self@.regions,
            catalog_wf(regions@),
    {
        proof {
            use_type_invariant(self);
        }
        &self.regions
    }

    /// Scans the address space of the target and replaces the catalog.
    ///
    /// `query(handle, address)` must report the range that covers
    /// `address`. The scan queries address 0 first and then the end of
    /// each range reported, until an answer ends it: the end of the space,
    /// a rejected query, a range that reaches the top of the address
    /// space, or a range that is empty, ends at or below the address
    /// queried or runs past the top. The committed ranges met on the way
    /// become the catalog, in ascending order; one that overlaps a region
    /// already taken in is passed over.
    ///
    /// The scan fails only where the very first query is rejected, or the
    /// handle has been given up; the catalog is then left as it was.
    pub fn scan_memory(&mut self, query: impl Fn(usize, usize) -> QueryOutcome) -> (reply: Result<
        (),
        MemoryError,
    >)
        requires
            old(self)@.handle matches Some(handle) ==> forall|address: usize|
                query.requires((handle, address)),
        ensures
            catalog_wf(final(self)@.regions),
            final(self)@.handle == old(self)@.handle,
            old(self)@.handle is None ==> reply == Err::<(), MemoryError>(MemoryError::ScanFailed)
                && final(self)@.regions == old(self)@.regions,
            old(self)@.handle is Some ==> exists|earlier: Seq<QueryOutcome>, last: QueryOutcome|
                #[trigger] pass_answered(query, old(self)@.handle->Some_0, earlier, last) && (
                reply,
                final(self)@.regions,
            ) == scan_outcome(earlier, last, old(self)@.regions),
            forall|layout: Layout|
                old(self)@.handle matches Some(handle) && answers_with(query, handle, layout)
                    ==> match #[trigger] catalog_of_layout(layout) {
                    Some(catalog) => reply is Ok && final(self)@.regions == catalog,
                    None => reply is Err,
                },
    {
        proof {
            use_type_invariant(&*self);
        }
        let handle = match self.handle.native() {
            Some(handle) => handle,
            None => {
                return Err(MemoryError::ScanFailed);
            },
        };
        let mut scan = RegionScan::new();
        let ghost mut answers: Seq<QueryOutcome> = Seq::empty();
        loop
            invariant
                scan@ == scan_after(answers),
                pass_under_way(query, handle, answers),
                catalog_wf(self@.regions),
                *self == *old(self),
                self@.handle == Some(handle),
                forall|address: usize| query.requires((handle, address)),
                forall|layout: Layout|
                    answers_with(query, handle, layout) ==> #[trigger] catalog_of_layout(layout)
                        == scan_of_layout(layout, scan@),
            decreases usize::MAX - scan@.cursor,
        {
            let ghost before = scan@;
            let outcome = query(handle, scan.cursor());
            assert forall|layout: Layout| answers_with(query, handle, layout) implies layout(
                before.cursor,
            ) == outcome by {}
            match scan.step(outcome) {
                ScanStep::Continue(next) => {
                    scan = next;
                    proof {
                        assert(answers.push(outcome).drop_last() =~= answers);
                        answers = answers.push(outcome);
                    }
                },
                ScanStep::Complete(catalog) => {
                    self.regions = catalog;
                    assert(pass_answered(query, old(self)@.handle->Some_0, answers, outcome));
                    return Ok(());
                },
                ScanStep::Failed => {
                    assert(pass_answered(query, old(self)@.handle->Some_0, answers, outcome));
                    return Err(MemoryError::ScanFailed);
                },
            }
        }
    }

    /// Reads a `T` at `address`.
    ///
    /// `read(handle, address, length)` must copy up to `length` bytes from
    /// `address` and return the bytes that it copied, or `None` where the
    /// system rejected the transfer. It is asked once, for exactly
    /// `T::width()` bytes at `address`. The read fails where the transfer
    /// is rejected or copies fewer bytes, and where the handle has been
    /// given up; a value is never made up from a part of its bytes.
    pub fn read_memory<T: PlainData>(
        &self,
        address: usize,
        read: impl Fn(usize, usize, usize) -> Option<Vec<u8>>,
    ) -> (value: Result<T, MemoryError>)
        requires
            self@.handle matches Some(handle) ==> read.requires(
                (handle, address, T::width()),
            ),
        ensures
            match self@.handle {
                Some(handle) => exists|transfer: Option<Vec<u8>>|
                    read.ensures((handle, address, T::width()), transfer) && value
                        == read_result::<T>(copied(transfer)),
                None => value == Err::<T, MemoryError>(MemoryError::ReadFailed),
            },
    {
        let handle = match self.handle.native() {
            Some(handle) => handle,
            None => {
                return Err(MemoryError::ReadFailed);
            },
        };
        let transfer = read(handle, address, T::size());
        assert(read.ensures((handle, address, T::width()), transfer));
        let value = match &transfer {
            Some(bytes) => read_value::<T>(Some(bytes.as_slice())),
            None => read_value::<T>(None),
        };
        assert(value == read_result::<T>(copied(transfer)));
        value
    }

    /// Writes `value` at `address`.
    ///
    /// `write(handle, address, bytes)` must store `bytes` at `address` and
    /// return the number of bytes that it stored, or `None` where the
    /// system rejected the transfer. It is asked once, with the bytes of
    /// `value`. The write fails where the transfer is rejected or stores
    /// fewer bytes, and where the handle has been given up. Nothing is
    /// rolled back: after a failed write the contents of the target's
    /// memory at `address` are undefined.
    pub fn write_memory<T: PlainData>(
        &self,
        address: usize,
        value: T,
        write: impl Fn(usize, usize, Vec<u8>) -> Option<usize>,
    ) -> (status: Result<(), MemoryError>)
        requires
            self@.handle matches Some(handle) ==> forall|bytes: Vec<u8>|
                bytes@ == value.to_bytes() ==> write.requires((handle, address, bytes)),
        ensures
            match self@.handle {
                Some(handle) => exists|bytes: Vec<u8>, written: Option<usize>|
                    bytes@ == value.to_bytes() && write.ensures((handle, address, bytes), written)
                        && status == write_result(value.to_bytes().len(), written),
                None => status == Err::<(), MemoryError>(MemoryError::WriteFailed),
            },
    {
        let handle = match self.handle.native() {
            Some(handle) => handle,
            None => {
                return Err(MemoryError::WriteFailed);
            },
        };
        let bytes = value.encode();
        let requested = bytes.len();
        let ghost sent = bytes;
        let written = write(handle, address, bytes);
        assert(write.ensures((handle, address, sent), written));
        write_status(requested, written)
    }

    /// Finds the first occurrence of `pattern` in the readable regions of
    /// the catalog. Positions whose `mask` is `false` accept any byte.
    ///
    /// `read` is as for `read_memory`, and is asked for readable regions
    /// only. The regions are taken in catalog order; each readable one is
    /// read in full, and searched at ascending offsets if the read copied
    /// all of it. A region whose read is rejected or falls short, and a
    /// region shorter than the pattern, is passed over. The first
    /// occurrence ends the search; its address is returned. `Ok(None)`
    /// means that no region had an occurrence, as is the case once the
    /// handle has been given up. The search never fails.
    pub fn find_pattern(
        &self,
        pattern: &[u8],
        mask: &[bool],
        read: impl Fn(usize, usize, usize) -> Option<Vec<u8>>,
    ) -> (found: Result<Option<usize>, MemoryError>)
        requires
            pattern.len() == mask.len(),
            self@.handle matches Some(handle) ==> forall|i: int|
                0 <= i < self@.regions.len() && self@.regions[i].is_readable ==> read.requires(
                    (handle, self@.regions[i].start_address, self@.regions[i].size),
                ),
        ensures
            self@.handle is None ==> found == Ok::<Option<usize>, MemoryError>(None),
            match found {
                Ok(Some(address)) => exists|i: int|
                    0 <= i < self@.regions.len() && #[trigger] finds_at(
                        read,
                        self@.handle->Some_0,
                        self@.regions[i],
                        pattern@,
                        mask@,
                        address,
                    ) && passes_over_all(
                        read,
                        self@.handle->Some_0,
                        self@.regions,
                        i,
                        pattern@,
                        mask@,
                    ),
                Ok(None) => self@.handle is Some ==> passes_over_all(
                    read,
                    self@.handle->Some_0,
                    self@.regions,
                    self@.regions.len() as int,
                    pattern@,
                    mask@,
                ),
                Err(_) => false,
            },
            forall|contents: Contents|
                self@.handle matches Some(handle) && reads_with(read, handle, contents) ==> found
                    == Ok::<Option<usize>, MemoryError>(
                    #[trigger] search_result(
                        self@.regions,
                        transfers_of(self@.regions, contents),
                        pattern@,
                        mask@,
                    ),
                ),
    {
        proof {
            use_type_invariant(self);
        }
        let handle = match self.handle.native() {
            Some(handle) => handle,
            None => {
                return Ok(None);
            },
        };
        let mut index: usize = 0;
        while index < self.regions.len()
            invariant
                index <= self.regions.len(),
                catalog_wf(self@.regions),
                pattern.len() == mask.len(),
                self@.handle == Some(handle),
                forall|i: int|
                    0 <= i < self@.regions.len() && self@.regions[i].is_readable
                        ==> read.requires(
                        (handle, self@.regions[i].start_address, self@.regions[i].size),
                    ),
                passes_over_all(read, handle, self@.regions, index as int, pattern@, mask@),
                forall|contents: Contents|
                    reads_with(read, handle, contents) ==> #[trigger] search_result(
                        self@.regions,
                        transfers_of(self@.regions, contents),
                        pattern@,
                        mask@,
                    ) == search_from(
                        self@.regions,
                        transfers_of(self@.regions, contents),
                        index as int,
                        pattern@,
                        mask@,
                    ),
            decreases self.regions.len() - index,
        {
            let region = self.regions[index];
            assert(region == self@.regions[index as int]);
            assert(region.wf());
            let mut hit: Option<usize> = None;
            if region.is_readable {
                let transfer = read(handle, region.start_address, region.size);
                hit =
                match &transfer {
                    Some(bytes) => search_region(&region, Some(bytes.as_slice()), pattern, mask),
                    None => search_region(&region, None, pattern, mask),
                };
                assert(hit == region_match(region, copied(transfer), pattern@, mask@));
                assert forall|contents: Contents|
                    reads_with(read, handle, contents) implies transfers_of(
                    self@.regions,
                    contents,
                )[index as int] == copied(transfer) by {}
            }
            assert forall|contents: Contents| reads_with(read, handle, contents) implies hit
                == region_match(
                region,
                transfers_of(self@.regions, contents)[index as int],
                pattern@,
                mask@,
            ) by {}
            if let Some(address) = hit {
                assert(finds_at(read, handle, self@.regions[index as int], pattern@, mask@, address));
                assert(self@.handle->Some_0 == handle);
                return Ok(Some(address));
            }
            assert(passes_over(read, handle, self@.regions[index as int], pattern@, mask@));
            index += 1;
        }
        Ok(None)
    }
}

} // verus!

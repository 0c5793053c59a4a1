//! The region scanner: one pass over the address space, one query at a time.
//!
//! A pass starts with its cursor at address 0. Whoever runs it queries the
//! range that covers the cursor and hands the answer to
//! [`RegionScan::step`], which either returns the pass with its cursor
//! moved up, or closes it and hands out the catalog. The cursor only ever
//! moves up, so a pass ends after finitely many answers.

use vstd::prelude::*;
use crate::region::{
    catalog_wf, ends_by, lemma_catalog_push, MemoryRegion, QueryOutcome, RegionDescriptor, MEM_COMMIT,
};

verus! {

/// The state of a pass: where the next query goes and what was found so far.
pub ghost struct ScanView {
    pub cursor: usize,
    pub found: Seq<MemoryRegion>,
}

/// A pass over the address space that is under way.
#[derive(Debug)]
pub struct RegionScan {
    cursor: usize,
    found: Vec<MemoryRegion>,
}

/// What follows from the answer to a query.
#[derive(Debug)]
pub enum ScanStep {
    /// The pass goes on: query the range that covers its cursor.
    Continue(RegionScan),
    /// The pass is over: these are the committed regions, in address order.
    Complete(Vec<MemoryRegion>),
    /// The first query of the pass was rejected; there is no catalog.
    Failed,
}

/// The state of a pass before its first query.
pub open spec fn fresh_scan() -> ScanView {
    ScanView { cursor: 0, found: Seq::empty() }
}

/// The descriptor names a range that carries the pass on: it is not empty,
/// ends above the cursor, and ends inside the address space. It may start
/// below the cursor, as a range that covers the cursor can.
pub open spec fn lies_ahead(descriptor: RegionDescriptor, cursor: usize) -> bool {
    &&& descriptor.region_size > 0
    &&& descriptor.base_address + descriptor.region_size > cursor
    &&& descriptor.base_address + descriptor.region_size <= usize::MAX
}

/// One past the last address of the last region found; 0 where none was
/// found.
pub open spec fn found_end(found: Seq<MemoryRegion>) -> int {
    if found.len() == 0 {
        0
    } else {
        found.last().end()
    }
}

/// The pass takes the descriptor's region into the catalog: the range lies
/// ahead of the cursor, is committed, and starts at or above the end of
/// everything found so far, so that the catalog stays in order and free of
/// overlap.
pub open spec fn takes_in(view: ScanView, descriptor: RegionDescriptor) -> bool {
    &&& lies_ahead(descriptor, view.cursor)
    &&& descriptor.committed()
    &&& descriptor.base_address >= found_end(view.found)
}

/// The answer makes the pass fail: it is a rejection of the very first query.
pub open spec fn scan_fails(view: ScanView, outcome: QueryOutcome) -> bool {
    view.cursor == 0 && outcome is Failed
}

/// The regions found once the answer is taken in: a descriptor adds its
/// region exactly where the pass takes it in; a range that is not
/// committed, or that overlaps what was found, is passed over, and any
/// other answer adds nothing.
pub open spec fn scan_found(view: ScanView, outcome: QueryOutcome) -> Seq<MemoryRegion> {
    match outcome {
        QueryOutcome::Region(descriptor) => if takes_in(view, descriptor) {
            view.found.push(descriptor.region())
        } else {
            view.found
        },
        _ => view.found,
    }
}

/// The answer leaves more to query: it is a descriptor that lies ahead of
/// the cursor and ends below the top of the address space.
pub open spec fn scan_continues(view: ScanView, outcome: QueryOutcome) -> bool {
    match outcome {
        QueryOutcome::Region(descriptor) => lies_ahead(descriptor, view.cursor)
            && descriptor.base_address + descriptor.region_size < usize::MAX,
        _ => false,
    }
}

/// The state of the pass after an answer that leaves more to query: the
/// cursor has moved to the end of the range, and the range's region has
/// been taken in or passed over. Any other answer leaves the state as it
/// is.
pub open spec fn scan_next(view: ScanView, outcome: QueryOutcome) -> ScanView {
    match outcome {
        QueryOutcome::Region(descriptor) if scan_continues(view, outcome) => ScanView {
            cursor: (descriptor.base_address + descriptor.region_size) as usize,
            found: scan_found(view, outcome),
        },
        _ => view,
    }
}

/// The invariant of a pass: the cursor is below the top of the address
/// space, the regions found form a catalog, and all of them end at or below
/// the cursor.
pub open spec fn scan_wf(view: ScanView) -> bool {
    &&& view.cursor < usize::MAX
    &&& catalog_wf(view.found)
    &&& ends_by(view.found, view.cursor as int)
}

/// The last region of a catalog ends highest: every region ends at or
/// below the end of the last.
pub proof fn lemma_found_end(found: Seq<MemoryRegion>)
    requires
        catalog_wf(found),
    ensures
        ends_by(found, found_end(found)),
        0 <= found_end(found) <= usize::MAX,
{
    if found.len() > 0 {
        let last = found.len() - 1;
        assert(found[last].wf());
        assert forall|i: int| 0 <= i < found.len() implies (#[trigger] found[i]).end()
            <= found_end(found) by {
            if i < last {
                assert(found[i].wf());
                assert(!found[i].overlaps(found[last]));
            }
        }
    }
}

/// Taking an answer in keeps the invariant of the pass, and what is found
/// is a catalog whatever the answer was.
pub proof fn lemma_scan_step(view: ScanView, outcome: QueryOutcome)
    requires
        scan_wf(view),
    ensures
        scan_wf(scan_next(view, outcome)),
        catalog_wf(scan_found(view, outcome)),
        scan_continues(view, outcome) ==> scan_next(view, outcome).cursor > view.cursor,
{
    match outcome {
        QueryOutcome::Region(descriptor) => {
            if lies_ahead(descriptor, view.cursor) {
                let end = descriptor.base_address + descriptor.region_size;
                if takes_in(view, descriptor) {
                    lemma_found_end(view.found);
                    lemma_catalog_push(view.found, descriptor.region(), found_end(view.found));
                } else {
                    assert forall|i: int| 0 <= i < view.found.len() implies (
                    #[trigger] view.found[i]).end() <= end by {}
                }
            }
        },
        _ => {},
    }
}

/// The answers that a fixed memory layout gives to queries: `layout(a)` is
/// the answer to the query at address `a`, whenever it is asked.
pub type Layout = spec_fn(usize) -> QueryOutcome;

/// The catalog of the pass that runs from state `view` over a fixed memory
/// layout: the pass follows the cursor from answer to answer until one ends
/// it. `None` where the pass fails.
pub open spec fn scan_of_layout(layout: Layout, view: ScanView) -> Option<Seq<MemoryRegion>>
    decreases usize::MAX - view.cursor,
{
    let outcome = layout(view.cursor);
    if scan_continues(view, outcome) {
        scan_of_layout(layout, scan_next(view, outcome))
    } else if scan_fails(view, outcome) {
        None
    } else {
        Some(scan_found(view, outcome))
    }
}

/// The catalog of a whole pass over a fixed memory layout.
pub open spec fn catalog_of_layout(layout: Layout) -> Option<Seq<MemoryRegion>> {
    scan_of_layout(layout, fresh_scan())
}

/// Every answer that `query` can give for `handle` is the one that the
/// layout holds for the address.
pub open spec fn answers_with<F: Fn(usize, usize) -> QueryOutcome>(
    query: F,
    handle: usize,
    layout: Layout,
) -> bool {
    forall|address: usize, outcome: QueryOutcome|
        query.ensures((handle, address), outcome) ==> outcome == layout(address)
}

/// The state of a pass that has taken in the answers `outcomes`, in order,
/// from a fresh start.
pub open spec fn scan_after(outcomes: Seq<QueryOutcome>) -> ScanView
    decreases outcomes.len(),
{
    if outcomes.len() == 0 {
        fresh_scan()
    } else {
        scan_next(scan_after(outcomes.drop_last()), outcomes.last())
    }
}

/// `outcomes` are answers that `query` gave to a pass that is still under
/// way: each is an answer to the query at the cursor that the earlier ones
/// led to, and each leaves more to query.
pub open spec fn pass_under_way<F: Fn(usize, usize) -> QueryOutcome>(
    query: F,
    handle: usize,
    outcomes: Seq<QueryOutcome>,
) -> bool
    decreases outcomes.len(),
{
    outcomes.len() == 0 || {
        let earlier = outcomes.drop_last();
        &&& pass_under_way(query, handle, earlier)
        &&& query.ensures((handle, scan_after(earlier).cursor), outcomes.last())
        &&& scan_continues(scan_after(earlier), outcomes.last())
    }
}

/// The answers `earlier`, followed by `last`, are a whole pass that `query`
/// answered: `last` is the answer to the query at the cursor that the
/// earlier ones led to, and it is the one that ends the pass.
pub open spec fn pass_answered<F: Fn(usize, usize) -> QueryOutcome>(
    query: F,
    handle: usize,
    earlier: Seq<QueryOutcome>,
    last: QueryOutcome,
) -> bool {
    &&& pass_under_way(query, handle, earlier)
    &&& query.ensures((handle, scan_after(earlier).cursor), last)
    &&& !scan_continues(scan_after(earlier), last)
}

/// A scan yields a catalog: the regions that a whole pass over a layout
/// finds are well formed, stand in strictly ascending order of their start
/// addresses, and do not overlap.
pub proof fn lemma_catalog_of_layout_wf(layout: Layout)
    ensures
        catalog_of_layout(layout) matches Some(catalog) ==> catalog_wf(catalog),
{
    lemma_scan_of_layout_wf(layout, fresh_scan());
}

/// The rest of a pass over a layout yields a catalog.
proof fn lemma_scan_of_layout_wf(layout: Layout, view: ScanView)
    requires
        scan_wf(view),
    ensures
        scan_of_layout(layout, view) matches Some(catalog) ==> catalog_wf(catalog),
    decreases usize::MAX - view.cursor,
{
    let outcome = layout(view.cursor);
    lemma_scan_step(view, outcome);
    if scan_continues(view, outcome) {
        lemma_scan_of_layout_wf(layout, scan_next(view, outcome));
    }
}

/// Scanning again over an unchanged layout gives an equal catalog: where
/// two layouts hold the same answer for every address, the passes over
/// them end alike, with catalogs that are equal region by region.
pub proof fn lemma_rescan_gives_equal_catalog(first: Layout, second: Layout)
    requires
        forall|address: usize| #[trigger] first(address) == second(address),
    ensures
        catalog_of_layout(first) == catalog_of_layout(second),
        forall|catalog: Seq<MemoryRegion>, i: int|
            catalog_of_layout(first) == Some(catalog) && 0 <= i < catalog.len()
                ==> catalog_of_layout(second)->Some_0[i] == #[trigger] catalog[i],
{
    assert(first =~= second);
}

impl View for RegionScan {
    type V = ScanView;

    closed spec fn view(&self) -> ScanView {
        ScanView { cursor: self.cursor, found: self.found@ }
    }
}

impl RegionScan {
    /// The invariant of the pass holds.
    #[verifier::type_invariant]
    spec fn wf(&self) -> bool {
        scan_wf(self@)
    }

    /// A pass that has not made its first query.
    pub fn new() -> (scan: RegionScan)
        ensures
            scan@ == fresh_scan(),
    {
        let found: Vec<MemoryRegion> = Vec::new();
        assert(found@ =~= Seq::empty());
        RegionScan { cursor: 0, found }
    }

    /// The address that the next query is for.
    pub fn cursor(&self) -> (address: usize)
        ensures
            address == self@.cursor,
            address < usize::MAX,
    {
        proof {
            use_type_invariant(self);
        }
        self.cursor
    }

    /// Takes in the answer to the query at the cursor.
    ///
    /// A range that is not empty and ends above the cursor and inside the
    /// address space moves the cursor to its end, whether it starts at the
    /// cursor, above it or below it. Its region is taken into the catalog
    /// if the range is committed and starts at or above the end of the last
    /// region found; a range that is not committed, or that overlaps what
    /// was found, is passed over and the pass goes on. The cursor saturates
    /// at the top of the address space, where the pass ends. An answer that
    /// reports the end of the space, a rejected query after the first, and
    /// a range that is empty, ends at or below the cursor or runs past the
    /// top of the address space all end the pass without a region. A
    /// rejection of the first query fails the pass.
    pub fn step(self, outcome: QueryOutcome) -> (step: ScanStep)
        ensures
            match step {
                ScanStep::Continue(scan) => {
                    &&& scan_continues(self@, outcome)
                    &&& scan@ == scan_next(self@, outcome)
                    &&& scan@.cursor > self@.cursor
                },
                ScanStep::Complete(catalog) => {
                    &&& !scan_continues(self@, outcome)
                    &&& !scan_fails(self@, outcome)
                    &&& catalog@ == scan_found(self@, outcome)
                    &&& catalog_wf(catalog@)
                },
                ScanStep::Failed => scan_fails(self@, outcome),
            },
    {
        proof {
            use_type_invariant(&self);
            lemma_scan_step(self@, outcome);
        }
        let cursor = self.cursor;
        let mut found = self.found;
        match outcome {
            QueryOutcome::Region(descriptor) => {
                let end: usize = descriptor.base_address.saturating_add(descriptor.region_size);
                let fits = descriptor.region_size <= usize::MAX - descriptor.base_address;
                if descriptor.region_size > 0 && fits && end > cursor {
                    let limit: usize = if found.len() == 0 {
                        0
                    } else {
                        let last = &found[found.len() - 1];
                        assert(last.wf());
                        last.start_address + last.size
                    };
                    if descriptor.state == MEM_COMMIT && descriptor.base_address >= limit {
                        found.push(MemoryRegion::from_descriptor(&descriptor));
                    }
                    if end < usize::MAX {
                        return ScanStep::Continue(RegionScan { cursor: end, found });
                    }
                }
                ScanStep::Complete(found)
            },
            QueryOutcome::Failed => {
                if cursor == 0 {
                    ScanStep::Failed
                } else {
                    ScanStep::Complete(found)
                }
            },
            QueryOutcome::EndOfSpace => ScanStep::Complete(found),
        }
    }
}

} // verus!

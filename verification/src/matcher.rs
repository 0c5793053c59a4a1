//! Masked pattern matching over a buffer of bytes.

use vstd::prelude::*;
use crate::accessor::transfer_view;
use crate::region::MemoryRegion;

verus! {

/// `pattern` occurs in `buffer` at `offset`: the pattern fits inside the
/// buffer there, and every position that the mask marks as significant holds
/// the pattern's byte. Positions whose mask is `false` accept any byte.
pub open spec fn matches_at(buffer: Seq<u8>, offset: int, pattern: Seq<u8>, mask: Seq<bool>) -> bool {
    &&& 0 <= offset
    &&& offset + pattern.len() <= buffer.len()
    &&& forall|j: int| 0 <= j < pattern.len() && mask[j] ==> buffer[offset + j] == pattern[j]
}

/// `offset` is the lowest offset at which `pattern` occurs in `buffer`.
pub open spec fn is_first_match(buffer: Seq<u8>, offset: int, pattern: Seq<u8>, mask: Seq<bool>) -> bool {
    &&& matches_at(buffer, offset, pattern, mask)
    &&& forall|k: int| k < offset ==> !matches_at(buffer, k, pattern, mask)
}

/// The lowest offset at which `pattern` occurs in `buffer`, if it occurs at all.
pub open spec fn first_match(buffer: Seq<u8>, pattern: Seq<u8>, mask: Seq<bool>) -> Option<int> {
    if exists|i: int| matches_at(buffer, i, pattern, mask) {
        Some(choose|i: int| is_first_match(buffer, i, pattern, mask))
    } else {
        None
    }
}

/// A lowest occurrence is the one that `first_match` names.
pub proof fn lemma_first_match_unique(buffer: Seq<u8>, offset: int, pattern: Seq<u8>, mask: Seq<bool>)
    requires
        is_first_match(buffer, offset, pattern, mask),
    ensures
        first_match(buffer, pattern, mask) == Some(offset),
{
    let chosen = choose|i: int| is_first_match(buffer, i, pattern, mask);
    assert(is_first_match(buffer, chosen, pattern, mask));
    assert(chosen == offset);
}

/// Whether `pattern` occurs in `buffer` at `offset`, where the pattern is
/// known to fit.
fn occurs_at(buffer: &[u8], offset: usize, pattern: &[u8], mask: &[bool]) -> (found: bool)
    requires
        pattern.len() == mask.len(),
        offset + pattern.len() <= buffer.len(),
    ensures
        found == matches_at(buffer@, offset as int, pattern@, mask@),
{
    let mut j: usize = 0;
    while j < pattern.len()
        invariant
            j <= pattern.len(),
            pattern.len() == mask.len(),
            offset + pattern.len() <= buffer.len(),
            forall|k: int| 0 <= k < j && mask@[k] ==> buffer@[offset + k] == pattern@[k],
        decreases pattern.len() - j,
    {
        if mask[j] && buffer[offset + j] != pattern[j] {
            return false;
        }
        j += 1;
    }
    true
}

/// Finds the first occurrence of `pattern` in `buffer`.
///
/// Offsets are tried in ascending order from 0 up to and including
/// `buffer.len() - pattern.len()`. A pattern longer than the buffer occurs
/// nowhere, and no offset is tried for it.
pub fn find_in_buffer(buffer: &[u8], pattern: &[u8], mask: &[bool]) -> (found: Option<usize>)
    requires
        pattern.len() == mask.len(),
    ensures
        match found {
            Some(offset) => {
                &&& is_first_match(buffer@, offset as int, pattern@, mask@)
                &&& first_match(buffer@, pattern@, mask@) == Some(offset as int)
            },
            None => {
                &&& forall|i: int| !matches_at(buffer@, i, pattern@, mask@)
                &&& first_match(buffer@, pattern@, mask@) is None
            },
        },
{
    if pattern.len() > buffer.len() {
        return None;
    }
    let last: usize = buffer.len() - pattern.len();
    let mut i: usize = 0;
    while i <= last
        invariant
            i <= last + 1,
            last == buffer.len() - pattern.len(),
            pattern.len() == mask.len(),
            forall|k: int| k < i ==> !matches_at(buffer@, k, pattern@, mask@),
        decreases last + 1 - i,
    {
        if occurs_at(buffer, i, pattern, mask) {
            proof {
                lemma_first_match_unique(buffer@, i as int, pattern@, mask@);
            }
            return Some(i);
        }
        i += 1;
    }
    None
}

/// The mask marks every position as significant.
pub open spec fn all_significant(mask: Seq<bool>) -> bool {
    forall|j: int| 0 <= j < mask.len() ==> mask[j]
}

/// The mask marks every position as a wildcard.
pub open spec fn all_wildcards(mask: Seq<bool>) -> bool {
    forall|j: int| 0 <= j < mask.len() ==> !mask[j]
}

/// The transfer copied the region in full.
pub open spec fn read_in_full(region: MemoryRegion, transfer: Option<Seq<u8>>) -> bool {
    transfer matches Some(bytes) && bytes.len() == region.size
}

/// The address of the first occurrence of the pattern in one region, given
/// what reading the region returned. A region that is not readable, whose
/// read was rejected or did not copy the region in full, or that is
/// shorter than the pattern has no occurrence.
pub open spec fn region_match(
    region: MemoryRegion,
    transfer: Option<Seq<u8>>,
    pattern: Seq<u8>,
    mask: Seq<bool>,
) -> Option<usize> {
    if region.is_readable && read_in_full(region, transfer) {
        match first_match(transfer->Some_0, pattern, mask) {
            Some(offset) => Some((region.start_address + offset) as usize),
            None => None,
        }
    } else {
        None
    }
}

/// The result of searching the regions from index `from` on, where
/// `transfers[i]` is what reading region `i` returns: the first occurrence
/// in the first region that has one.
pub open spec fn search_from(
    regions: Seq<MemoryRegion>,
    transfers: Seq<Option<Seq<u8>>>,
    from: int,
    pattern: Seq<u8>,
    mask: Seq<bool>,
) -> Option<usize>
    decreases regions.len() - from,
{
    if from < 0 || from >= regions.len() {
        None
    } else {
        match region_match(regions[from], transfers[from], pattern, mask) {
            Some(address) => Some(address),
            None => search_from(regions, transfers, from + 1, pattern, mask),
        }
    }
}

/// The result of searching a whole catalog, where `transfers[i]` is what
/// reading region `i` returns.
pub open spec fn search_result(
    regions: Seq<MemoryRegion>,
    transfers: Seq<Option<Seq<u8>>>,
    pattern: Seq<u8>,
    mask: Seq<bool>,
) -> Option<usize> {
    search_from(regions, transfers, 0, pattern, mask)
}

/// Where the pattern occurs at all, it has a lowest occurrence, which is
/// the one that `first_match` names.
pub proof fn lemma_first_match_exists(
    buffer: Seq<u8>,
    pattern: Seq<u8>,
    mask: Seq<bool>,
    witness: int,
)
    requires
        matches_at(buffer, witness, pattern, mask),
    ensures
        first_match(buffer, pattern, mask) matches Some(offset) && offset <= witness
            && is_first_match(buffer, offset, pattern, mask),
{
    let lowest = lowest_match(buffer, pattern, mask, 0, witness);
    lemma_first_match_unique(buffer, lowest, pattern, mask);
}

/// The lowest occurrence at or after `from`, given one at `witness`.
proof fn lowest_match(
    buffer: Seq<u8>,
    pattern: Seq<u8>,
    mask: Seq<bool>,
    from: int,
    witness: int,
) -> (lowest: int)
    requires
        0 <= from <= witness,
        matches_at(buffer, witness, pattern, mask),
        forall|k: int| k < from ==> !matches_at(buffer, k, pattern, mask),
    ensures
        lowest <= witness,
        is_first_match(buffer, lowest, pattern, mask),
    decreases witness - from,
{
    if matches_at(buffer, from, pattern, mask) {
        from
    } else {
        lowest_match(buffer, pattern, mask, from + 1, witness)
    }
}

/// An occurrence lies inside its region: the region is readable, and the
/// pattern fits between the address found and the end of the region.
pub proof fn lemma_region_match_bounds(
    region: MemoryRegion,
    transfer: Option<Seq<u8>>,
    pattern: Seq<u8>,
    mask: Seq<bool>,
)
    requires
        region.end() <= usize::MAX,
    ensures
        region_match(region, transfer, pattern, mask) is Some ==> region.is_readable,
        region_match(region, transfer, pattern, mask) matches Some(address)
            ==> region.start_address <= address && address + pattern.len() <= region.end(),
        region_match(region, transfer, pattern, mask) matches Some(address) ==> is_first_match(
            transfer->Some_0,
            address - region.start_address,
            pattern,
            mask,
        ),
{
    if region.is_readable && read_in_full(region, transfer) {
        let buffer = transfer->Some_0;
        if exists|i: int| matches_at(buffer, i, pattern, mask) {
            let witness = choose|i: int| matches_at(buffer, i, pattern, mask);
            lemma_first_match_exists(buffer, pattern, mask, witness);
        }
    }
}

/// Searches one region for the pattern, given the bytes that reading the
/// region copied, or `None` where the system rejected the read.
///
/// The region is searched only if it is readable and was copied in full;
/// offsets are tried in ascending order, and the address of the first
/// occurrence is returned. A region shorter than the pattern is passed
/// over without a comparison.
pub fn search_region(
    region: &MemoryRegion,
    transfer: Option<&[u8]>,
    pattern: &[u8],
    mask: &[bool],
) -> (found: Option<usize>)
    requires
        region.end() <= usize::MAX,
        pattern.len() == mask.len(),
    ensures
        found == region_match(*region, transfer_view(transfer), pattern@, mask@),
{
    if !region.is_readable {
        return None;
    }
    match transfer {
        Some(bytes) => {
            if bytes.len() != region.size {
                return None;
            }
            match find_in_buffer(bytes, pattern, mask) {
                Some(offset) => Some(region.start_address + offset),
                None => None,
            }
        },
        None => None,
    }
}

/// Searching from `from` is searching from `to` where no region in between
/// has an occurrence.
pub proof fn lemma_search_reaches(
    regions: Seq<MemoryRegion>,
    transfers: Seq<Option<Seq<u8>>>,
    pattern: Seq<u8>,
    mask: Seq<bool>,
    from: int,
    to: int,
)
    requires
        0 <= from <= to <= regions.len(),
        forall|i: int|
            from <= i < to ==> region_match(regions[i], transfers[i], pattern, mask) is None,
    ensures
        search_from(regions, transfers, from, pattern, mask) == search_from(
            regions,
            transfers,
            to,
            pattern,
            mask,
        ),
    decreases to - from,
{
    if from < to {
        lemma_search_reaches(regions, transfers, pattern, mask, from + 1, to);
    }
}

/// The search is first-match: its result is the occurrence in region
/// `index` exactly where no earlier region has one.
pub proof fn lemma_search_finds_first(
    regions: Seq<MemoryRegion>,
    transfers: Seq<Option<Seq<u8>>>,
    pattern: Seq<u8>,
    mask: Seq<bool>,
    index: int,
)
    requires
        0 <= index < regions.len(),
        forall|i: int|
            0 <= i < index ==> region_match(regions[i], transfers[i], pattern, mask) is None,
        region_match(regions[index], transfers[index], pattern, mask) is Some,
    ensures
        search_result(regions, transfers, pattern, mask) == region_match(
            regions[index],
            transfers[index],
            pattern,
            mask,
        ),
{
    lemma_search_reaches(regions, transfers, pattern, mask, 0, index);
}

/// With a mask that marks every position as significant, the search is an
/// exact substring search: the pattern occurs at an offset exactly where
/// the buffer holds the pattern's bytes from that offset on.
pub proof fn lemma_exact_search(buffer: Seq<u8>, offset: int, pattern: Seq<u8>, mask: Seq<bool>)
    requires
        pattern.len() == mask.len(),
        all_significant(mask),
    ensures
        matches_at(buffer, offset, pattern, mask) <==> 0 <= offset && offset + pattern.len()
            <= buffer.len() && buffer.subrange(offset, offset + pattern.len()) == pattern,
{
    if 0 <= offset && offset + pattern.len() <= buffer.len() {
        let window = buffer.subrange(offset, offset + pattern.len());
        if matches_at(buffer, offset, pattern, mask) {
            assert(window =~= pattern);
        }
        if window == pattern {
            assert forall|j: int| 0 <= j < pattern.len() && mask[j] implies buffer[offset + j]
                == pattern[j] by {
                assert(window[j] == buffer[offset + j]);
            }
        }
    }
}

/// With a mask that marks every position as a wildcard, the pattern occurs
/// wherever it fits, so its first occurrence in a buffer that it fits in
/// is at offset 0.
pub proof fn lemma_wildcard_search(buffer: Seq<u8>, pattern: Seq<u8>, mask: Seq<bool>)
    requires
        pattern.len() == mask.len(),
        all_wildcards(mask),
    ensures
        forall|offset: int|
            matches_at(buffer, offset, pattern, mask) <==> 0 <= offset && offset + pattern.len()
                <= buffer.len(),
        pattern.len() <= buffer.len() ==> first_match(buffer, pattern, mask) == Some(0int),
        pattern.len() > buffer.len() ==> first_match(buffer, pattern, mask) is None,
{
    if pattern.len() <= buffer.len() {
        assert(matches_at(buffer, 0, pattern, mask));
        lemma_first_match_unique(buffer, 0, pattern, mask);
    }
}

/// With a mask that marks every position as a wildcard, the search returns
/// the start address of the first readable region, provided that the read
/// of that region copied it in full and the pattern is no longer than it.
pub proof fn lemma_wildcard_finds_first_readable(
    regions: Seq<MemoryRegion>,
    transfers: Seq<Option<Seq<u8>>>,
    pattern: Seq<u8>,
    mask: Seq<bool>,
    first: int,
)
    requires
        pattern.len() == mask.len(),
        all_wildcards(mask),
        0 <= first < regions.len(),
        regions[first].is_readable,
        forall|i: int| 0 <= i < first ==> !regions[i].is_readable,
        read_in_full(regions[first], transfers[first]),
        pattern.len() <= regions[first].size,
    ensures
        search_result(regions, transfers, pattern, mask) == Some(regions[first].start_address),
{
    lemma_wildcard_search(transfers[first]->Some_0, pattern, mask);
    lemma_search_reaches(regions, transfers, pattern, mask, 0, first);
}

/// A region that is shorter than the pattern never matches, whatever its
/// read returned.
pub proof fn lemma_short_region_never_matches(
    region: MemoryRegion,
    transfer: Option<Seq<u8>>,
    pattern: Seq<u8>,
    mask: Seq<bool>,
)
    requires
        region.size < pattern.len(),
    ensures
        region_match(region, transfer, pattern, mask) is None,
{
}

/// In a catalog without a readable region the search finds nothing.
pub proof fn lemma_no_readable_region(
    regions: Seq<MemoryRegion>,
    transfers: Seq<Option<Seq<u8>>>,
    pattern: Seq<u8>,
    mask: Seq<bool>,
)
    requires
        forall|i: int| 0 <= i < regions.len() ==> !regions[i].is_readable,
    ensures
        search_result(regions, transfers, pattern, mask) is None,
{
    lemma_search_reaches(regions, transfers, pattern, mask, 0, regions.len() as int);
}

} // verus!

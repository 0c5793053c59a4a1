use process_memory::matcher::{find_in_buffer, search_region};
use process_memory::region::MemoryRegion;

fn readable(start_address: usize, size: usize) -> MemoryRegion {
    MemoryRegion {
        start_address,
        size,
        is_readable: true,
        is_writable: true,
        is_executable: false,
        protection: 0x04,
    }
}

fn unreadable(start_address: usize, size: usize) -> MemoryRegion {
    MemoryRegion {
        start_address,
        size,
        is_readable: false,
        is_writable: false,
        is_executable: false,
        protection: 0x01,
    }
}

#[test]
fn exact_pattern_is_found_at_its_offset() {
    let buffer = [0x00u8, 0x90, 0x90, 0x90, 0x01];
    let pattern = [0x90u8, 0x90, 0x90];
    let mask = [true, true, true];
    assert_eq!(find_in_buffer(&buffer, &pattern, &mask), Some(1));
}

#[test]
fn exact_pattern_that_is_absent_is_not_found() {
    let buffer = [0x00u8, 0x90, 0x91, 0x90, 0x01];
    let pattern = [0x90u8, 0x90];
    let mask = [true, true];
    assert_eq!(find_in_buffer(&buffer, &pattern, &mask), None);
}

#[test]
fn first_of_several_occurrences_wins() {
    let buffer = [7u8, 1, 2, 7, 1, 2, 7];
    let pattern = [1u8, 2];
    let mask = [true, true];
    assert_eq!(find_in_buffer(&buffer, &pattern, &mask), Some(1));
}

#[test]
fn occurrence_at_the_last_offset_is_found() {
    let buffer = [0u8, 0, 0, 5, 6];
    let pattern = [5u8, 6];
    let mask = [true, true];
    assert_eq!(find_in_buffer(&buffer, &pattern, &mask), Some(3));
}

#[test]
fn pattern_as_long_as_the_buffer_matches_at_zero() {
    let buffer = [9u8, 8, 7];
    let pattern = [9u8, 8, 7];
    let mask = [true, true, true];
    assert_eq!(find_in_buffer(&buffer, &pattern, &mask), Some(0));
}

#[test]
fn pattern_longer_than_the_buffer_is_not_found() {
    let buffer = [0x90u8, 0x90];
    let pattern = [0x90u8, 0x90, 0x90];
    let mask = [true, true, true];
    assert_eq!(find_in_buffer(&buffer, &pattern, &mask), None);
    let wild = [false, false, false];
    assert_eq!(find_in_buffer(&buffer, &pattern, &wild), None);
}

#[test]
fn wildcard_positions_accept_any_byte() {
    let buffer = [0x10u8, 0xAA, 0x55, 0xBB, 0x00];
    let pattern = [0xAAu8, 0x00, 0xBB];
    let mask = [true, false, true];
    assert_eq!(find_in_buffer(&buffer, &pattern, &mask), Some(1));
    let strict = [true, true, true];
    assert_eq!(find_in_buffer(&buffer, &pattern, &strict), None);
}

#[test]
fn all_wildcards_match_at_offset_zero() {
    let buffer = [1u8, 2, 3, 4];
    let pattern = [0xFFu8, 0xFF];
    let mask = [false, false];
    assert_eq!(find_in_buffer(&buffer, &pattern, &mask), Some(0));
}

#[test]
fn empty_pattern_matches_at_offset_zero() {
    let buffer = [1u8, 2, 3];
    let pattern: [u8; 0] = [];
    let mask: [bool; 0] = [];
    assert_eq!(find_in_buffer(&buffer, &pattern, &mask), Some(0));
    let empty: [u8; 0] = [];
    assert_eq!(find_in_buffer(&empty, &pattern, &mask), Some(0));
}

#[test]
fn empty_buffer_holds_no_pattern() {
    let buffer: [u8; 0] = [];
    let pattern = [1u8];
    let mask = [true];
    assert_eq!(find_in_buffer(&buffer, &pattern, &mask), None);
}

#[test]
fn region_match_is_reported_as_an_absolute_address() {
    let region = readable(0x4000, 5);
    let bytes = [0x00u8, 0x90, 0x90, 0x90, 0x01];
    let pattern = [0x90u8, 0x90, 0x90];
    let mask = [true, true, true];
    assert_eq!(search_region(&region, Some(&bytes), &pattern, &mask), Some(0x4001));
}

#[test]
fn unreadable_region_is_passed_over() {
    let region = unreadable(0x4000, 5);
    let bytes = [0x00u8, 0x90, 0x90, 0x90, 0x01];
    let pattern = [0x90u8, 0x90, 0x90];
    let mask = [true, true, true];
    assert_eq!(search_region(&region, Some(&bytes), &pattern, &mask), None);
}

#[test]
fn rejected_read_passes_the_region_over() {
    let region = readable(0x4000, 5);
    let pattern = [0x90u8];
    let mask = [false];
    assert_eq!(search_region(&region, None, &pattern, &mask), None);
}

#[test]
fn short_read_passes_the_region_over() {
    let region = readable(0x4000, 5);
    let bytes = [0x90u8, 0x90, 0x90, 0x90];
    let pattern = [0x90u8, 0x90];
    let mask = [true, true];
    assert_eq!(search_region(&region, Some(&bytes), &pattern, &mask), None);
}

#[test]
fn region_shorter_than_the_pattern_never_matches() {
    let region = readable(0x4000, 2);
    let bytes = [0x90u8, 0x90];
    let pattern = [0x90u8, 0x90, 0x90];
    let wild = [false, false, false];
    assert_eq!(search_region(&region, Some(&bytes), &pattern, &wild), None);
    let strict = [true, true, true];
    assert_eq!(search_region(&region, Some(&bytes), &pattern, &strict), None);
}

#[test]
fn wildcard_pattern_matches_at_the_start_of_the_region() {
    let region = readable(0x7000, 4);
    let bytes = [1u8, 2, 3, 4];
    let pattern = [0u8, 0];
    let mask = [false, false];
    assert_eq!(search_region(&region, Some(&bytes), &pattern, &mask), Some(0x7000));
}

#[test]
fn match_at_the_top_of_the_address_space_does_not_wrap() {
    let region = readable(usize::MAX - 4, 4);
    let bytes = [0u8, 0, 0, 9];
    let pattern = [9u8];
    let mask = [true];
    assert_eq!(search_region(&region, Some(&bytes), &pattern, &mask), Some(usize::MAX - 1));
}

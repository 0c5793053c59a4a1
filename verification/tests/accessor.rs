use process_memory::accessor::{read_value, write_status};
use process_memory::error::MemoryError;
use process_memory::plain_data::PlainData;

#[test]
fn sizes_are_the_widths_of_the_types() {
    assert_eq!(<u8 as PlainData>::size(), 1);
    assert_eq!(<u16 as PlainData>::size(), 2);
    assert_eq!(<u32 as PlainData>::size(), 4);
    assert_eq!(<u64 as PlainData>::size(), 8);
    assert_eq!(<i8 as PlainData>::size(), 1);
    assert_eq!(<i16 as PlainData>::size(), 2);
    assert_eq!(<i32 as PlainData>::size(), 4);
    assert_eq!(<i64 as PlainData>::size(), 8);
}

#[test]
fn unsigned_values_are_laid_out_least_significant_byte_first() {
    assert_eq!(0xABu8.encode(), vec![0xAB]);
    assert_eq!(0x1234u16.encode(), vec![0x34, 0x12]);
    assert_eq!(0x1234_5678u32.encode(), vec![0x78, 0x56, 0x34, 0x12]);
    assert_eq!(
        0x0102_0304_0506_0708u64.encode(),
        vec![0x08, 0x07, 0x06, 0x05, 0x04, 0x03, 0x02, 0x01]
    );
}

#[test]
fn layout_agrees_with_the_standard_little_endian_form() {
    assert_eq!(0xBEEFu16.encode(), 0xBEEFu16.to_le_bytes().to_vec());
    assert_eq!(0xDEAD_BEEFu32.encode(), 0xDEAD_BEEFu32.to_le_bytes().to_vec());
    assert_eq!(u64::MAX.encode(), u64::MAX.to_le_bytes().to_vec());
    assert_eq!((-2i16).encode(), (-2i16).to_le_bytes().to_vec());
    assert_eq!(i32::MIN.encode(), i32::MIN.to_le_bytes().to_vec());
    assert_eq!((-123_456_789_012i64).encode(), (-123_456_789_012i64).to_le_bytes().to_vec());
}

#[test]
fn signed_values_are_laid_out_in_twos_complement() {
    assert_eq!((-1i8).encode(), vec![0xFF]);
    assert_eq!(i8::MIN.encode(), vec![0x80]);
    assert_eq!((-2i16).encode(), vec![0xFE, 0xFF]);
    assert_eq!((-1i32).encode(), vec![0xFF, 0xFF, 0xFF, 0xFF]);
    assert_eq!(i32::MIN.encode(), vec![0x00, 0x00, 0x00, 0x80]);
    assert_eq!(i64::MIN.encode(), vec![0, 0, 0, 0, 0, 0, 0, 0x80]);
    assert_eq!(1i64.encode(), vec![1, 0, 0, 0, 0, 0, 0, 0]);
}

#[test]
fn bytes_are_read_back_as_the_value_they_hold() {
    assert_eq!(<u8 as PlainData>::decode(&[0xAB]), 0xAB);
    assert_eq!(<u16 as PlainData>::decode(&[0x34, 0x12]), 0x1234);
    assert_eq!(<u32 as PlainData>::decode(&[0x78, 0x56, 0x34, 0x12]), 0x1234_5678);
    assert_eq!(<u64 as PlainData>::decode(&[0xFF; 8]), u64::MAX);
    assert_eq!(<i8 as PlainData>::decode(&[0x80]), i8::MIN);
    assert_eq!(<i16 as PlainData>::decode(&[0xFE, 0xFF]), -2);
    assert_eq!(<i32 as PlainData>::decode(&[0xFF, 0xFF, 0xFF, 0x7F]), i32::MAX);
    assert_eq!(<i64 as PlainData>::decode(&[0xFF; 8]), -1);
}

#[test]
fn every_byte_is_a_value_and_back() {
    for byte in 0..=255u8 {
        assert_eq!(<u8 as PlainData>::decode(&[byte]).encode(), vec![byte]);
        assert_eq!(<i8 as PlainData>::decode(&[byte]).encode(), vec![byte]);
        assert_eq!(<i16 as PlainData>::decode(&[byte, byte ^ 0x5A]).encode(), vec![byte, byte ^ 0x5A]);
    }
}

#[test]
fn values_survive_the_round_trip() {
    for value in [0u32, 1, 0x7FFF_FFFF, 0x8000_0000, 0xDEAD_BEEF, u32::MAX] {
        assert_eq!(<u32 as PlainData>::decode(&value.encode()), value);
    }
    for value in [i64::MIN, -1, 0, 1, 0x1234_5678_9ABC, i64::MAX] {
        assert_eq!(<i64 as PlainData>::decode(&value.encode()), value);
    }
    for value in [i16::MIN, -300, -1, 0, 1, 300, i16::MAX] {
        assert_eq!(<i16 as PlainData>::decode(&value.encode()), value);
    }
}

#[test]
fn full_transfer_yields_the_value() {
    let bytes = [0x78u8, 0x56, 0x34, 0x12];
    assert_eq!(read_value::<u32>(Some(&bytes)), Ok(0x1234_5678));
    assert_eq!(read_value::<i32>(Some(&[0xFE, 0xFF, 0xFF, 0xFF])), Ok(-2));
}

#[test]
fn longer_transfer_yields_the_value_of_its_first_bytes() {
    let bytes = [0x34u8, 0x12, 0xAA, 0xBB];
    assert_eq!(read_value::<u16>(Some(&bytes)), Ok(0x1234));
}

#[test]
fn short_transfer_is_a_read_failure() {
    let bytes = [0x78u8, 0x56, 0x34];
    assert_eq!(read_value::<u32>(Some(&bytes)), Err(MemoryError::ReadFailed));
    assert_eq!(read_value::<u64>(Some(&[0u8; 7])), Err(MemoryError::ReadFailed));
    assert_eq!(read_value::<u8>(Some(&[])), Err(MemoryError::ReadFailed));
}

#[test]
fn rejected_transfer_is_a_read_failure() {
    assert_eq!(read_value::<u32>(None), Err(MemoryError::ReadFailed));
}

#[test]
fn full_write_succeeds() {
    assert_eq!(write_status(4, Some(4)), Ok(()));
    assert_eq!(write_status(0, Some(0)), Ok(()));
}

#[test]
fn short_write_is_a_write_failure() {
    assert_eq!(write_status(4, Some(3)), Err(MemoryError::WriteFailed));
    assert_eq!(write_status(8, Some(0)), Err(MemoryError::WriteFailed));
}

#[test]
fn rejected_write_is_a_write_failure() {
    assert_eq!(write_status(4, None), Err(MemoryError::WriteFailed));
}

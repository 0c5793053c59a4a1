//! Typed access: what a transfer of a value's bytes yields.

use vstd::prelude::*;
use crate::error::MemoryError;
use crate::plain_data::PlainData;

verus! {

/// The bytes that a read transfer copied, or `None` where it was rejected.
pub open spec fn transfer_view(transfer: Option<&[u8]>) -> Option<Seq<u8>> {
    match transfer {
        Some(bytes) => Some(bytes@),
        None => None,
    }
}

/// What a read of a `T` yields: the value that the first `T::width()` bytes
/// hold where at least that many were copied; a failure where the transfer
/// was rejected or fell short.
pub open spec fn read_result<T: PlainData>(transfer: Option<Seq<u8>>) -> Result<T, MemoryError> {
    match transfer {
        Some(bytes) if bytes.len() >= T::width() => Ok(
            T::from_bytes(bytes.subrange(0, T::width() as int)),
        ),
        _ => Err(MemoryError::ReadFailed),
    }
}

/// What a write of `requested` bytes comes to: success where at least that
/// many were stored; a failure where the transfer was rejected or fell short.
pub open spec fn write_result(requested: nat, written: Option<usize>) -> Result<(), MemoryError> {
    match written {
        Some(count) if count >= requested => Ok(()),
        _ => Err(MemoryError::WriteFailed),
    }
}

/// The value that a read of a `T` yields, given the bytes that the
/// transfer copied, or `None` where the system rejected it.
///
/// The value is the one that the first `T::width()` bytes hold. A transfer
/// that copied fewer bytes is a failure: no value is ever made up from a
/// part of its bytes.
pub fn read_value<T: PlainData>(transfer: Option<&[u8]>) -> (value: Result<T, MemoryError>)
    ensures
        value == read_result::<T>(transfer_view(transfer)),
{
    match transfer {
        Some(bytes) => {
            let size = T::size();
            if bytes.len() >= size {
                Ok(T::decode(vstd::slice::slice_subrange(bytes, 0, size)))
            } else {
                Err(MemoryError::ReadFailed)
            }
        },
        None => Err(MemoryError::ReadFailed),
    }
}

/// Whether a write of `requested` bytes succeeded, given the number of
/// bytes that the transfer stored, or `None` where the system rejected it.
///
/// A transfer that stored fewer bytes than requested is a failure. Nothing
/// is rolled back: after a failed write the contents of the target's memory
/// at the address are undefined.
pub fn write_status(requested: usize, written: Option<usize>) -> (status: Result<(), MemoryError>)
    ensures
        status == write_result(requested as nat, written),
{
    match written {
        Some(count) => {
            if count >= requested {
                Ok(())
            } else {
                Err(MemoryError::WriteFailed)
            }
        },
        None => Err(MemoryError::WriteFailed),
    }
}

/// A value that was written is read back unchanged: a read that copies the
/// bytes which a write of `value` stored yields `value`, bit for bit.
pub proof fn lemma_write_then_read<T: PlainData>(value: T, copied: Seq<u8>)
    requires
        copied.len() >= T::width(),
        copied.subrange(0, T::width() as int) == value.to_bytes(),
    ensures
        read_result::<T>(Some(copied)) == Ok::<T, MemoryError>(value),
{
    T::lemma_round_trip(value);
}

} // verus!

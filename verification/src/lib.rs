//! Verified core of a process-memory inspector.
//!
//! The library catalogs the committed regions of a target process, reads
//! and writes typed values in its memory, and searches its readable
//! regions for a masked byte pattern. It never talks to the operating
//! system itself: the caller passes in the function that carries out each
//! service, and every rule is proved for whatever that function returns.
//!
//! * [`memory`] holds the owner of a target: handle, catalog, operations.
//! * [`handle`] holds the life cycle of the native handle.
//! * [`region`] holds regions, descriptors and protection codes.
//! * [`scanner`] holds one pass over the address space, answer by answer.
//! * [`accessor`] and [`plain_data`] hold typed values and their layout.
//! * [`matcher`] holds masked pattern matching.
//! * [`error`] holds the failures.

pub mod accessor;
pub mod error;
pub mod handle;
pub mod matcher;
pub mod memory;
pub mod plain_data;
pub mod region;
pub mod scanner;

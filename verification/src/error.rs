//! The failures that the store reports, by kind.
use vstd::prelude::*;

verus! {

/// What went wrong, by kind.
#[derive(Clone, Copy, Debug, PartialEq, Eq)]
pub enum KvError {
    /// A logical offset or byte position that the log does not know.
    NotFound,
    /// A message that the receiving role does not handle.
    InvalidInput,
    /// Bytes that do not hold what they should (a bad checksum, an undecodable entry).
    InvalidData,
    /// A frame that the log's bytes end in the middle of.
    UnexpectedEof,
}

} // verus!

//! What can go wrong, by kind.

use vstd::prelude::*;

verus! {

/// The kinds of failure that an operation on the store can end in.
#[derive(Clone, Copy, Debug, PartialEq, Eq, Structural)]
pub enum Fault {
    /// The backing file could not be created or opened.
    OpenFailed,
    /// The shared lock that reading needs was not granted.
    ReadLockFailed,
    /// The exclusive lock that writing needs was not granted.
    WriteLockFailed,
    /// The lock could not be given back.
    UnlockFailed,
    /// The file could not be rewound to its start.
    SeekFailed,
    /// The content of the file could not be read.
    ReadFailed,
    /// The snapshot could not be written out.
    WriteFailed,
    /// What was written could not be forced to durable storage.
    FlushFailed,
    /// The table in memory could not be laid out as bytes.
    EncodeFailed,
    /// The file holds bytes, and they are no snapshot of a table of this
    /// key and value type.
    DecodeFailed,
}

/// A failure, and whether it came after every permitted attempt was used up
/// or at once, from a condition that waiting would not change.
#[derive(Clone, Copy, Debug, PartialEq, Eq, Structural)]
pub struct Error {
    pub kind: Fault,
    pub exhausted: bool,
}

} // verus!

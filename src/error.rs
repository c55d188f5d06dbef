use vstd::prelude::*;

verus! {

/// Why an operation of the filesystem failed.
#[derive(Clone, Copy, Debug, PartialEq, Eq, Structural)]
pub enum FsError {
    /// The medium could not satisfy a read or accept a write in full.
    IoError,
    /// A referenced inode or name does not resolve in the tree.
    NotFound,
    /// An operation that needs a directory was given something else.
    NotADirectory,
    /// A record failed to decode, or the superblock's format marker mismatched.
    CorruptionError,
    /// The allocator's inode or address counter would overflow.
    NoSpace,
}

} // verus!

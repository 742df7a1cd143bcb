//! Read access to GameCube and Wii optical disc images: format detection from
//! the shared disc header, partition lookup, sector decryption and hash
//! verification for Wii images, and parsing of the embedded file system table.

pub mod crypto;
pub mod disc;
pub mod fst;
pub mod header;
pub mod sector;
pub mod stream;
pub mod util;

use vstd::prelude::*;

verus! {

/// The reason a disc image was rejected as malformed.
#[derive(Clone, Copy, Debug, PartialEq, Eq, Structural)]
pub enum DiscFormatReason {
    /// Neither the Wii nor the GameCube magic value is present in the header.
    BadMagic,
    /// No partition of the data type exists in any partition table.
    NoDataPartition,
    /// A partition table announces more than four entries.
    OversizedPartitionTable,
    /// A ticket selects a common key index that does not exist.
    BadCommonKeyIndex,
    /// The file system table is shorter than its own node records require.
    FstTruncated,
    /// A node record carries a tag that is neither a file nor a directory.
    FstBadNodeKind,
    /// A node name offset runs past the string table, or the name lacks
    /// a terminator.
    FstBadNameOffset,
    /// A directory's end index does not exceed its own index, or exceeds
    /// the node count.
    FstBadIndices,
}

/// Which level of the per-sector hash tree failed to verify.
#[derive(Clone, Copy, Debug, PartialEq, Eq, Structural)]
pub enum HashLevel {
    H0,
    H1,
    H2,
}

/// Errors reported by this library.
#[derive(Clone, Copy, Debug, PartialEq, Eq, Structural)]
pub enum Error {
    /// A read ran past the end of the image: the image is truncated.
    Io,
    /// The image violates the disc format.
    DiscFormat(DiscFormatReason),
    /// With hash validation enabled, the named sector failed at the named
    /// hash-tree level.
    Verification(u64, HashLevel),
}

} // verus!

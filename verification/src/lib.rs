//! A verified reader for the ext2 on-disk format.
//!
//! The library decodes a raw filesystem image held in memory: the superblock,
//! the block-group descriptor table, inode records, directory entries, and
//! file contents reached through direct and multi-level indirect block
//! pointers. Every field is read at an explicit byte offset in little-endian
//! order, so the decoding is independent of any host struct layout.

use vstd::prelude::*;

pub mod decode;
pub mod structs;
pub mod ext2;

verus! {

/// A typed failure of decoding or traversal. The library never panics and
/// never substitutes default data: every bounds or format violation is
/// reported through one of these.
#[derive(Clone, Copy, Debug, PartialEq, Eq, Structural)]
pub enum Ext2Error {
    /// The superblock's magic signature is wrong, or a superblock field is
    /// outside the range the reader supports.
    InvalidFilesystem,
    /// The buffer holds fewer bytes than a required structure needs.
    TruncatedBuffer,
    /// A block number points outside the image's addressable blocks.
    BlockOutOfRange,
    /// An inode number resolves to a block group past the descriptor table.
    InvalidInode,
    /// A directory operation was applied to an inode that is not a directory.
    NotADirectory,
    /// A name was looked up and no entry carries it.
    NotFound,
}

} // verus!

//! The fixed on-disk records of the ext2 format, decoded field by field.
//!
//! Each record type carries a `decode` function that reads every field at its
//! documented byte offset in little-endian order, together with a spec
//! predicate stating exactly which bytes each field came from. Reserved and
//! OS-specific byte ranges are skipped rather than stored.

use vstd::prelude::*;
use crate::decode::{le16, le32, read_le_u16, read_le_u32, read_bytes};
use crate::Ext2Error;

verus! {

/// Byte length of the superblock schema.
pub const SUPERBLOCK_SIZE: usize = 236;

/// Byte length of one block-group descriptor record.
pub const BLOCK_GROUP_DESCRIPTOR_SIZE: usize = 32;

/// Byte length of one inode record (the classic fixed layout).
pub const INODE_SIZE: usize = 128;

/// The filesystem-wide metadata record, stored at byte offset 1024 of the
/// image and parsed once at load.
#[derive(Clone, Debug)]
pub struct Superblock {
    /// Total number of inodes in the file system
    pub inodes_count: u32,
    /// Total number of blocks in the file system
    pub blocks_count: u32,
    /// Number of blocks reserved for the superuser
    pub r_blocks_count: u32,
    /// Total number of unallocated blocks
    pub free_blocks_count: u32,
    /// Total number of unallocated inodes
    pub free_inodes_count: u32,
    /// Block number of the block containing the superblock
    pub first_data_block: u32,
    /// log2(block size) - 10: the number to shift 1024 left by to obtain
    /// the block size
    pub log_block_size: u32,
    /// log2(fragment size) - 10, as the raw on-disk bits
    pub log_frag_size: u32,
    /// Number of blocks in each block group
    pub blocks_per_group: u32,
    /// Number of fragments in each block group
    pub frags_per_group: u32,
    /// Number of inodes in each block group
    pub inodes_per_group: u32,
    /// Last mount time (POSIX time)
    pub mtime: u32,
    /// Last written time (POSIX time)
    pub wtime: u32,
    /// Mounts since the last consistency check
    pub mnt_count: u16,
    /// Mounts allowed before a consistency check, as the raw on-disk bits
    pub max_mnt_count: u16,
    /// Signature (0xEF53) confirming the format
    pub magic: u16,
    /// File system state
    pub state: u16,
    /// What to do when an error is detected
    pub errors: u16,
    /// Minor portion of the version
    pub rev_minor: u16,
    /// POSIX time of the last consistency check
    pub lastcheck: u32,
    /// Interval between forced consistency checks
    pub checkinterval: u32,
    /// Operating system ID the volume was created from
    pub creator_os: u32,
    /// Major portion of the version
    pub rev_major: u32,
    /// User ID that can use reserved blocks
    pub block_uid: u16,
    /// Group ID that can use reserved blocks
    pub block_gid: u16,
    /// First non-reserved inode
    pub first_inode: u32,
    /// Size of each inode structure in bytes
    pub inode_size: u16,
    /// Block group holding this superblock (if a backup copy)
    pub block_group: u16,
    /// Optional features present
    pub features_opt: u32,
    /// Required features present
    pub features_req: u32,
    /// Features that force a read-only mount when unsupported
    pub features_ronly: u32,
    /// File system ID (16 bytes)
    pub fs_id: Vec<u8>,
    /// Volume name (16 bytes, NUL-terminated)
    pub volume_name: Vec<u8>,
    /// Path the volume was last mounted to (64 bytes, NUL-terminated)
    pub last_mnt_path: Vec<u8>,
    /// Compression algorithms used
    pub compression: u32,
    /// Blocks to preallocate for files
    pub prealloc_blocks_files: u8,
    /// Blocks to preallocate for directories
    pub prealloc_blocks_dirs: u8,
    /// Journal ID (16 bytes)
    pub journal_id: Vec<u8>,
    /// Journal inode
    pub journal_inode: u32,
    /// Journal device
    pub journal_dev: u32,
    /// Head of the orphan inode list
    pub journal_orphan_head: u32,
}

/// Every field of `sb` equals the little-endian decoding of its documented
/// byte range inside the superblock window `s` (`s` is the 236 bytes starting
/// at the superblock's base offset).
pub open spec fn superblock_matches(sb: Superblock, s: Seq<u8>) -> bool {
    &&& sb.inodes_count == le32(s, 0)
    &&& sb.blocks_count == le32(s, 4)
    &&& sb.r_blocks_count == le32(s, 8)
    &&& sb.free_blocks_count == le32(s, 12)
    &&& sb.free_inodes_count == le32(s, 16)
    &&& sb.first_data_block == le32(s, 20)
    &&& sb.log_block_size == le32(s, 24)
    &&& sb.log_frag_size == le32(s, 28)
    &&& sb.blocks_per_group == le32(s, 32)
    &&& sb.frags_per_group == le32(s, 36)
    &&& sb.inodes_per_group == le32(s, 40)
    &&& sb.mtime == le32(s, 44)
    &&& sb.wtime == le32(s, 48)
    &&& sb.mnt_count == le16(s, 52)
    &&& sb.max_mnt_count == le16(s, 54)
    &&& sb.magic == le16(s, 56)
    &&& sb.state == le16(s, 58)
    &&& sb.errors == le16(s, 60)
    &&& sb.rev_minor == le16(s, 62)
    &&& sb.lastcheck == le32(s, 64)
    &&& sb.checkinterval == le32(s, 68)
    &&& sb.creator_os == le32(s, 72)
    &&& sb.rev_major == le32(s, 76)
    &&& sb.block_uid == le16(s, 80)
    &&& sb.block_gid == le16(s, 82)
    &&& sb.first_inode == le32(s, 84)
    &&& sb.inode_size == le16(s, 88)
    &&& sb.block_group == le16(s, 90)
    &&& sb.features_opt == le32(s, 92)
    &&& sb.features_req == le32(s, 96)
    &&& sb.features_ronly == le32(s, 100)
    &&& sb.fs_id@ == s.subrange(104, 120)
    &&& sb.volume_name@ == s.subrange(120, 136)
    &&& sb.last_mnt_path@ == s.subrange(136, 200)
    &&& sb.compression == le32(s, 200)
    &&& sb.prealloc_blocks_files == s[204]
    &&& sb.prealloc_blocks_dirs == s[205]
    &&& sb.journal_id@ == s.subrange(208, 224)
    &&& sb.journal_inode == le32(s, 224)
    &&& sb.journal_dev == le32(s, 228)
    &&& sb.journal_orphan_head == le32(s, 232)
}

impl Superblock {
    /// Decodes the superblock schema at byte offset `off` of `data`.
    /// Succeeds exactly when the buffer holds the full 236-byte schema.
    pub fn decode(data: &[u8], off: usize) -> (r: Result<Superblock, Ext2Error>)
        ensures
            match r {
                Ok(sb) => off + SUPERBLOCK_SIZE <= data@.len() && superblock_matches(
                    sb,
                    data@.subrange(off as int, off + SUPERBLOCK_SIZE),
                ),
                Err(e) => e == Ext2Error::TruncatedBuffer && off + SUPERBLOCK_SIZE > data@.len(),
            },
    {
        if data.len() < SUPERBLOCK_SIZE || off > data.len() - SUPERBLOCK_SIZE {
            return Err(Ext2Error::TruncatedBuffer);
        }
        let ghost s = data@.subrange(off as int, off + SUPERBLOCK_SIZE);
        let sb = Superblock {
            inodes_count: read_le_u32(data, off),
            blocks_count: read_le_u32(data, off + 4),
            r_blocks_count: read_le_u32(data, off + 8),
            free_blocks_count: read_le_u32(data, off + 12),
            free_inodes_count: read_le_u32(data, off + 16),
            first_data_block: read_le_u32(data, off + 20),
            log_block_size: read_le_u32(data, off + 24),
            log_frag_size: read_le_u32(data, off + 28),
            blocks_per_group: read_le_u32(data, off + 32),
            frags_per_group: read_le_u32(data, off + 36),
            inodes_per_group: read_le_u32(data, off + 40),
            mtime: read_le_u32(data, off + 44),
            wtime: read_le_u32(data, off + 48),
            mnt_count: read_le_u16(data, off + 52),
            max_mnt_count: read_le_u16(data, off + 54),
            magic: read_le_u16(data, off + 56),
            state: read_le_u16(data, off + 58),
            errors: read_le_u16(data, off + 60),
            rev_minor: read_le_u16(data, off + 62),
            lastcheck: read_le_u32(data, off + 64),
            checkinterval: read_le_u32(data, off + 68),
            creator_os: read_le_u32(data, off + 72),
            rev_major: read_le_u32(data, off + 76),
            block_uid: read_le_u16(data, off + 80),
            block_gid: read_le_u16(data, off + 82),
            first_inode: read_le_u32(data, off + 84),
            inode_size: read_le_u16(data, off + 88),
            block_group: read_le_u16(data, off + 90),
            features_opt: read_le_u32(data, off + 92),
            features_req: read_le_u32(data, off + 96),
            features_ronly: read_le_u32(data, off + 100),
            fs_id: read_bytes(data, off + 104, 16),
            volume_name: read_bytes(data, off + 120, 16),
            last_mnt_path: read_bytes(data, off + 136, 64),
            compression: read_le_u32(data, off + 200),
            prealloc_blocks_files: data[off + 204],
            prealloc_blocks_dirs: data[off + 205],
            journal_id: read_bytes(data, off + 208, 16),
            journal_inode: read_le_u32(data, off + 224),
            journal_dev: read_le_u32(data, off + 228),
            journal_orphan_head: read_le_u32(data, off + 232),
        };
        proof {
            assert(sb.fs_id@ =~= s.subrange(104, 120));
            assert(sb.volume_name@ =~= s.subrange(120, 136));
            assert(sb.last_mnt_path@ =~= s.subrange(136, 200));
            assert(sb.journal_id@ =~= s.subrange(208, 224));
        }
        Ok(sb)
    }
}

/// Per-group metadata: the addresses of the group's bitmaps and inode table,
/// with its free and used counts. One 32-byte record per block group, read
/// directly following the superblock's containing block.
#[derive(Clone, Copy, Debug)]
pub struct BlockGroupDescriptor {
    /// Block address of the block usage bitmap
    pub block_usage_addr: u32,
    /// Block address of the inode usage bitmap
    pub inode_usage_addr: u32,
    /// Starting block address of the inode table
    pub inode_table_block: u32,
    /// Number of unallocated blocks in the group
    pub free_blocks_count: u16,
    /// Number of unallocated inodes in the group
    pub free_inodes_count: u16,
    /// Number of directories in the group
    pub dirs_count: u16,
}

/// Every field of `bg` equals the little-endian decoding of its byte range
/// inside the 32-byte descriptor window `s`.
pub open spec fn block_group_descriptor_matches(bg: BlockGroupDescriptor, s: Seq<u8>) -> bool {
    &&& bg.block_usage_addr == le32(s, 0)
    &&& bg.inode_usage_addr == le32(s, 4)
    &&& bg.inode_table_block == le32(s, 8)
    &&& bg.free_blocks_count == le16(s, 12)
    &&& bg.free_inodes_count == le16(s, 14)
    &&& bg.dirs_count == le16(s, 16)
}

impl BlockGroupDescriptor {
    /// Decodes one block-group descriptor at byte offset `off` of `data`.
    pub fn decode(data: &[u8], off: usize) -> (r: Result<BlockGroupDescriptor, Ext2Error>)
        ensures
            match r {
                Ok(bg) => off + BLOCK_GROUP_DESCRIPTOR_SIZE <= data@.len()
                    && block_group_descriptor_matches(
                    bg,
                    data@.subrange(off as int, off + BLOCK_GROUP_DESCRIPTOR_SIZE),
                ),
                Err(e) => e == Ext2Error::TruncatedBuffer && off + BLOCK_GROUP_DESCRIPTOR_SIZE
                    > data@.len(),
            },
    {
        if data.len() < BLOCK_GROUP_DESCRIPTOR_SIZE || off > data.len()
            - BLOCK_GROUP_DESCRIPTOR_SIZE {
            return Err(Ext2Error::TruncatedBuffer);
        }
        Ok(
            BlockGroupDescriptor {
                block_usage_addr: read_le_u32(data, off),
                inode_usage_addr: read_le_u32(data, off + 4),
                inode_table_block: read_le_u32(data, off + 8),
                free_blocks_count: read_le_u16(data, off + 12),
                free_inodes_count: read_le_u16(data, off + 14),
                dirs_count: read_le_u16(data, off + 16),
            },
        )
    }
}

/// The shared 16-bit type-and-permission field of an inode. The type lives
/// in the high four bits, so a type test is a masked equality over those
/// bits, never a plain flag check.
#[derive(Clone, Copy, Debug, PartialEq, Eq, Structural)]
pub struct TypePerm(pub u16);

/// Type value of a FIFO.
pub const TYPE_FIFO: u16 = 0x1000;

/// Type value of a character device.
pub const TYPE_CHAR_DEVICE: u16 = 0x2000;

/// Type value of a directory.
pub const TYPE_DIRECTORY: u16 = 0x4000;

/// Type value of a block device.
pub const TYPE_BLOCK_DEVICE: u16 = 0x6000;

/// Type value of a regular file.
pub const TYPE_FILE: u16 = 0x8000;

/// Type value of a symbolic link.
pub const TYPE_SYMLINK: u16 = 0xA000;

/// Type value of a Unix socket.
pub const TYPE_SOCKET: u16 = 0xC000;

/// The mask selecting the type bits of the shared field.
pub const TYPE_MASK: u16 = 0xF000;

impl TypePerm {
    /// The type bits of the shared field.
    pub open spec fn spec_type_bits(self) -> u16 {
        self.0 & TYPE_MASK
    }

    /// Whether the type bits name a directory.
    pub open spec fn spec_is_directory(self) -> bool {
        self.spec_type_bits() == TYPE_DIRECTORY
    }

    /// Whether the type bits name a regular file.
    pub open spec fn spec_is_regular_file(self) -> bool {
        self.spec_type_bits() == TYPE_FILE
    }

    /// Whether the type bits name a symbolic link.
    pub open spec fn spec_is_symlink(self) -> bool {
        self.spec_type_bits() == TYPE_SYMLINK
    }

    /// Tests whether this inode type is a directory.
    pub fn is_directory(&self) -> (r: bool)
        ensures
            r == self.spec_is_directory(),
    {
        self.0 & TYPE_MASK == TYPE_DIRECTORY
    }

    /// Tests whether this inode type is a regular file.
    pub fn is_regular_file(&self) -> (r: bool)
        ensures
            r == self.spec_is_regular_file(),
    {
        self.0 & TYPE_MASK == TYPE_FILE
    }

    /// Tests whether this inode type is a symbolic link.
    pub fn is_symlink(&self) -> (r: bool)
        ensures
            r == self.spec_is_symlink(),
    {
        self.0 & TYPE_MASK == TYPE_SYMLINK
    }
}

/// The directory and regular-file tests can never both hold: both compare
/// the same masked type bits against two different type constants.
pub proof fn lemma_type_tests_mutually_exclusive(tp: TypePerm)
    ensures
        !(tp.spec_is_directory() && tp.spec_is_regular_file()),
{
}

/// The type byte of a directory entry, meaningful when the filesystem
/// feature bit for typed entries is set.
#[derive(Clone, Copy, Debug, PartialEq, Eq, Structural)]
pub enum TypeIndicator {
    Unknown,
    Regular,
    Directory,
    Character,
    Block,
    Fifo,
    Socket,
    Symlink,
}

/// The type indicator named by one directory-entry type byte; bytes outside
/// the defined range decode to `Unknown`.
pub open spec fn spec_type_indicator(b: u8) -> TypeIndicator {
    if b == 1 {
        TypeIndicator::Regular
    } else if b == 2 {
        TypeIndicator::Directory
    } else if b == 3 {
        TypeIndicator::Character
    } else if b == 4 {
        TypeIndicator::Block
    } else if b == 5 {
        TypeIndicator::Fifo
    } else if b == 6 {
        TypeIndicator::Socket
    } else if b == 7 {
        TypeIndicator::Symlink
    } else {
        TypeIndicator::Unknown
    }
}

/// Decodes one directory-entry type byte.
pub fn type_indicator_of(b: u8) -> (r: TypeIndicator)
    ensures
        r == spec_type_indicator(b),
{
    if b == 1 {
        TypeIndicator::Regular
    } else if b == 2 {
        TypeIndicator::Directory
    } else if b == 3 {
        TypeIndicator::Character
    } else if b == 4 {
        TypeIndicator::Block
    } else if b == 5 {
        TypeIndicator::Fifo
    } else if b == 6 {
        TypeIndicator::Socket
    } else if b == 7 {
        TypeIndicator::Symlink
    } else {
        TypeIndicator::Unknown
    }
}

/// One file or directory's metadata record: type and permissions, sizes,
/// times, and the direct and indirect block pointers. Identified by a
/// 1-indexed inode number; resolved on demand from its group's inode table.
#[derive(Clone, Copy, Debug)]
pub struct Inode {
    /// Type and permissions
    pub type_perm: TypePerm,
    /// User ID
    pub uid: u16,
    /// Lower 32 bits of the size in bytes
    pub size_low: u32,
    /// Last access time (POSIX time)
    pub atime: u32,
    /// Creation time (POSIX time)
    pub ctime: u32,
    /// Last modification time (POSIX time)
    pub mtime: u32,
    /// Deletion time (POSIX time)
    pub dtime: u32,
    /// Group ID
    pub gid: u16,
    /// Count of hard links to this inode
    pub hard_links: u16,
    /// Count of disk sectors in use by this inode
    pub sectors_count: u32,
    /// Flags
    pub flags: u32,
    /// Direct block pointers
    pub direct_pointer: [u32; 12],
    /// Singly indirect pointer: a block listing data-block numbers
    pub indirect_pointer: u32,
    /// Doubly indirect pointer: a block listing singly-indirect blocks
    pub doubly_indirect: u32,
    /// Triply indirect pointer: a block listing doubly-indirect blocks
    pub triply_indirect: u32,
    /// Generation number
    pub gen_number: u32,
    /// Extended attribute block
    pub ext_attribute_block: u32,
    /// Upper 32 bits of the file size
    pub size_high: u32,
    /// Block address of a fragment
    pub frag_block_addr: u32,
}

/// Every field of `ino` equals the little-endian decoding of its byte range
/// inside the 128-byte inode window `s`.
pub open spec fn inode_matches(ino: Inode, s: Seq<u8>) -> bool {
    &&& ino.type_perm.0 == le16(s, 0)
    &&& ino.uid == le16(s, 2)
    &&& ino.size_low == le32(s, 4)
    &&& ino.atime == le32(s, 8)
    &&& ino.ctime == le32(s, 12)
    &&& ino.mtime == le32(s, 16)
    &&& ino.dtime == le32(s, 20)
    &&& ino.gid == le16(s, 24)
    &&& ino.hard_links == le16(s, 26)
    &&& ino.sectors_count == le32(s, 28)
    &&& ino.flags == le32(s, 32)
    &&& forall|i: int| 0 <= i < 12 ==> #[trigger] ino.direct_pointer@[i] == le32(s, 40 + 4 * i)
    &&& ino.indirect_pointer == le32(s, 88)
    &&& ino.doubly_indirect == le32(s, 92)
    &&& ino.triply_indirect == le32(s, 96)
    &&& ino.gen_number == le32(s, 100)
    &&& ino.ext_attribute_block == le32(s, 104)
    &&& ino.size_high == le32(s, 108)
    &&& ino.frag_block_addr == le32(s, 112)
}

impl Inode {
    /// Decodes one 128-byte inode record at byte offset `off` of `data`.
    pub fn decode(data: &[u8], off: usize) -> (r: Result<Inode, Ext2Error>)
        ensures
            match r {
                Ok(ino) => off + INODE_SIZE <= data@.len() && inode_matches(
                    ino,
                    data@.subrange(off as int, off + INODE_SIZE),
                ),
                Err(e) => e == Ext2Error::TruncatedBuffer && off + INODE_SIZE > data@.len(),
            },
    {
        if data.len() < INODE_SIZE || off > data.len() - INODE_SIZE {
            return Err(Ext2Error::TruncatedBuffer);
        }
        let direct_pointer: [u32; 12] = [
            read_le_u32(data, off + 40),
            read_le_u32(data, off + 44),
            read_le_u32(data, off + 48),
            read_le_u32(data, off + 52),
            read_le_u32(data, off + 56),
            read_le_u32(data, off + 60),
            read_le_u32(data, off + 64),
            read_le_u32(data, off + 68),
            read_le_u32(data, off + 72),
            read_le_u32(data, off + 76),
            read_le_u32(data, off + 80),
            read_le_u32(data, off + 84),
        ];
        Ok(
            Inode {
                type_perm: TypePerm(read_le_u16(data, off)),
                uid: read_le_u16(data, off + 2),
                size_low: read_le_u32(data, off + 4),
                atime: read_le_u32(data, off + 8),
                ctime: read_le_u32(data, off + 12),
                mtime: read_le_u32(data, off + 16),
                dtime: read_le_u32(data, off + 20),
                gid: read_le_u16(data, off + 24),
                hard_links: read_le_u16(data, off + 26),
                sectors_count: read_le_u32(data, off + 28),
                flags: read_le_u32(data, off + 32),
                direct_pointer,
                indirect_pointer: read_le_u32(data, off + 88),
                doubly_indirect: read_le_u32(data, off + 92),
                triply_indirect: read_le_u32(data, off + 96),
                gen_number: read_le_u32(data, off + 100),
                ext_attribute_block: read_le_u32(data, off + 104),
                size_high: read_le_u32(data, off + 108),
                frag_block_addr: read_le_u32(data, off + 112),
            },
        )
    }

    /// Tests whether this inode is a directory.
    pub fn is_directory(&self) -> (r: bool)
        ensures
            r == self.type_perm.spec_is_directory(),
    {
        self.type_perm.is_directory()
    }

    /// Tests whether this inode is a regular file.
    pub fn is_regular_file(&self) -> (r: bool)
        ensures
            r == self.type_perm.spec_is_regular_file(),
    {
        self.type_perm.is_regular_file()
    }
}

/// A directory entry as the mathematical value of its decoded fields.
pub ghost struct SpecDirEntry {
    /// Child inode number
    pub inode: int,
    /// Total size of the entry: the offset to the start of the next entry
    pub entry_size: int,
    /// Length of the name in bytes
    pub name_length: int,
    /// Type indicator byte, decoded
    pub type_indicator: TypeIndicator,
    /// The name bytes
    pub name: Seq<u8>,
}

/// One variable-length record of a directory's data: the child inode number,
/// the offset to the next entry, and the child's name.
#[derive(Clone, Debug)]
pub struct DirectoryEntry {
    /// Child inode number
    pub inode: u32,
    /// Total size of the entry: the offset to the start of the next entry
    pub entry_size: u16,
    /// Length of the name in bytes
    pub name_length: u8,
    /// Type indicator
    pub type_indicator: TypeIndicator,
    /// The name bytes
    pub name: Vec<u8>,
}

impl View for DirectoryEntry {
    type V = SpecDirEntry;

    open spec fn view(&self) -> SpecDirEntry {
        SpecDirEntry {
            inode: self.inode as int,
            entry_size: self.entry_size as int,
            name_length: self.name_length as int,
            type_indicator: self.type_indicator,
            name: self.name@,
        }
    }
}

/// The directory entry whose header starts at byte `off` of the block `s`:
/// a fixed 8-byte header followed by `name_length` name bytes.
pub open spec fn spec_dir_entry_at(s: Seq<u8>, off: int) -> SpecDirEntry {
    SpecDirEntry {
        inode: le32(s, off),
        entry_size: le16(s, off + 4),
        name_length: s[off + 6] as int,
        type_indicator: spec_type_indicator(s[off + 7]),
        name: s.subrange(off + 8, off + 8 + s[off + 6]),
    }
}

impl DirectoryEntry {
    /// Decodes the directory entry whose header starts at byte `off` of
    /// `data`. Succeeds exactly when the 8-byte header and the declared name
    /// both lie within the buffer.
    pub fn decode(data: &[u8], off: usize) -> (r: Result<DirectoryEntry, Ext2Error>)
        ensures
            match r {
                Ok(e) => off + 8 + data@[off + 6] <= data@.len() && e@ == spec_dir_entry_at(
                    data@,
                    off as int,
                ),
                Err(e) => e == Ext2Error::TruncatedBuffer && (off + 8 > data@.len() || off + 8
                    + data@[off + 6] > data@.len()),
            },
    {
        if data.len() < 8 || off > data.len() - 8 {
            return Err(Ext2Error::TruncatedBuffer);
        }
        let name_length = data[off + 6];
        if name_length as usize > data.len() - 8 - off {
            return Err(Ext2Error::TruncatedBuffer);
        }
        let e = DirectoryEntry {
            inode: read_le_u32(data, off),
            entry_size: read_le_u16(data, off + 4),
            name_length,
            type_indicator: type_indicator_of(data[off + 7]),
            name: read_bytes(data, off + 8, name_length as usize),
        };
        Ok(e)
    }
}

} // verus!

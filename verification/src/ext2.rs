//! The filesystem image and its traversal: opening a raw buffer, addressing
//! logical blocks, resolving inode numbers, walking directory entries, and
//! reconstructing file contents across direct and indirect block pointers.

use vstd::prelude::*;
use vstd::arithmetic::power2::*;
use vstd::arithmetic::div_mod::*;
use vstd::arithmetic::mul::*;
use vstd::bits::*;
use crate::decode::{le16, le32, read_le_u32};
use crate::structs::{
    Superblock, BlockGroupDescriptor, Inode, DirectoryEntry, SpecDirEntry,
    superblock_matches, block_group_descriptor_matches, inode_matches, spec_dir_entry_at,
    SUPERBLOCK_SIZE, INODE_SIZE,
};
use crate::Ext2Error;

verus! {

/// Byte offset of the superblock inside the image.
pub const SUPERBLOCK_OFFSET: usize = 1024;

/// The ext2 signature held in the superblock's magic field.
pub const EXT2_MAGIC: u16 = 0xEF53;

/// The largest supported block-size exponent: `1024 << 20` is a one-gigabyte
/// block, far past anything the format uses.
pub const MAX_LOG_BLOCK_SIZE: u32 = 20;

/// The smallest number of whole groups that covers `blocks` blocks when each
/// group spans `per_group` of them: the ceiling of `blocks / per_group`.
pub open spec fn spec_div_ceil(blocks: int, per_group: int) -> int {
    (blocks + per_group - 1) / per_group
}

/// The ceiling division used for the block-group count covers all blocks and
/// wastes no whole group: it is the least multiplier `c` with
/// `c * per_group >= blocks`, and it equals the exact quotient whenever
/// `per_group` divides `blocks`.
pub proof fn lemma_div_ceil_is_least_cover(blocks: int, per_group: int)
    requires
        blocks >= 0,
        per_group >= 1,
    ensures
        spec_div_ceil(blocks, per_group) * per_group >= blocks,
        blocks > 0 ==> (spec_div_ceil(blocks, per_group) - 1) * per_group < blocks,
        blocks % per_group == 0 ==> spec_div_ceil(blocks, per_group) == blocks / per_group,
{
    let c = spec_div_ceil(blocks, per_group);
    lemma_fundamental_div_mod(blocks + per_group - 1, per_group);
    lemma_mod_bound(blocks + per_group - 1, per_group);
    assert(c * per_group == per_group * c) by (nonlinear_arith);
    assert((c - 1) * per_group == c * per_group - per_group) by (nonlinear_arith);
    if blocks % per_group == 0 {
        lemma_fundamental_div_mod(blocks, per_group);
        let q = blocks / per_group;
        assert(blocks == per_group * q);
        assert(blocks + per_group - 1 == per_group * q + (per_group - 1));
        lemma_div_multiples_vanish_fancy(q, per_group - 1, per_group);
    }
}

/// A decoded ext2 image: the raw buffer it owns, the superblock and
/// block-group descriptor table parsed out of it, and the derived block
/// geometry. All views of the image are byte ranges of `data`.
pub struct Ext2 {
    /// The raw image bytes; every decoded view is a window into this arena.
    pub data: Vec<u8>,
    /// The superblock, decoded from byte offset 1024.
    pub superblock: Superblock,
    /// One descriptor per block group, decoded from the block after the one
    /// containing the superblock.
    pub block_groups: Vec<BlockGroupDescriptor>,
    /// Block size in bytes: `1024 << superblock.log_block_size`.
    pub block_size: usize,
    /// Number of block groups: `ceil(blocks_count / blocks_per_group)`.
    pub block_group_count: usize,
    /// Number of addressable logical blocks: the superblock's block count,
    /// capped to the whole blocks the buffer actually holds.
    pub block_count: usize,
    /// Subtracted from every on-disk block pointer before indexing; it is
    /// the caller's base offset plus the blocks in front of logical block 0.
    pub block_offset: usize,
}

impl Ext2 {
    /// Number of the block containing the superblock.
    pub open spec fn sb_block(self) -> int {
        if self.block_size == 1024 {
            1
        } else {
            0
        }
    }

    /// Buffer block number where logical block 0 begins: the block after the
    /// one holding the block-group descriptor table.
    pub open spec fn data_start_block(self) -> int {
        self.sb_block() + 2
    }

    /// Byte offset of the block-group descriptor table.
    pub open spec fn bgdt_start(self) -> int {
        (self.sb_block() + 1) * self.block_size
    }

    /// Byte offset where logical block 0 begins.
    pub open spec fn data_start(self) -> int {
        self.data_start_block() * self.block_size
    }

    /// How many whole logical blocks the buffer holds past the descriptor
    /// table's block.
    pub open spec fn spec_avail_blocks(self) -> int {
        if self.data@.len() >= self.data_start() {
            (self.data@.len() - self.data_start()) / self.block_size as int
        } else {
            0
        }
    }

    /// The image decodes consistently from its own buffer: every stored
    /// structure matches the bytes it was read from, and the derived
    /// geometry fields agree with the superblock.
    pub open spec fn wf(self) -> bool {
        &&& self.data@.len() >= SUPERBLOCK_OFFSET + SUPERBLOCK_SIZE
        &&& superblock_matches(
            self.superblock,
            self.data@.subrange(
                SUPERBLOCK_OFFSET as int,
                SUPERBLOCK_OFFSET + SUPERBLOCK_SIZE,
            ),
        )
        &&& self.superblock.magic == EXT2_MAGIC
        &&& self.superblock.blocks_per_group > 0
        &&& self.superblock.inodes_per_group > 0
        &&& self.superblock.log_block_size <= MAX_LOG_BLOCK_SIZE
        &&& self.block_size as int == 1024 * pow2(self.superblock.log_block_size as nat)
        &&& 1024 <= self.block_size <= 0x4000_0000
        &&& self.block_group_count == spec_div_ceil(
            self.superblock.blocks_count as int,
            self.superblock.blocks_per_group as int,
        )
        &&& self.block_groups@.len() == self.block_group_count
        &&& self.bgdt_start() + 32 * self.block_group_count <= self.data@.len()
        &&& forall|i: int|
            0 <= i < self.block_group_count ==> block_group_descriptor_matches(
                #[trigger] self.block_groups@[i],
                self.data@.subrange(self.bgdt_start() + 32 * i, self.bgdt_start() + 32 * i + 32),
            )
        &&& self.block_count == if (self.superblock.blocks_count as int)
            <= self.spec_avail_blocks() {
            self.superblock.blocks_count as int
        } else {
            self.spec_avail_blocks()
        }
        &&& self.block_count > 0 ==> self.data_start() + self.block_count * self.block_size
            <= self.data@.len()
        &&& self.block_offset >= self.data_start_block()
    }

    /// The bytes of logical block `n`.
    pub open spec fn spec_block_data(self, n: int) -> Seq<u8> {
        self.data@.subrange(
            self.data_start() + n * self.block_size,
            self.data_start() + (n + 1) * self.block_size,
        )
    }

    /// Whether on-disk block pointer `p` lands on an addressable logical
    /// block once the base offset is subtracted.
    pub open spec fn spec_valid_ptr(self, p: int) -> bool {
        &&& p >= self.block_offset
        &&& p - self.block_offset < self.block_count
    }

    /// The bytes of the block that on-disk pointer `p` names.
    pub open spec fn spec_ptr_block(self, p: int) -> Seq<u8> {
        self.spec_block_data(p - self.block_offset)
    }
}

/// Inside `img`, logical block `l` lies wholly within the buffer.
proof fn lemma_block_in_data(img: Ext2, l: int)
    requires
        img.wf(),
        0 <= l < img.block_count,
    ensures
        img.data_start() + (l + 1) * img.block_size <= img.data@.len(),
        img.data_start() + l * img.block_size >= img.data_start(),
        (l + 1) * img.block_size == l * img.block_size + img.block_size,
{
    let bs = img.block_size as int;
    lemma_mul_inequality(l + 1, img.block_count as int, bs);
    assert((l + 1) * bs == l * bs + bs) by (nonlinear_arith);
    lemma_mul_nonnegative(l, bs);
}

impl Ext2 {
    /// The group a 1-indexed inode number belongs to.
    pub open spec fn spec_inode_group(self, n: int) -> int {
        (n - 1) / self.superblock.inodes_per_group as int
    }

    /// The inode's index inside its group's inode table.
    pub open spec fn spec_inode_index(self, n: int) -> int {
        (n - 1) % self.superblock.inodes_per_group as int
    }

    /// The on-disk block pointer of the inode table of `n`'s group.
    pub open spec fn spec_inode_table_ptr(self, n: int) -> int {
        self.block_groups@[self.spec_inode_group(n)].inode_table_block as int
    }

    /// Byte offset of inode `n`'s 128-byte record: the group's inode table
    /// block, plus the record index times the record size.
    pub open spec fn spec_inode_pos(self, n: int) -> int {
        self.data_start() + (self.spec_inode_table_ptr(n) - self.block_offset) * self.block_size
            + self.spec_inode_index(n) * INODE_SIZE
    }

    /// Whether inode `n`'s record lies within the image's addressable
    /// blocks (the record may run past its table's first block into the
    /// following ones).
    pub open spec fn spec_inode_in_range(self, n: int) -> bool {
        &&& self.spec_inode_table_ptr(n) >= self.block_offset
        &&& self.spec_inode_pos(n) + INODE_SIZE <= self.data_start() + self.block_count
            * self.block_size
    }

    /// The 128 bytes of inode `n`'s record.
    pub open spec fn spec_inode_bytes(self, n: int) -> Seq<u8> {
        self.data@.subrange(self.spec_inode_pos(n), self.spec_inode_pos(n) + INODE_SIZE)
    }

    /// Byte offset where logical block 0 begins.
    fn data_start_x(&self) -> (r: usize)
        requires
            self.wf(),
        ensures
            r == self.data_start(),
            r <= 0xC000_0000,
    {
        proof {
            if self.block_size == 1024 {
                assert(self.data_start_block() == 3);
                assert(self.data_start() == 3 * (self.block_size as int));
            } else {
                assert(self.data_start_block() == 2);
                assert(self.data_start() == 2 * (self.block_size as int));
            }
        }
        if self.block_size == 1024 {
            3072
        } else {
            2 * self.block_size
        }
    }

    /// Returns the bytes of logical block `n`. Fails with `BlockOutOfRange`
    /// exactly when `n` is not an addressable block of this image.
    pub fn block(&self, n: usize) -> (r: Result<&[u8], Ext2Error>)
        requires
            self.wf(),
        ensures
            match r {
                Ok(b) => n < self.block_count && b@ == self.spec_block_data(n as int),
                Err(e) => e == Ext2Error::BlockOutOfRange && n >= self.block_count,
            },
    {
        if n >= self.block_count {
            return Err(Ext2Error::BlockOutOfRange);
        }
        proof {
            lemma_block_in_data(*self, n as int);
        }
        let _dlen: usize = self.data.len();
        let ds = self.data_start_x();
        let start = ds + n * self.block_size;
        let end = start + self.block_size;
        Ok(vstd::slice::slice_subrange(self.data.as_slice(), start, end))
    }

    /// Resolves a 1-indexed inode number to its decoded record.
    ///
    /// The inode lives at index `(inode - 1) % inodes_per_group` of the
    /// inode table of group `(inode - 1) / inodes_per_group`. Fails with
    /// `InvalidInode` exactly when that group is past the descriptor table,
    /// and with `BlockOutOfRange` exactly when the record does not lie
    /// within the image's addressable blocks.
    pub fn get_inode(&self, inode: usize) -> (r: Result<Inode, Ext2Error>)
        requires
            self.wf(),
            inode >= 1,
        ensures
            match r {
                Ok(ino) => self.spec_inode_group(inode as int) < self.block_group_count
                    && self.spec_inode_in_range(inode as int) && inode_matches(
                    ino,
                    self.spec_inode_bytes(inode as int),
                ),
                Err(Ext2Error::InvalidInode) => self.spec_inode_group(inode as int)
                    >= self.block_group_count,
                Err(Ext2Error::BlockOutOfRange) => self.spec_inode_group(inode as int)
                    < self.block_group_count && !self.spec_inode_in_range(inode as int),
                _ => false,
            },
    {
        let ipg = self.superblock.inodes_per_group as usize;
        let group = (inode - 1) / ipg;
        let index = (inode - 1) % ipg;
        if group >= self.block_group_count {
            return Err(Ext2Error::InvalidInode);
        }
        let itb = self.block_groups[group].inode_table_block as usize;
        if itb < self.block_offset {
            return Err(Ext2Error::BlockOutOfRange);
        }
        let l = itb - self.block_offset;
        let ds = self.data_start_x();
        let bs = self.block_size;
        proof {
            assert((l as int) * (bs as int) <= 0xFFFF_FFFFi64 * 0x4000_0000i64) by (nonlinear_arith)
                requires
                    0 <= l as int <= 0xFFFF_FFFFi64,
                    0 <= bs as int <= 0x4000_0000i64,
            ;
            assert((index as int) * (INODE_SIZE as int) <= 0xFFFF_FFFFi64 * 128) by (
            nonlinear_arith)
                requires
                    0 <= index as int <= 0xFFFF_FFFFi64,
            ;
            assert((self.block_count as int) * (bs as int) <= 0xFFFF_FFFFi64 * 0x4000_0000i64) by (
            nonlinear_arith)
                requires
                    0 <= self.block_count as int <= 0xFFFF_FFFFi64,
                    0 <= bs as int <= 0x4000_0000i64,
            ;
            lemma_mul_nonnegative(l as int, bs as int);
            lemma_mul_nonnegative(index as int, INODE_SIZE as int);
            lemma_mul_nonnegative(self.block_count as int, bs as int);
        }
        let pos64: u64 = (ds as u64) + (l as u64) * (bs as u64) + (index as u64) * 128u64;
        let limit64: u64 = (ds as u64) + (self.block_count as u64) * (bs as u64);
        if pos64 + 128 > limit64 {
            return Err(Ext2Error::BlockOutOfRange);
        }
        let _dlen: usize = self.data.len();
        proof {
            if self.block_count == 0 {
                assert((self.block_count as int) * (bs as int) == 0) by (nonlinear_arith)
                    requires
                        self.block_count as int == 0,
                ;
                assert(false);
            }
            assert(pos64 as int == self.spec_inode_pos(inode as int));
            assert(limit64 as int == self.data_start() + (self.block_count as int) * (
            self.block_size as int));
        }
        let pos: usize = pos64 as usize;
        match Inode::decode(self.data.as_slice(), pos) {
            Ok(ino) => Ok(ino),
            Err(e) => {
                proof {
                    assert(false);
                }
                Err(e)
            },
        }
    }
}

/// `off` clamped to at most `end`: the parse cursor never stands past the
/// declared end of the listing.
pub open spec fn clip(off: int, end: int) -> int {
    if off > end {
        end
    } else {
        off
    }
}

/// Prepends already-produced entries onto the outcome of parsing the rest.
pub open spec fn opt_prepend(pre: Seq<SpecDirEntry>, o: Option<Seq<SpecDirEntry>>) -> Option<
    Seq<SpecDirEntry>,
> {
    match o {
        None => None,
        Some(rest) => Some(pre + rest),
    }
}

/// The directory entries packed in block `s`, decoded from byte `off` until
/// the cursor reaches `end` (the directory's declared byte size). Each entry
/// is an 8-byte header plus a name, and the cursor advances by the entry's
/// declared `entry_size`. `None` means the listing is malformed: an entry
/// runs past the block, or declares a zero `entry_size` so the cursor cannot
/// advance.
pub open spec fn spec_parse_dir(s: Seq<u8>, off: int, end: int) -> Option<Seq<SpecDirEntry>>
    decreases end - off,
{
    if off >= end {
        Some(Seq::empty())
    } else if off + 8 > s.len() || off + 8 + s[off + 6] > s.len() {
        None
    } else if le16(s, off + 4) == 0 {
        None
    } else {
        let e = spec_dir_entry_at(s, off);
        match spec_parse_dir(s, clip(off + e.entry_size, end), end) {
            None => None,
            Some(rest) => Some(seq![e] + rest),
        }
    }
}

/// One parsing step: consuming the entry at `off` moves it from the parse
/// of the rest onto the end of the accumulated prefix.
proof fn lemma_parse_dir_step(s: Seq<u8>, off: int, end: int, pre: Seq<SpecDirEntry>)
    requires
        off < end,
        off + 8 <= s.len(),
        off + 8 + s[off + 6] <= s.len(),
        le16(s, off + 4) != 0,
    ensures
        opt_prepend(pre, spec_parse_dir(s, off, end)) == opt_prepend(
            pre.push(spec_dir_entry_at(s, off)),
            spec_parse_dir(s, clip(off + spec_dir_entry_at(s, off).entry_size, end), end),
        ),
{
    let e = spec_dir_entry_at(s, off);
    match spec_parse_dir(s, clip(off + e.entry_size, end), end) {
        None => {},
        Some(rest) => {
            assert(pre + (seq![e] + rest) =~= pre.push(e) + rest);
        },
    }
}

impl Ext2 {
    /// The declared byte size (`size_low`) of inode `n`.
    pub open spec fn spec_inode_size_low(self, n: int) -> int {
        le32(self.spec_inode_bytes(n), 4)
    }

    /// The first direct block pointer of inode `n`.
    pub open spec fn spec_inode_dp0(self, n: int) -> int {
        le32(self.spec_inode_bytes(n), 40)
    }

    /// Reads the directory listing of a 1-indexed inode number: the packed
    /// entries of the inode's first data block, in on-disk order, until the
    /// cursor reaches the inode's declared `size_low`.
    ///
    /// A zero `size_low` yields an empty listing without touching any data
    /// block. Inode-resolution failures surface as from `get_inode`; a first
    /// direct pointer outside the image fails with `BlockOutOfRange`; a
    /// malformed listing (an entry past the block's end, or one that cannot
    /// advance the cursor) fails with `TruncatedBuffer`.
    pub fn read_dir_inode(&self, inode: usize) -> (r: Result<Vec<DirectoryEntry>, Ext2Error>)
        requires
            self.wf(),
            inode >= 1,
        ensures
            match r {
                Ok(v) => {
                    &&& self.spec_inode_group(inode as int) < self.block_group_count
                    &&& self.spec_inode_in_range(inode as int)
                    &&& if self.spec_inode_size_low(inode as int) == 0 {
                        v@ == Seq::<DirectoryEntry>::empty()
                    } else {
                        &&& self.spec_valid_ptr(self.spec_inode_dp0(inode as int))
                        &&& Some(v@.map_values(|e: DirectoryEntry| e@)) == spec_parse_dir(
                            self.spec_ptr_block(self.spec_inode_dp0(inode as int)),
                            0,
                            self.spec_inode_size_low(inode as int),
                        )
                    }
                },
                Err(Ext2Error::InvalidInode) => self.spec_inode_group(inode as int)
                    >= self.block_group_count,
                Err(Ext2Error::BlockOutOfRange) => self.spec_inode_group(inode as int)
                    < self.block_group_count && (!self.spec_inode_in_range(inode as int) || (
                self.spec_inode_size_low(inode as int) > 0 && !self.spec_valid_ptr(
                    self.spec_inode_dp0(inode as int),
                ))),
                Err(Ext2Error::TruncatedBuffer) => self.spec_inode_group(inode as int)
                    < self.block_group_count && self.spec_inode_in_range(inode as int)
                    && self.spec_inode_size_low(inode as int) > 0 && self.spec_valid_ptr(
                    self.spec_inode_dp0(inode as int),
                ) && spec_parse_dir(
                    self.spec_ptr_block(self.spec_inode_dp0(inode as int)),
                    0,
                    self.spec_inode_size_low(inode as int),
                ) is None,
                _ => false,
            },
    {
        let ino = match self.get_inode(inode) {
            Ok(ino) => ino,
            Err(e) => {
                return Err(e);
            },
        };
        if ino.size_low == 0 {
            return Ok(Vec::new());
        }
        let dp0 = ino.direct_pointer[0];
        let dp0u = dp0 as usize;
        if dp0u < self.block_offset || dp0u - self.block_offset >= self.block_count {
            return Err(Ext2Error::BlockOutOfRange);
        }
        let blk = match self.block(dp0u - self.block_offset) {
            Ok(b) => b,
            Err(_) => {
                proof {
                    assert(false);
                }
                return Err(Ext2Error::BlockOutOfRange);
            },
        };
        let ghost bseq = blk@;
        let ghost szl = ino.size_low as int;
        proof {
            assert(bseq == self.spec_ptr_block(self.spec_inode_dp0(inode as int)));
            assert(szl == self.spec_inode_size_low(inode as int));
        }
        let end: usize = ino.size_low as usize;
        let mut v: Vec<DirectoryEntry> = Vec::new();
        let mut off: usize = 0;
        while off < end
            invariant
                self.wf(),
                inode >= 1,
                self.spec_inode_group(inode as int) < self.block_group_count,
                self.spec_inode_in_range(inode as int),
                szl == self.spec_inode_size_low(inode as int),
                szl > 0,
                self.spec_valid_ptr(self.spec_inode_dp0(inode as int)),
                bseq == self.spec_ptr_block(self.spec_inode_dp0(inode as int)),
                off <= end,
                end == szl,
                bseq == blk@,
                spec_parse_dir(bseq, 0, szl) == opt_prepend(
                    v@.map_values(|e: DirectoryEntry| e@),
                    spec_parse_dir(bseq, clip(off as int, szl), szl),
                ),
            decreases end - off,
        {
            let e = match DirectoryEntry::decode(blk, off) {
                Ok(e) => e,
                Err(_) => {
                    proof {
                        assert(clip(off as int, szl) == off as int);
                        assert(spec_parse_dir(bseq, off as int, szl) is None);
                        assert(spec_parse_dir(bseq, 0, szl) is None);
                    }
                    return Err(Ext2Error::TruncatedBuffer);
                },
            };
            if e.entry_size == 0 {
                proof {
                    assert(clip(off as int, szl) == off as int);
                    assert(spec_parse_dir(bseq, off as int, szl) is None);
                    assert(spec_parse_dir(bseq, 0, szl) is None);
                }
                return Err(Ext2Error::TruncatedBuffer);
            }
            let ghost pre = v@.map_values(|x: DirectoryEntry| x@);
            proof {
                lemma_parse_dir_step(bseq, off as int, szl, pre);
            }
            let step = e.entry_size;
            v.push(e);
            proof {
                assert(v@.map_values(|x: DirectoryEntry| x@) =~= pre.push(
                    spec_dir_entry_at(bseq, off as int),
                ));
            }
            off = if (step as usize) < end - off {
                off + step as usize
            } else {
                end
            };
        }
        proof {
            assert(spec_parse_dir(bseq, szl, szl) == Some(Seq::<SpecDirEntry>::empty()));
            assert(v@.map_values(|e: DirectoryEntry| e@) + Seq::<SpecDirEntry>::empty()
                =~= v@.map_values(|e: DirectoryEntry| e@));
        }
        Ok(v)
    }
}

/// The outcome of following one pointer, or one run of pointers, while
/// reconstructing a file's byte stream.
pub ghost enum WalkResult {
    /// A zero sentinel was met: the stream is complete with these bytes,
    /// and nothing after this point is read.
    Stopped(Seq<u8>),
    /// The pointers ran out without a sentinel: these bytes were collected
    /// and the walk continues at the next level.
    Exhausted(Seq<u8>),
    /// A nonzero pointer fell outside the image's addressable blocks.
    OutOfRange,
}

/// Prepends already-collected bytes onto the outcome of the rest of a walk.
pub open spec fn walk_prepend(pre: Seq<u8>, w: WalkResult) -> WalkResult {
    match w {
        WalkResult::Stopped(b) => WalkResult::Stopped(pre + b),
        WalkResult::Exhausted(b) => WalkResult::Exhausted(pre + b),
        WalkResult::OutOfRange => WalkResult::OutOfRange,
    }
}

/// Prepending two runs of bytes one after the other is prepending their
/// concatenation.
proof fn lemma_walk_prepend_assoc(a: Seq<u8>, b: Seq<u8>, w: WalkResult)
    ensures
        walk_prepend(a, walk_prepend(b, w)) == walk_prepend(a + b, w),
{
    match w {
        WalkResult::Stopped(r) => {
            assert(a + (b + r) =~= (a + b) + r);
        },
        WalkResult::Exhausted(r) => {
            assert(a + (b + r) =~= (a + b) + r);
        },
        WalkResult::OutOfRange => {},
    }
}

impl Ext2 {
    /// How many 32-bit block pointers one block holds.
    pub open spec fn spec_entries_per_block(self) -> int {
        self.block_size as int / 4
    }

    /// Follows one block pointer at the given indirection level. A zero
    /// pointer is the universal sentinel and stops the whole walk; a pointer
    /// outside the image fails it. At level 0 the pointed-to block's bytes
    /// are the data; at level `k > 0` the block is an array of pointers,
    /// each followed at level `k - 1`.
    pub open spec fn walk_ptr(self, p: int, level: int) -> WalkResult
        decreases level, 0int,
    {
        if p == 0 {
            WalkResult::Stopped(Seq::empty())
        } else if !self.spec_valid_ptr(p) {
            WalkResult::OutOfRange
        } else if level <= 0 {
            WalkResult::Exhausted(self.spec_ptr_block(p))
        } else {
            self.walk_entries(self.spec_ptr_block(p), 0, level - 1)
        }
    }

    /// Follows the pointers of pointer-block `blk` from entry `i` on, each
    /// at the given level. A sentinel met anywhere stops the whole walk
    /// with the bytes collected so far.
    pub open spec fn walk_entries(self, blk: Seq<u8>, i: int, level: int) -> WalkResult
        decreases level, self.spec_entries_per_block() - i + 1,
    {
        if i < 0 || i >= self.spec_entries_per_block() || level < 0 {
            WalkResult::Exhausted(Seq::empty())
        } else {
            match self.walk_ptr(le32(blk, 4 * i), level) {
                WalkResult::OutOfRange => WalkResult::OutOfRange,
                WalkResult::Stopped(b) => WalkResult::Stopped(b),
                WalkResult::Exhausted(b) => walk_prepend(b, self.walk_entries(blk, i + 1, level)),
            }
        }
    }

    /// Follows the inode's twelve direct pointers from index `i` on.
    pub open spec fn walk_direct(self, ib: Seq<u8>, i: int) -> WalkResult
        decreases 12 - i,
    {
        if i < 0 || i >= 12 {
            WalkResult::Exhausted(Seq::empty())
        } else {
            match self.walk_ptr(le32(ib, 40 + 4 * i), 0) {
                WalkResult::OutOfRange => WalkResult::OutOfRange,
                WalkResult::Stopped(b) => WalkResult::Stopped(b),
                WalkResult::Exhausted(b) => walk_prepend(b, self.walk_direct(ib, i + 1)),
            }
        }
    }

    /// The byte stream of inode `n`'s file: the direct blocks, then the
    /// singly, doubly and triply indirect trees, each level visited only
    /// after the one before ran out without a sentinel, and the first zero
    /// pointer met anywhere ending the whole stream. `None` means some
    /// nonzero pointer fell outside the image.
    pub open spec fn spec_read_file(self, n: int) -> Option<Seq<u8>> {
        let ib = self.spec_inode_bytes(n);
        match self.walk_direct(ib, 0) {
            WalkResult::OutOfRange => None,
            WalkResult::Stopped(b0) => Some(b0),
            WalkResult::Exhausted(b0) => match self.walk_ptr(le32(ib, 88), 1) {
                WalkResult::OutOfRange => None,
                WalkResult::Stopped(b1) => Some(b0 + b1),
                WalkResult::Exhausted(b1) => match self.walk_ptr(le32(ib, 92), 2) {
                    WalkResult::OutOfRange => None,
                    WalkResult::Stopped(b2) => Some(b0 + b1 + b2),
                    WalkResult::Exhausted(b2) => match self.walk_ptr(le32(ib, 96), 3) {
                        WalkResult::OutOfRange => None,
                        WalkResult::Stopped(b3) => Some(b0 + b1 + b2 + b3),
                        WalkResult::Exhausted(b3) => Some(b0 + b1 + b2 + b3),
                    },
                },
            },
        }
    }

    /// Appends `count` bytes of the image, starting at byte `start`, onto
    /// `ret`.
    fn append_bytes(&self, ret: &mut Vec<u8>, start: usize, count: usize)
        requires
            start + count <= self.data@.len(),
        ensures
            final(ret)@ == old(ret)@ + self.data@.subrange(start as int, start + count),
    {
        let ghost r0 = ret@;
        let dl = self.data.len();
        let mut j: usize = 0;
        while j < count
            invariant
                j <= count,
                start + count <= dl,
                dl == self.data@.len(),
                ret@ == r0 + self.data@.subrange(start as int, start + j),
            decreases count - j,
        {
            ret.push(self.data[start + j]);
            proof {
                assert(ret@ =~= r0 + self.data@.subrange(start as int, start + j + 1));
            }
            j = j + 1;
        }
    }

    /// Follows one block pointer at the given indirection level, appending
    /// the data it reaches onto `ret`. Returns `Ok(true)` when a zero
    /// sentinel stopped the walk, `Ok(false)` when the level was exhausted
    /// without one, and `BlockOutOfRange` when a nonzero pointer fell
    /// outside the image.
    fn read_ptr(&self, p: u32, level: u8, ret: &mut Vec<u8>) -> (r: Result<bool, Ext2Error>)
        requires
            self.wf(),
            level <= 3,
        ensures
            match r {
                Ok(b) => {
                    &&& final(ret)@.len() >= old(ret)@.len()
                    &&& final(ret)@.subrange(0, old(ret)@.len() as int) == old(ret)@
                    &&& if b {
                        self.walk_ptr(p as int, level as int) == WalkResult::Stopped(
                            final(ret)@.subrange(old(ret)@.len() as int, final(ret)@.len() as int),
                        )
                    } else {
                        self.walk_ptr(p as int, level as int) == WalkResult::Exhausted(
                            final(ret)@.subrange(old(ret)@.len() as int, final(ret)@.len() as int),
                        )
                    }
                },
                Err(e) => e == Ext2Error::BlockOutOfRange && self.walk_ptr(p as int, level as int)
                    == WalkResult::OutOfRange,
            },
        decreases level,
    {
        if p == 0 {
            proof {
                assert(ret@.subrange(0, ret@.len() as int) =~= ret@);
                assert(ret@.subrange(ret@.len() as int, ret@.len() as int) =~= Seq::<u8>::empty());
            }
            return Ok(true);
        }
        let pu = p as usize;
        if pu < self.block_offset || pu - self.block_offset >= self.block_count {
            return Err(Ext2Error::BlockOutOfRange);
        }
        let l = pu - self.block_offset;
        proof {
            lemma_block_in_data(*self, l as int);
        }
        let dl = self.data.len();
        let ds = self.data_start_x();
        let bs = self.block_size;
        let bstart = ds + l * bs;
        let ghost r0 = ret@;
        if level == 0 {
            self.append_bytes(ret, bstart, bs);
            proof {
                assert(ret@.subrange(0, r0.len() as int) =~= r0);
                assert(ret@.subrange(r0.len() as int, ret@.len() as int) =~= self.spec_ptr_block(
                    p as int,
                ));
            }
            return Ok(false);
        }
        let ghost bseq = self.spec_ptr_block(p as int);
        let ghost lvl = level as int - 1;
        let epb = bs / 4;
        proof {
            lemma_fundamental_div_mod(bs as int, 4);
            lemma_mod_bound(bs as int, 4);
            assert(self.walk_entries(bseq, 0, lvl) == walk_prepend(
                ret@.subrange(r0.len() as int, ret@.len() as int),
                self.walk_entries(bseq, 0, lvl),
            )) by {
                assert(ret@.subrange(r0.len() as int, ret@.len() as int) =~= Seq::<u8>::empty());
                lemma_walk_prepend_empty(self.walk_entries(bseq, 0, lvl));
            }
        }
        let mut i: usize = 0;
        while i < epb
            invariant
                self.wf(),
                1 <= level <= 3,
                lvl == level as int - 1,
                self.spec_valid_ptr(p as int),
                p != 0,
                bseq == self.spec_ptr_block(p as int),
                epb == self.spec_entries_per_block(),
                bs == self.block_size,
                ds == self.data_start(),
                l == p as int - self.block_offset,
                bstart == ds + l * bs,
                bstart + bs <= dl,
                dl == self.data@.len(),
                bseq == self.data@.subrange(bstart as int, bstart + bs),
                i <= epb,
                r0 == old(ret)@,
                ret@.len() >= r0.len(),
                ret@.subrange(0, r0.len() as int) == r0,
                self.walk_entries(bseq, 0, lvl) == walk_prepend(
                    ret@.subrange(r0.len() as int, ret@.len() as int),
                    self.walk_entries(bseq, i as int, lvl),
                ),
            decreases epb - i,
        {
            proof {
                lemma_fundamental_div_mod(bs as int, 4);
                lemma_mod_bound(bs as int, 4);
            }
            let q = read_le_u32(self.data.as_slice(), bstart + 4 * i);
            proof {
                assert(q == le32(bseq, 4 * (i as int)));
            }
            let ghost delta_before = ret@.subrange(r0.len() as int, ret@.len() as int);
            let ghost mid = ret@;
            match self.read_ptr(q, level - 1, ret) {
                Err(e) => {
                    return Err(e);
                },
                Ok(true) => {
                    proof {
                        let d_inner = ret@.subrange(mid.len() as int, ret@.len() as int);
                        assert(ret@.subrange(0, r0.len() as int) =~= r0);
                        assert(ret@.subrange(r0.len() as int, ret@.len() as int) =~= delta_before
                            + d_inner);
                        assert(self.walk_entries(bseq, i as int, lvl) == WalkResult::Stopped(
                            d_inner,
                        ));
                        assert(walk_prepend(delta_before, WalkResult::Stopped(d_inner))
                            == WalkResult::Stopped(delta_before + d_inner));
                        assert(self.walk_ptr(p as int, level as int) == self.walk_entries(
                            bseq,
                            0,
                            lvl,
                        ));
                    }
                    return Ok(true);
                },
                Ok(false) => {
                    proof {
                        let d_inner = ret@.subrange(mid.len() as int, ret@.len() as int);
                        assert(ret@.subrange(0, r0.len() as int) =~= r0);
                        assert(ret@.subrange(r0.len() as int, ret@.len() as int) =~= delta_before
                            + d_inner);
                        assert(self.walk_entries(bseq, i as int, lvl) == walk_prepend(
                            d_inner,
                            self.walk_entries(bseq, i as int + 1, lvl),
                        ));
                        lemma_walk_prepend_assoc(
                            delta_before,
                            d_inner,
                            self.walk_entries(bseq, i as int + 1, lvl),
                        );
                    }
                    i = i + 1;
                },
            }
        }
        proof {
            assert(self.walk_entries(bseq, epb as int, lvl) == WalkResult::Exhausted(
                Seq::<u8>::empty(),
            ));
            assert(ret@.subrange(r0.len() as int, ret@.len() as int) + Seq::<u8>::empty()
                =~= ret@.subrange(r0.len() as int, ret@.len() as int));
        }
        Ok(false)
    }
}

impl Ext2 {
    /// Reads the contents of the file a 1-indexed inode number names.
    ///
    /// Blocks are concatenated in pointer order: the twelve direct
    /// pointers, then the singly, doubly and triply indirect trees, each
    /// level visited only after the one before was exhausted without a
    /// sentinel. A zero pointer met at any level ends the whole stream with
    /// the bytes collected so far. Inode-resolution failures surface as
    /// from `get_inode`; a nonzero pointer outside the image fails with
    /// `BlockOutOfRange`.
    pub fn read_file_inode(&self, inode: usize) -> (r: Result<Vec<u8>, Ext2Error>)
        requires
            self.wf(),
            inode >= 1,
        ensures
            match r {
                Ok(bytes) => self.spec_inode_group(inode as int) < self.block_group_count
                    && self.spec_inode_in_range(inode as int) && self.spec_read_file(inode as int)
                    == Some(bytes@),
                Err(Ext2Error::InvalidInode) => self.spec_inode_group(inode as int)
                    >= self.block_group_count,
                Err(Ext2Error::BlockOutOfRange) => self.spec_inode_group(inode as int)
                    < self.block_group_count && (!self.spec_inode_in_range(inode as int)
                    || self.spec_read_file(inode as int) is None),
                _ => false,
            },
    {
        let ino = match self.get_inode(inode) {
            Ok(ino) => ino,
            Err(e) => {
                return Err(e);
            },
        };
        let ghost ib = self.spec_inode_bytes(inode as int);
        let mut ret: Vec<u8> = Vec::new();
        let mut i: usize = 0;
        while i < 12
            invariant
                self.wf(),
                inode >= 1,
                self.spec_inode_group(inode as int) < self.block_group_count,
                self.spec_inode_in_range(inode as int),
                ib == self.spec_inode_bytes(inode as int),
                inode_matches(ino, ib),
                i <= 12,
                self.walk_direct(ib, 0) == walk_prepend(ret@, self.walk_direct(ib, i as int)),
            decreases 12 - i,
        {
            let p = ino.direct_pointer[i];
            proof {
                assert(p == le32(ib, 40 + 4 * (i as int)));
            }
            let ghost before = ret@;
            match self.read_ptr(p, 0, &mut ret) {
                Err(e) => {
                    return Err(e);
                },
                Ok(true) => {
                    proof {
                        let d = ret@.subrange(before.len() as int, ret@.len() as int);
                        assert(ret@ =~= before + d);
                        assert(self.walk_direct(ib, i as int) == WalkResult::Stopped(d));
                        assert(self.spec_read_file(inode as int) == Some(ret@));
                    }
                    return Ok(ret);
                },
                Ok(false) => {
                    proof {
                        let d = ret@.subrange(before.len() as int, ret@.len() as int);
                        assert(ret@ =~= before + d);
                        assert(self.walk_direct(ib, i as int) == walk_prepend(
                            d,
                            self.walk_direct(ib, i as int + 1),
                        ));
                        lemma_walk_prepend_assoc(before, d, self.walk_direct(ib, i as int + 1));
                    }
                    i = i + 1;
                },
            }
        }
        proof {
            assert(self.walk_direct(ib, 12) == WalkResult::Exhausted(Seq::<u8>::empty()));
            assert(ret@ + Seq::<u8>::empty() =~= ret@);
            assert(self.walk_direct(ib, 0) == WalkResult::Exhausted(ret@));
            assert(ino.indirect_pointer == le32(ib, 88));
            assert(ino.doubly_indirect == le32(ib, 92));
            assert(ino.triply_indirect == le32(ib, 96));
        }
        let ghost b0 = ret@;
        match self.read_ptr(ino.indirect_pointer, 1, &mut ret) {
            Err(e) => {
                return Err(e);
            },
            Ok(true) => {
                proof {
                    let d = ret@.subrange(b0.len() as int, ret@.len() as int);
                    assert(ret@ =~= b0 + d);
                }
                return Ok(ret);
            },
            Ok(false) => {
                proof {
                    let d = ret@.subrange(b0.len() as int, ret@.len() as int);
                    assert(ret@ =~= b0 + d);
                }
            },
        }
        let ghost b1 = ret@;
        match self.read_ptr(ino.doubly_indirect, 2, &mut ret) {
            Err(e) => {
                return Err(e);
            },
            Ok(true) => {
                proof {
                    let d = ret@.subrange(b1.len() as int, ret@.len() as int);
                    assert(ret@ =~= b1 + d);
                }
                return Ok(ret);
            },
            Ok(false) => {
                proof {
                    let d = ret@.subrange(b1.len() as int, ret@.len() as int);
                    assert(ret@ =~= b1 + d);
                }
            },
        }
        let ghost b2 = ret@;
        match self.read_ptr(ino.triply_indirect, 3, &mut ret) {
            Err(e) => {
                return Err(e);
            },
            Ok(_) => {
                proof {
                    let d = ret@.subrange(b2.len() as int, ret@.len() as int);
                    assert(ret@ =~= b2 + d);
                }
                return Ok(ret);
            },
        }
    }
}

/// Prepending nothing leaves a walk outcome unchanged.
proof fn lemma_walk_prepend_empty(w: WalkResult)
    ensures
        walk_prepend(Seq::<u8>::empty(), w) == w,
{
    match w {
        WalkResult::Stopped(r) => {
            assert(Seq::<u8>::empty() + r =~= r);
        },
        WalkResult::Exhausted(r) => {
            assert(Seq::<u8>::empty() + r =~= r);
        },
        WalkResult::OutOfRange => {},
    }
}

/// The superblock magic field of a raw image buffer.
pub open spec fn spec_magic_of(d: Seq<u8>) -> int {
    le16(d, SUPERBLOCK_OFFSET + 56)
}

/// The block-size exponent of a raw image buffer.
pub open spec fn spec_log_block_size_of(d: Seq<u8>) -> int {
    le32(d, SUPERBLOCK_OFFSET + 24)
}

/// The block size, in bytes, that a raw image buffer declares.
pub open spec fn spec_block_size_of(d: Seq<u8>) -> int {
    1024 * pow2(spec_log_block_size_of(d) as nat) as int
}

/// The block-group count that a raw image buffer declares.
pub open spec fn spec_bgc_of(d: Seq<u8>) -> int {
    spec_div_ceil(le32(d, SUPERBLOCK_OFFSET + 4), le32(d, SUPERBLOCK_OFFSET + 32))
}

/// The superblock fields `open` requires to be in range: a supported block
/// size and nonzero group sizes, so the group and inode arithmetic divides
/// by nothing zero.
pub open spec fn spec_open_fields_ok(d: Seq<u8>) -> bool {
    &&& spec_log_block_size_of(d) <= MAX_LOG_BLOCK_SIZE
    &&& le32(d, SUPERBLOCK_OFFSET + 32) > 0
    &&& le32(d, SUPERBLOCK_OFFSET + 40) > 0
}

/// Whether the buffer holds the whole block-group descriptor table.
pub open spec fn spec_layout_fits(d: Seq<u8>) -> bool {
    (if spec_block_size_of(d) == 1024 {
        2int
    } else {
        1int
    }) * spec_block_size_of(d) + 32 * spec_bgc_of(d) <= d.len()
}

impl Ext2 {
    /// Opens a raw ext2 image.
    ///
    /// The superblock is decoded at byte offset 1024 and checked for the
    /// magic signature; the block-group descriptor table is decoded from the
    /// block following the superblock's containing block. `base_block_offset`
    /// says at which block of the conceptual device the buffer begins (0 for
    /// a self-contained image file); it is folded into `block_offset`, which
    /// is subtracted from every on-disk block pointer before indexing.
    ///
    /// Succeeds exactly when the buffer holds the superblock, the magic
    /// matches, the declared geometry is in range, and the buffer holds the
    /// whole descriptor table.
    pub fn new(data: Vec<u8>, base_block_offset: usize) -> (r: Result<Ext2, Ext2Error>)
        requires
            base_block_offset + 3 <= usize::MAX,
        ensures
            match r {
                Ok(img) => {
                    &&& data@.len() >= SUPERBLOCK_OFFSET + SUPERBLOCK_SIZE
                    &&& spec_magic_of(data@) == EXT2_MAGIC
                    &&& spec_open_fields_ok(data@)
                    &&& spec_layout_fits(data@)
                    &&& img.wf()
                    &&& img.data@ == data@
                    &&& img.block_offset == base_block_offset + img.data_start_block()
                    &&& img.block_group_count == spec_bgc_of(data@)
                },
                Err(Ext2Error::InvalidFilesystem) => data@.len() >= SUPERBLOCK_OFFSET
                    + SUPERBLOCK_SIZE && (spec_magic_of(data@) != EXT2_MAGIC
                    || !spec_open_fields_ok(data@)),
                Err(Ext2Error::TruncatedBuffer) => data@.len() < SUPERBLOCK_OFFSET
                    + SUPERBLOCK_SIZE || (spec_magic_of(data@) == EXT2_MAGIC
                    && spec_open_fields_ok(data@) && !spec_layout_fits(data@)),
                _ => false,
            },
    {
        let sb = match Superblock::decode(data.as_slice(), SUPERBLOCK_OFFSET) {
            Ok(sb) => sb,
            Err(e) => {
                return Err(e);
            },
        };
        let ghost d = data@;
        let ghost w = d.subrange(SUPERBLOCK_OFFSET as int, SUPERBLOCK_OFFSET + SUPERBLOCK_SIZE);
        proof {
            assert(sb.magic == spec_magic_of(d));
            assert(sb.log_block_size == spec_log_block_size_of(d));
            assert(sb.blocks_count == le32(d, SUPERBLOCK_OFFSET + 4));
            assert(sb.blocks_per_group == le32(d, SUPERBLOCK_OFFSET + 32));
            assert(sb.inodes_per_group == le32(d, SUPERBLOCK_OFFSET + 40));
        }
        if sb.magic != EXT2_MAGIC {
            return Err(Ext2Error::InvalidFilesystem);
        }
        if sb.log_block_size > MAX_LOG_BLOCK_SIZE || sb.blocks_per_group == 0
            || sb.inodes_per_group == 0 {
            return Err(Ext2Error::InvalidFilesystem);
        }
        let block_size_u64: u64 = 1024u64 << (sb.log_block_size as u64);
        proof {
            lemma2_to64();
            lemma_pow2_pos(sb.log_block_size as nat);
            if sb.log_block_size < 20 {
                lemma_pow2_strictly_increases(sb.log_block_size as nat, 20);
            }
            lemma_mul_inequality(1, pow2(sb.log_block_size as nat) as int, 1024);
            lemma_mul_inequality(pow2(sb.log_block_size as nat) as int, pow2(20) as int, 1024);
            lemma_u64_shl_is_mul(1024u64, sb.log_block_size as u64);
            assert(1024 <= block_size_u64 <= 0x4000_0000);
        }
        let block_size: usize = block_size_u64 as usize;
        let sbb: usize = if block_size == 1024 {
            1
        } else {
            0
        };
        let bgc_u64: u64 = ((sb.blocks_count as u64) + (sb.blocks_per_group as u64) - 1) / (
        sb.blocks_per_group as u64);
        proof {
            let bc = sb.blocks_count as int;
            let bpg = sb.blocks_per_group as int;
            if bc >= 1 {
                assert(bc + bpg - 1 <= bc * bpg) by (nonlinear_arith)
                    requires
                        bc >= 1,
                        bpg >= 1,
                ;
                lemma_div_is_ordered(bc + bpg - 1, bc * bpg, bpg);
                lemma_div_by_multiple(bc, bpg);
            } else {
                lemma_basic_div(bpg - 1, bpg);
            }
            assert(bgc_u64 <= u32::MAX);
        }
        let bgc: usize = bgc_u64 as usize;
        let dlen = data.len();
        let bgdt_start: usize = if block_size == 1024 {
            2048
        } else {
            block_size
        };
        proof {
            assert(bgdt_start == (sbb + 1) * block_size);
        }
        if (bgdt_start as u64) + 32u64 * (bgc as u64) > (dlen as u64) {
            return Err(Ext2Error::TruncatedBuffer);
        }
        let mut block_groups: Vec<BlockGroupDescriptor> = Vec::new();
        let mut i: usize = 0;
        while i < bgc
            invariant
                i <= bgc,
                block_groups@.len() == i,
                dlen == data@.len(),
                bgdt_start + 32 * bgc <= dlen,
                forall|j: int|
                    0 <= j < i ==> block_group_descriptor_matches(
                        #[trigger] block_groups@[j],
                        data@.subrange(bgdt_start + 32 * j, bgdt_start + 32 * j + 32),
                    ),
            decreases bgc - i,
        {
            let off = bgdt_start + 32 * i;
            let bg = match BlockGroupDescriptor::decode(data.as_slice(), off) {
                Ok(bg) => bg,
                Err(e) => {
                    proof {
                        assert(false);
                    }
                    return Err(e);
                },
            };
            block_groups.push(bg);
            i = i + 1;
        }
        let data_start: usize = if block_size == 1024 {
            3072
        } else {
            2 * block_size
        };
        proof {
            assert(data_start == (sbb + 2) * block_size);
        }
        let avail_u64: u64 =if (dlen as u64) >= (data_start as u64) {
            ((dlen as u64) - (data_start as u64)) / (block_size as u64)
        } else {
            0
        };
        let bcount_u64: u64 = if (sb.blocks_count as u64) <= avail_u64 {
            sb.blocks_count as u64
        } else {
            avail_u64
        };
        let block_count: usize = bcount_u64 as usize;
        let block_offset: usize = base_block_offset + sbb + 2;
        let img = Ext2 {
            data,
            superblock: sb,
            block_groups,
            block_size,
            block_group_count: bgc,
            block_count,
            block_offset,
        };
        proof {
            assert(img.sb_block() == sbb);
            if img.block_count > 0 {
                let ds = img.data_start();
                let bs = img.block_size as int;
                let avail = img.spec_avail_blocks();
                lemma_mul_inequality(img.block_count as int, avail, bs);
                assert(d.len() >= ds);
                lemma_fundamental_div_mod(d.len() - ds, bs);
                lemma_mod_bound(d.len() - ds, bs);
                assert(avail * bs == bs * avail) by (nonlinear_arith);
                assert(avail * bs <= d.len() - ds);
            }
            assert(img.wf());
        }
        Ok(img)
    }
}

} // verus!

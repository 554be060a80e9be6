//! End-to-end tests over a small hand-built ext2 image: one block group,
//! 1024-byte blocks, an inode table at device block 5, a root directory and
//! a handful of files.

use ext2_reader::ext2::Ext2;
use ext2_reader::Ext2Error;

const BLOCK: usize = 1024;
const BLOCKS: usize = 64;

fn w16(v: &mut [u8], off: usize, x: u16) {
    v[off] = x as u8;
    v[off + 1] = (x >> 8) as u8;
}

fn w32(v: &mut [u8], off: usize, x: u32) {
    v[off] = x as u8;
    v[off + 1] = (x >> 8) as u8;
    v[off + 2] = (x >> 16) as u8;
    v[off + 3] = (x >> 24) as u8;
}

/// Fills block `b` (a device block number, before any base shift) with a
/// recognizable pattern.
fn fill_block(img: &mut [u8], b: usize, seed: u8) {
    for j in 0..BLOCK {
        img[b * BLOCK + j] = seed.wrapping_add((j % 251) as u8);
    }
}

fn expected_block(seed: u8) -> Vec<u8> {
    (0..BLOCK).map(|j| seed.wrapping_add((j % 251) as u8)).collect()
}

/// Writes one 128-byte inode record. `number` is the 1-indexed inode
/// number; the table sits at device block 5.
fn write_inode(
    img: &mut [u8],
    number: usize,
    type_perm: u16,
    size_low: u32,
    direct: &[u32],
    indirect: u32,
) {
    let base = 5 * BLOCK + (number - 1) * 128;
    w16(img, base, type_perm);
    w32(img, base + 4, size_low);
    for (k, p) in direct.iter().enumerate() {
        w32(img, base + 40 + 4 * k, *p);
    }
    w32(img, base + 88, indirect);
}

/// Writes one directory entry at `off` inside block `b`; returns the next
/// entry's offset.
fn write_dirent(img: &mut [u8], b: usize, off: usize, inode: u32, name: &[u8]) -> usize {
    let entry_size = ((8 + name.len() + 3) / 4 * 4) as u16;
    let base = b * BLOCK + off;
    w32(img, base, inode);
    w16(img, base + 4, entry_size);
    img[base + 6] = name.len() as u8;
    img[base + 7] = if inode == 11 { 1 } else { 2 };
    img[base + 8..base + 8 + name.len()].copy_from_slice(name);
    off + entry_size as usize
}

/// Builds the test image. `shift` is added to every stored block pointer;
/// opening the image with `base_block_offset == shift` must then behave
/// identically to the unshifted image opened with base 0.
fn build_image_with_shift(shift: u32) -> Vec<u8> {
    let mut img = vec![0u8; BLOCKS * BLOCK];
    // superblock at byte 1024
    let sb = 1024;
    w32(&mut img, sb, 16); // inodes_count
    w32(&mut img, sb + 4, BLOCKS as u32); // blocks_count
    w32(&mut img, sb + 20, 1); // first_data_block
    w32(&mut img, sb + 24, 0); // log_block_size -> 1024-byte blocks
    w32(&mut img, sb + 32, BLOCKS as u32); // blocks_per_group
    w32(&mut img, sb + 40, 16); // inodes_per_group
    w16(&mut img, sb + 56, 0xEF53); // magic
    w16(&mut img, sb + 88, 128); // inode_size
    // one block-group descriptor at byte 2048
    w32(&mut img, 2048 + 8, 5 + shift); // inode_table_block
    // root directory: inode 2, one data block at device block 7
    write_inode(&mut img, 2, 0x41ED, 44, &[7 + shift], 0);
    let mut off = write_dirent(&mut img, 7, 0, 2, b".");
    off = write_dirent(&mut img, 7, off, 2, b"..");
    off = write_dirent(&mut img, 7, off, 11, b"hello.txt");
    assert_eq!(off, 44);
    // a one-block regular file: inode 11, data at device block 8
    write_inode(&mut img, 11, 0x81A4, 13, &[8 + shift], 0);
    fill_block(&mut img, 8, 1);
    img[8 * BLOCK..8 * BLOCK + 13].copy_from_slice(b"Hello, world!");
    // an empty directory: inode 12
    write_inode(&mut img, 12, 0x41ED, 0, &[], 0);
    // a three-block regular file: inode 13, blocks 10..13
    write_inode(
        &mut img,
        13,
        0x81A4,
        3 * BLOCK as u32,
        &[10 + shift, 11 + shift, 12 + shift],
        0,
    );
    fill_block(&mut img, 10, 10);
    fill_block(&mut img, 11, 11);
    fill_block(&mut img, 12, 12);
    // a file of exactly 12 direct blocks plus 1 via the singly indirect
    // pointer: inode 14, direct blocks 20..32, pointer block 33, data 34
    let direct: Vec<u32> = (20..32).map(|b| b + shift).collect();
    write_inode(&mut img, 14, 0x81A4, 13 * BLOCK as u32, &direct, 33 + shift);
    for b in 20..32 {
        fill_block(&mut img, b, b as u8);
    }
    w32(&mut img, 33 * BLOCK, 34 + shift);
    w32(&mut img, 33 * BLOCK + 4, 0); // sentinel
    fill_block(&mut img, 34, 34);
    // a file whose 12 direct blocks are full and whose indirect pointer is
    // the zero sentinel: inode 15
    write_inode(&mut img, 15, 0x81A4, 12 * BLOCK as u32, &direct, 0);
    // a file pointing outside the image: inode 16
    write_inode(&mut img, 16, 0x81A4, BLOCK as u32, &[100 + shift], 0);
    img
}

fn build_image() -> Vec<u8> {
    build_image_with_shift(0)
}

fn open_image() -> Ext2 {
    Ext2::new(build_image(), 0).expect("the test image is a valid filesystem")
}

#[test]
fn open_accepts_valid_image() {
    let img = open_image();
    assert_eq!(img.block_size, 1024);
    assert_eq!(img.block_group_count, 1);
    assert_eq!(img.block_offset, 3);
    assert_eq!(img.superblock.magic, 0xEF53);
    assert_eq!(img.superblock.blocks_count, 64);
    assert_eq!(img.superblock.inodes_per_group, 16);
    assert_eq!(img.block_groups.len(), 1);
    assert_eq!(img.block_groups[0].inode_table_block, 5);
}

#[test]
fn open_rejects_bad_magic() {
    let mut bytes = build_image();
    bytes[1024 + 56] = 0x54; // decodes to 0xEF54
    match Ext2::new(bytes, 0) {
        Err(Ext2Error::InvalidFilesystem) => {},
        other => panic!("expected InvalidFilesystem, got {:?}", other.map(|_| ())),
    }
}

#[test]
fn open_rejects_truncated_buffer() {
    let bytes = vec![0u8; 1000];
    match Ext2::new(bytes, 0) {
        Err(Ext2Error::TruncatedBuffer) => {},
        other => panic!("expected TruncatedBuffer, got {:?}", other.map(|_| ())),
    }
}

#[test]
fn open_rejects_zero_blocks_per_group() {
    let mut bytes = build_image();
    w32(&mut bytes, 1024 + 32, 0);
    match Ext2::new(bytes, 0) {
        Err(Ext2Error::InvalidFilesystem) => {},
        other => panic!("expected InvalidFilesystem, got {:?}", other.map(|_| ())),
    }
}

#[test]
fn block_group_count_rounds_up() {
    // 65 blocks over groups of 64: two groups
    let mut bytes = build_image();
    w32(&mut bytes, 1024 + 4, 65);
    let img = Ext2::new(bytes, 0).unwrap();
    assert_eq!(img.block_group_count, 2);
}

#[test]
fn block_group_count_exact_multiple() {
    // 64 blocks over groups of 64: exactly one group, no empty extra
    let img = open_image();
    assert_eq!(img.block_group_count, 1);
    // 128 blocks over groups of 64: exactly two
    let mut bytes = build_image();
    w32(&mut bytes, 1024 + 4, 128);
    let img = Ext2::new(bytes, 0).unwrap();
    assert_eq!(img.block_group_count, 2);
}

#[test]
fn block_lookup_in_and_out_of_range() {
    let img = open_image();
    // 61 whole blocks follow the descriptor table's block
    let b = img.block(0).unwrap();
    assert_eq!(b.len(), 1024);
    assert!(img.block(60).is_ok());
    assert_eq!(img.block(61).unwrap_err(), Ext2Error::BlockOutOfRange);
}

#[test]
fn root_inode_is_a_directory() {
    let img = open_image();
    let root = img.get_inode(2).unwrap();
    assert!(root.is_directory());
    assert!(!root.is_regular_file());
    assert_eq!(root.size_low, 44);
}

#[test]
fn inode_past_last_group_is_invalid() {
    let img = open_image();
    // inodes_per_group is 16 and there is one group, so inode 17 resolves
    // to group 1, past the descriptor table
    assert_eq!(img.get_inode(17).unwrap_err(), Ext2Error::InvalidInode);
}

#[test]
fn inode_table_before_base_is_out_of_range() {
    let mut bytes = build_image();
    w32(&mut bytes, 2048 + 8, 2); // inode table "before" logical block 0
    let img = Ext2::new(bytes, 0).unwrap();
    assert_eq!(img.get_inode(2).unwrap_err(), Ext2Error::BlockOutOfRange);
}

#[test]
fn directory_listing_in_disk_order() {
    let img = open_image();
    let entries = img.read_dir_inode(2).unwrap();
    assert_eq!(entries.len(), 3);
    assert_eq!(entries[0].inode, 2);
    assert_eq!(entries[0].name, b".".to_vec());
    assert_eq!(entries[1].inode, 2);
    assert_eq!(entries[1].name, b"..".to_vec());
    assert_eq!(entries[2].inode, 11);
    assert_eq!(entries[2].name, b"hello.txt".to_vec());
    assert_eq!(entries[2].name_length, 9);
}

#[test]
fn directory_entry_that_cannot_advance_is_malformed() {
    let mut bytes = build_image();
    w16(&mut bytes, 7 * BLOCK + 4, 0); // first entry's entry_size becomes 0
    let img = Ext2::new(bytes, 0).unwrap();
    assert_eq!(img.read_dir_inode(2).unwrap_err(), Ext2Error::TruncatedBuffer);
}

#[test]
fn directory_without_data_block_is_out_of_range() {
    let mut bytes = build_image();
    // root keeps size_low == 44 but loses its first direct pointer
    w32(&mut bytes, 5 * BLOCK + 128 + 40, 0);
    let img = Ext2::new(bytes, 0).unwrap();
    assert_eq!(img.read_dir_inode(2).unwrap_err(), Ext2Error::BlockOutOfRange);
}

#[test]
fn empty_directory_lists_nothing() {
    let img = open_image();
    let entries = img.read_dir_inode(12).unwrap();
    assert_eq!(entries.len(), 0);
}

#[test]
fn one_block_file_reads_its_block() {
    let img = open_image();
    let content = img.read_file_inode(11).unwrap();
    let mut expected = expected_block(1);
    expected[..13].copy_from_slice(b"Hello, world!");
    assert_eq!(content, expected);
    assert_eq!(&content[..13], b"Hello, world!");
}

#[test]
fn direct_blocks_round_trip() {
    let img = open_image();
    let content = img.read_file_inode(13).unwrap();
    let mut expected = expected_block(10);
    expected.extend(expected_block(11));
    expected.extend(expected_block(12));
    assert_eq!(content.len(), 3 * 1024);
    assert_eq!(content, expected);
}

#[test]
fn singly_indirect_boundary_reads_thirteen_blocks() {
    let img = open_image();
    let content = img.read_file_inode(14).unwrap();
    assert_eq!(content.len(), 13 * 1024);
    let mut expected = Vec::new();
    for b in 20..32u8 {
        expected.extend(expected_block(b));
    }
    expected.extend(expected_block(34));
    assert_eq!(content, expected);
}

#[test]
fn zero_indirect_pointer_stops_after_direct_blocks() {
    let img = open_image();
    let content = img.read_file_inode(15).unwrap();
    assert_eq!(content.len(), 12 * 1024);
}

#[test]
fn pointer_outside_image_is_out_of_range() {
    let img = open_image();
    assert_eq!(img.read_file_inode(16).unwrap_err(), Ext2Error::BlockOutOfRange);
}

/// Builds a larger image (600 blocks) holding one file that fills its 12
/// direct blocks and its whole singly-indirect block (256 pointers), then
/// continues into the doubly-indirect tree, where a zero sentinel ends the
/// stream after one more data block.
fn build_large_image() -> Vec<u8> {
    let blocks: usize = 600;
    let mut img = vec![0u8; blocks * BLOCK];
    let sb = 1024;
    w32(&mut img, sb, 16);
    w32(&mut img, sb + 4, blocks as u32);
    w32(&mut img, sb + 24, 0);
    w32(&mut img, sb + 32, blocks as u32);
    w32(&mut img, sb + 40, 16);
    w16(&mut img, sb + 56, 0xEF53);
    w32(&mut img, 2048 + 8, 5); // inode_table_block
    // inode 3: the big file
    let base = 5 * BLOCK + 2 * 128;
    w16(&mut img, base, 0x8180);
    w32(&mut img, base + 4, 269 * BLOCK as u32);
    for k in 0..12 {
        w32(&mut img, base + 40 + 4 * k, 20 + k as u32);
        fill_block(&mut img, 20 + k, (20 + k) as u8);
    }
    w32(&mut img, base + 88, 40); // singly indirect: block 40, full
    for e in 0..256usize {
        let data = 100 + e;
        w32(&mut img, 40 * BLOCK + 4 * e, data as u32);
        fill_block(&mut img, data, data as u8);
    }
    w32(&mut img, base + 92, 41); // doubly indirect: block 41
    w32(&mut img, 41 * BLOCK, 42); // first singly-indirect child
    w32(&mut img, 42 * BLOCK, 460); // one data block, then the sentinel
    w32(&mut img, 42 * BLOCK + 4, 0);
    fill_block(&mut img, 460, 204);
    img
}

#[test]
fn doubly_indirect_tree_reads_until_sentinel() {
    let img = Ext2::new(build_large_image(), 0).unwrap();
    let content = img.read_file_inode(3).unwrap();
    assert_eq!(content.len(), 269 * 1024);
    let mut expected = Vec::new();
    for k in 0..12usize {
        expected.extend(expected_block((20 + k) as u8));
    }
    for e in 0..256usize {
        expected.extend(expected_block((100 + e) as u8));
    }
    expected.extend(expected_block(204));
    assert_eq!(content, expected);
}

#[test]
fn base_block_offset_shifts_every_pointer() {
    let img = Ext2::new(build_image_with_shift(5), 5).unwrap();
    assert_eq!(img.block_offset, 8);
    let entries = img.read_dir_inode(2).unwrap();
    assert_eq!(entries.len(), 3);
    assert_eq!(entries[2].name, b"hello.txt".to_vec());
    let content = img.read_file_inode(13).unwrap();
    let mut expected = expected_block(10);
    expected.extend(expected_block(11));
    expected.extend(expected_block(12));
    assert_eq!(content, expected);
}

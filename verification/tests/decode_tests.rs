//! Unit tests of the byte-layout decoders: every field read at its
//! documented offset, little-endian, independent of any host layout.

use ext2_reader::structs::{
    BlockGroupDescriptor, DirectoryEntry, Inode, Superblock, TypeIndicator, TypePerm,
    type_indicator_of,
};
use ext2_reader::Ext2Error;

fn w16(v: &mut [u8], off: usize, x: u16) {
    v[off] = x as u8;
    v[off + 1] = (x >> 8) as u8;
}

fn w32(v: &mut [u8], off: usize, x: u32) {
    v[off] = x as u8;
    v[off + 1] = (x >> 8) as u8;
    v[off + 2] = (x >> 16) as u8;
    v[off + 3] = (x >> 24) as u8;
}

#[test]
fn superblock_fields_decode_at_their_offsets() {
    let mut b = vec![0u8; 300];
    w32(&mut b, 0, 0x11223344); // inodes_count
    w32(&mut b, 4, 2048); // blocks_count
    w32(&mut b, 24, 2); // log_block_size
    w32(&mut b, 32, 512); // blocks_per_group
    w32(&mut b, 40, 128); // inodes_per_group
    w16(&mut b, 52, 7); // mnt_count
    w16(&mut b, 56, 0xEF53); // magic
    w16(&mut b, 88, 256); // inode_size
    for k in 0..16 {
        b[104 + k] = 0xA0 + k as u8; // fs_id
    }
    b[120..125].copy_from_slice(b"myvol"); // volume_name
    b[204] = 3; // prealloc_blocks_files
    b[205] = 4; // prealloc_blocks_dirs
    w32(&mut b, 224, 9); // journal_inode
    let sb = Superblock::decode(&b, 0).unwrap();
    assert_eq!(sb.inodes_count, 0x11223344);
    assert_eq!(sb.blocks_count, 2048);
    assert_eq!(sb.log_block_size, 2);
    assert_eq!(sb.blocks_per_group, 512);
    assert_eq!(sb.inodes_per_group, 128);
    assert_eq!(sb.mnt_count, 7);
    assert_eq!(sb.magic, 0xEF53);
    assert_eq!(sb.inode_size, 256);
    assert_eq!(sb.fs_id[0], 0xA0);
    assert_eq!(sb.fs_id[15], 0xAF);
    assert_eq!(&sb.volume_name[..5], b"myvol");
    assert_eq!(sb.prealloc_blocks_files, 3);
    assert_eq!(sb.prealloc_blocks_dirs, 4);
    assert_eq!(sb.journal_inode, 9);
}

#[test]
fn superblock_decode_needs_its_full_schema() {
    let b = vec![0u8; 235];
    assert_eq!(Superblock::decode(&b, 0).unwrap_err(), Ext2Error::TruncatedBuffer);
    let b = vec![0u8; 300];
    assert_eq!(Superblock::decode(&b, 100).unwrap_err(), Ext2Error::TruncatedBuffer);
    assert!(Superblock::decode(&b, 64).is_ok());
}

#[test]
fn block_group_descriptor_decodes() {
    let mut b = vec![0u8; 32];
    w32(&mut b, 0, 301); // block_usage_addr
    w32(&mut b, 4, 302); // inode_usage_addr
    w32(&mut b, 8, 303); // inode_table_block
    w16(&mut b, 12, 41); // free_blocks_count
    w16(&mut b, 14, 42); // free_inodes_count
    w16(&mut b, 16, 5); // dirs_count
    let bg = BlockGroupDescriptor::decode(&b, 0).unwrap();
    assert_eq!(bg.block_usage_addr, 301);
    assert_eq!(bg.inode_usage_addr, 302);
    assert_eq!(bg.inode_table_block, 303);
    assert_eq!(bg.free_blocks_count, 41);
    assert_eq!(bg.free_inodes_count, 42);
    assert_eq!(bg.dirs_count, 5);
    assert_eq!(
        BlockGroupDescriptor::decode(&b, 1).unwrap_err(),
        Ext2Error::TruncatedBuffer
    );
}

#[test]
fn inode_record_decodes() {
    let mut b = vec![0u8; 128];
    w16(&mut b, 0, 0x81ED); // type_perm: regular file
    w32(&mut b, 4, 4096); // size_low
    w16(&mut b, 26, 2); // hard_links
    for k in 0..12 {
        w32(&mut b, 40 + 4 * k, 100 + k as u32);
    }
    w32(&mut b, 88, 200); // indirect_pointer
    w32(&mut b, 92, 201); // doubly_indirect
    w32(&mut b, 96, 202); // triply_indirect
    w32(&mut b, 108, 1); // size_high
    let ino = Inode::decode(&b, 0).unwrap();
    assert_eq!(ino.type_perm, TypePerm(0x81ED));
    assert_eq!(ino.size_low, 4096);
    assert_eq!(ino.hard_links, 2);
    for k in 0..12 {
        assert_eq!(ino.direct_pointer[k], 100 + k as u32);
    }
    assert_eq!(ino.indirect_pointer, 200);
    assert_eq!(ino.doubly_indirect, 201);
    assert_eq!(ino.triply_indirect, 202);
    assert_eq!(ino.size_high, 1);
    assert!(ino.is_regular_file());
    assert!(!ino.is_directory());
}

#[test]
fn directory_entry_decodes() {
    let mut b = vec![0u8; 32];
    w32(&mut b, 0, 11); // inode
    w16(&mut b, 4, 20); // entry_size
    b[6] = 9; // name_length
    b[7] = 1; // type: regular
    b[8..17].copy_from_slice(b"hello.txt");
    let e = DirectoryEntry::decode(&b, 0).unwrap();
    assert_eq!(e.inode, 11);
    assert_eq!(e.entry_size, 20);
    assert_eq!(e.name_length, 9);
    assert_eq!(e.type_indicator, TypeIndicator::Regular);
    assert_eq!(e.name, b"hello.txt".to_vec());
}

#[test]
fn directory_entry_name_must_fit() {
    let mut b = vec![0u8; 12];
    w32(&mut b, 0, 11);
    w16(&mut b, 4, 12);
    b[6] = 9; // name would run past the 12-byte buffer
    assert_eq!(DirectoryEntry::decode(&b, 0).unwrap_err(), Ext2Error::TruncatedBuffer);
}

#[test]
fn type_indicator_bytes() {
    assert_eq!(type_indicator_of(0), TypeIndicator::Unknown);
    assert_eq!(type_indicator_of(1), TypeIndicator::Regular);
    assert_eq!(type_indicator_of(2), TypeIndicator::Directory);
    assert_eq!(type_indicator_of(3), TypeIndicator::Character);
    assert_eq!(type_indicator_of(4), TypeIndicator::Block);
    assert_eq!(type_indicator_of(5), TypeIndicator::Fifo);
    assert_eq!(type_indicator_of(6), TypeIndicator::Socket);
    assert_eq!(type_indicator_of(7), TypeIndicator::Symlink);
    assert_eq!(type_indicator_of(200), TypeIndicator::Unknown);
}

#[test]
fn type_tests_are_masked_equality_and_exclusive() {
    // every defined type constant, with permission bits mixed in
    let types: [u16; 7] = [0x1000, 0x2000, 0x4000, 0x6000, 0x8000, 0xA000, 0xC000];
    for t in types {
        let tp = TypePerm(t | 0x01ED);
        assert!(!(tp.is_directory() && tp.is_regular_file()));
        assert_eq!(tp.is_directory(), t == 0x4000);
        assert_eq!(tp.is_regular_file(), t == 0x8000);
    }
    // a block device is not a directory, though its bits contain 0x4000
    assert!(!TypePerm(0x6000).is_directory());
    assert!(TypePerm(0xA1FF).is_symlink());
}

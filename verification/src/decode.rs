//! Little-endian field readers over a byte buffer.
//!
//! All on-disk integers of the ext2 format are little-endian. Each reader
//! takes an explicit byte offset, so decoding never depends on the host
//! platform's struct packing or alignment.

use vstd::prelude::*;

verus! {

/// The little-endian 16-bit integer held at `s[off]` and `s[off + 1]`.
pub open spec fn le16(s: Seq<u8>, off: int) -> int {
    s[off] + 256 * s[off + 1]
}

/// The little-endian 32-bit integer held at `s[off]` through `s[off + 3]`.
pub open spec fn le32(s: Seq<u8>, off: int) -> int {
    s[off] + 256 * s[off + 1] + 65536 * s[off + 2] + 16777216 * s[off + 3]
}

/// Reads the little-endian 16-bit integer at byte offset `off`.
pub fn read_le_u16(data: &[u8], off: usize) -> (r: u16)
    requires
        off + 2 <= data@.len(),
    ensures
        r == le16(data@, off as int),
{
    let lo = data[off];
    let hi = data[off + 1];
    lo as u16 + 256 * (hi as u16)
}

/// Reads the little-endian 32-bit integer at byte offset `off`.
pub fn read_le_u32(data: &[u8], off: usize) -> (r: u32)
    requires
        off + 4 <= data@.len(),
    ensures
        r == le32(data@, off as int),
{
    let b0 = data[off];
    let b1 = data[off + 1];
    let b2 = data[off + 2];
    let b3 = data[off + 3];
    b0 as u32 + 256 * (b1 as u32) + 65536 * (b2 as u32) + 16777216 * (b3 as u32)
}

/// Copies `data[off .. off + len]` into an owned vector.
pub fn read_bytes(data: &[u8], off: usize, len: usize) -> (r: Vec<u8>)
    requires
        off + len <= data@.len(),
    ensures
        r@ == data@.subrange(off as int, off + len),
{
    let dlen: usize = data.len();
    let mut r: Vec<u8> = Vec::new();
    let mut j: usize = 0;
    while j < len
        invariant
            j <= len,
            off + len <= dlen,
            dlen == data@.len(),
            r@ == data@.subrange(off as int, off + j),
        decreases len - j,
    {
        r.push(data[off + j]);
        assert(r@ =~= data@.subrange(off as int, off + j + 1));
        j = j + 1;
    }
    r
}

} // verus!

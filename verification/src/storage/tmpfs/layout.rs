//! Where things sit on a formatted device, as spec functions over its blocks.
use vstd::prelude::*;

use crate::bytes::{le_u16, le_u32, splice};
use crate::storage::block::{Block512, BlockDevice};
use crate::storage::error::{FsError, FsResult};
use crate::storage::tmpfs::superblock::Superblock;

verus! {

pub const BLOCK_SIZE: usize = 512;
pub const INODE_SIZE: usize = 32;
pub const DIRENTRY_SIZE: usize = 32;
pub const INODES_PER_BLOCK: usize = 16;
pub const DIRENTRIES_PER_BLOCK: usize = 16;

/// `blocks` with `bytes` written at byte `off` of block `b`.
pub open spec fn splice_block(blocks: Seq<Seq<u8>>, b: int, off: int, bytes: Seq<u8>) -> Seq<
    Seq<u8>,
> {
    blocks.update(b, splice(blocks[b], off, bytes))
}

/// Whether bit `k` (0 = least significant) of `byte` is set.
pub open spec fn bit_of(byte: u8, k: int) -> bool {
    (byte >> (k as u8)) & 1u8 == 1u8
}

/// Whether bit `i` of the bitmap kept in `bm` is set (bit `i % 8` of byte `i / 8`).
pub open spec fn bitmap_bit(bm: Seq<u8>, i: int) -> bool {
    bit_of(bm[i / 8], i % 8)
}

/// Bit `i` is the first clear one of `bm` below `limit`.
pub open spec fn first_clear_bit(bm: Seq<u8>, limit: int, i: int) -> bool {
    &&& 0 <= i < limit
    &&& !bitmap_bit(bm, i)
    &&& forall|j: int| 0 <= j < i ==> bitmap_bit(bm, j)
}

/// Some bit of `bm` below `limit` is clear.
pub open spec fn has_clear_bit(bm: Seq<u8>, limit: int) -> bool {
    exists|i: int| 0 <= i < limit && !bitmap_bit(bm, i)
}

/// The first clear bit of `bm` below `limit`, where there is one.
pub open spec fn the_first_clear_bit(bm: Seq<u8>, limit: int) -> int {
    choose|i: int| first_clear_bit(bm, limit, i)
}

pub proof fn lemma_first_clear_bit(bm: Seq<u8>, limit: int)
    requires
        has_clear_bit(bm, limit),
    ensures
        first_clear_bit(bm, limit, the_first_clear_bit(bm, limit)),
        forall|i: int| first_clear_bit(bm, limit, i) ==> i == the_first_clear_bit(bm, limit),
{
    let w = choose|i: int| 0 <= i < limit && !bitmap_bit(bm, i);
    lemma_first_clear_from(bm, limit, 0, w);
    assert forall|i: int| first_clear_bit(bm, limit, i) implies i == the_first_clear_bit(bm, limit) by {
        let f = the_first_clear_bit(bm, limit);
        if i < f {
            assert(bitmap_bit(bm, i));
        } else if f < i {
            assert(bitmap_bit(bm, f));
        }
    }
}

proof fn lemma_first_clear_from(bm: Seq<u8>, limit: int, k: int, w: int)
    requires
        0 <= k <= w < limit,
        !bitmap_bit(bm, w),
        forall|j: int| 0 <= j < k ==> bitmap_bit(bm, j),
    ensures
        exists|i: int| first_clear_bit(bm, limit, i),
    decreases w - k,
{
    if !bitmap_bit(bm, k) {
        assert(first_clear_bit(bm, limit, k));
    } else {
        lemma_first_clear_from(bm, limit, k + 1, w);
    }
}

/// `byte` with bit `k` set.
pub open spec fn with_bit(byte: u8, k: int) -> u8 {
    byte | (1u8 << (k as u8))
}

/// `byte` with bit `k` cleared.
pub open spec fn without_bit(byte: u8, k: int) -> u8 {
    byte & !(1u8 << (k as u8))
}

pub proof fn lemma_with_bit(byte: u8, k: u8)
    requires
        k < 8,
    ensures
        bit_of(with_bit(byte, k as int), k as int),
        forall|j: u8| j < 8 && j != k ==> bit_of(with_bit(byte, k as int), j as int) == bit_of(byte, j as int),
{
    assert((((byte | (1u8 << k)) >> k) & 1u8) == 1u8) by (bit_vector)
        requires
            k < 8,
    ;
    assert forall|j: u8| j < 8 && j != k implies bit_of(with_bit(byte, k as int), j as int) == bit_of(byte, j as int) by {
        assert((((byte | (1u8 << k)) >> j) & 1u8) == ((byte >> j) & 1u8)) by (bit_vector)
            requires
                k < 8,
                j < 8,
                j != k,
        ;
    }
}

pub proof fn lemma_without_bit(byte: u8, k: u8)
    requires
        k < 8,
    ensures
        !bit_of(without_bit(byte, k as int), k as int),
        forall|j: u8| j < 8 && j != k ==> bit_of(without_bit(byte, k as int), j as int) == bit_of(byte, j as int),
{
    assert((((byte & !(1u8 << k)) >> k) & 1u8) == 0u8) by (bit_vector)
        requires
            k < 8,
    ;
    assert forall|j: u8| j < 8 && j != k implies bit_of(without_bit(byte, k as int), j as int) == bit_of(byte, j as int) by {
        assert((((byte & !(1u8 << k)) >> j) & 1u8) == ((byte >> j) & 1u8)) by (bit_vector)
            requires
                k < 8,
                j < 8,
                j != k,
        ;
    }
}

/// The byte offset of inode `idx` inside its block.
pub open spec fn inode_slot(idx: int) -> int {
    (idx % 16) * 32
}

/// The block that holds inode `idx`.
pub open spec fn inode_block_of(sb: Superblock, idx: int) -> int {
    sb.spec_inode_start() + idx / 16
}

/// The block that holds data block `rel` (numbered from the data area).
pub open spec fn data_block_of(sb: Superblock, rel: int) -> int {
    sb.spec_data_start() + rel
}

/// The 32 bytes of inode `idx` on `disk`.
pub open spec fn inode_in(disk: Seq<Seq<u8>>, sb: Superblock, idx: int) -> Seq<u8> {
    disk[inode_block_of(sb, idx)].subrange(inode_slot(idx), inode_slot(idx) + 32)
}

/// Whether inode `idx` can be read on `disk`: it is below the inode count
/// and its block exists.
pub open spec fn readable_in(disk: Seq<Seq<u8>>, sb: Superblock, idx: int) -> bool {
    idx < sb.spec_inode_count() && inode_block_of(sb, idx) < disk.len()
}

/// Inode allocation, scanning from inode 1, stops at `i`: inode
/// `i % 65536` cannot be read or is free.
pub open spec fn inode_stop_in(disk: Seq<Seq<u8>>, sb: Superblock, i: int) -> bool {
    !readable_in(disk, sb, i % 0x1_0000) || ino_is_free(inode_in(disk, sb, i % 0x1_0000))
}

/// `i` is the first number from 1 at which inode allocation stops.
pub open spec fn first_inode_stop_in(disk: Seq<Seq<u8>>, sb: Superblock, i: int) -> bool {
    &&& 1 <= i < sb.spec_inode_count()
    &&& inode_stop_in(disk, sb, i)
    &&& forall|j: int| 1 <= j < i ==> !#[trigger] inode_stop_in(disk, sb, j)
}

/// What inode allocation gives on `disk`: the first free inode from 1 on,
/// an error where the scan meets an inode it cannot read first, or
/// `NotSupported` where there is no free one.
pub open spec fn alloc_inode_in(disk: Seq<Seq<u8>>, sb: Superblock) -> FsResult<u16> {
    if exists|i: int| first_inode_stop_in(disk, sb, i) {
        let i = choose|i: int| first_inode_stop_in(disk, sb, i);
        if readable_in(disk, sb, i % 0x1_0000) {
            Ok((i % 0x1_0000) as u16)
        } else {
            Err(FsError::InvalidOffset)
        }
    } else {
        Err(FsError::NotSupported)
    }
}

pub proof fn lemma_first_inode_stop_unique(disk: Seq<Seq<u8>>, sb: Superblock, i: int, j: int)
    requires
        first_inode_stop_in(disk, sb, i),
        first_inode_stop_in(disk, sb, j),
    ensures
        i == j,
{
    if i < j {
        assert(!inode_stop_in(disk, sb, i));
    } else if j < i {
        assert(!inode_stop_in(disk, sb, j));
    }
}

/// `disk` with `bytes` written as inode `idx`.
pub open spec fn put_inode(disk: Seq<Seq<u8>>, sb: Superblock, idx: int, bytes: Seq<u8>) -> Seq<
    Seq<u8>,
> {
    splice_block(disk, inode_block_of(sb, idx), inode_slot(idx), bytes)
}

/// How many bitmap bits allocation looks at. Bit `i` stands for data block
/// `i + 1` (slot value 0 means no block), so of the data blocks only the
/// ones after the first can be handed out: one less than the data block
/// count, and at most the 4096 bits of one block.
pub open spec fn alloc_limit_of(sb: Superblock) -> int {
    if sb.spec_data_blocks() == 0 {
        0
    } else if sb.spec_data_blocks() <= 4096 {
        sb.spec_data_blocks() - 1
    } else {
        4096
    }
}

/// The bitmap block of `disk`.
pub open spec fn bitmap_in(disk: Seq<Seq<u8>>, sb: Superblock) -> Seq<u8> {
    disk[sb.spec_bitmap_start() as int]
}

/// `disk` with bitmap bit `i` set.
pub open spec fn set_bit_in(disk: Seq<Seq<u8>>, sb: Superblock, i: int) -> Seq<Seq<u8>> {
    let bm = bitmap_in(disk, sb);
    disk.update(sb.spec_bitmap_start() as int, bm.update(i / 8, with_bit(bm[i / 8], i % 8)))
}

/// `disk` with bitmap bit `i` cleared.
pub open spec fn clear_bit_in(disk: Seq<Seq<u8>>, sb: Superblock, i: int) -> Seq<Seq<u8>> {
    let bm = bitmap_in(disk, sb);
    disk.update(sb.spec_bitmap_start() as int, bm.update(i / 8, without_bit(bm[i / 8], i % 8)))
}

/// The size recorded in inode bytes `b`.
pub open spec fn ino_size(b: Seq<u8>) -> int {
    le_u32(b, 1)
}

/// The data block number in direct slot `k` of inode bytes `b` (0 past the
/// last slot).
pub open spec fn ino_direct(b: Seq<u8>, k: int) -> int {
    if 0 <= k < 10 {
        le_u16(b, 5 + 2 * k)
    } else {
        0
    }
}

pub open spec fn ino_is_free(b: Seq<u8>) -> bool {
    b[0] == 0
}

pub open spec fn ino_is_file(b: Seq<u8>) -> bool {
    b[0] == 1
}

pub open spec fn ino_is_dir(b: Seq<u8>) -> bool {
    b[0] == 2
}

pub open spec fn ino_links(b: Seq<u8>) -> u8 {
    b[25]
}

/// Reads block `base + rel` of `dev`, failing as the device does past its end.
pub fn read_block_at<D: BlockDevice>(dev: &D, base: u32, rel: usize, block: &mut Block512) -> (r:
    FsResult)
    requires
        dev.inv(),
    ensures
        r is Ok <==> base + rel < dev.blocks().len(),
        r is Ok ==> final(block).data@ == dev.blocks()[base + rel],
        r is Err ==> r == Err::<(), FsError>(FsError::InvalidOffset),
{
    match (base as usize).checked_add(rel) {
        Some(n) => dev.read_block(n, block),
        None => {
            let c = dev.block_count();
            Err(FsError::InvalidOffset)
        },
    }
}

/// Writes block `base + rel` of `dev`, failing as the device does past its end.
pub fn write_block_at<D: BlockDevice>(dev: &mut D, base: u32, rel: usize, block: &Block512) -> (r:
    FsResult)
    requires
        old(dev).inv(),
    ensures
        final(dev).inv(),
        r is Ok <==> base + rel < old(dev).blocks().len(),
        r is Ok ==> final(dev).blocks() == old(dev).blocks().update(base + rel, block.data@),
        r is Err ==> r == Err::<(), FsError>(FsError::InvalidOffset) && final(dev).blocks() == old(
            dev,
        ).blocks(),
{
    match (base as usize).checked_add(rel) {
        Some(n) => dev.write_block(n, block),
        None => {
            let c = dev.block_count();
            Err(FsError::InvalidOffset)
        },
    }
}

} // verus!

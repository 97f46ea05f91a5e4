//! Laying a fresh, empty file system out on a device.
use vstd::prelude::*;

use crate::bytes::le_u32;
use crate::storage::block::{Block512, BlockDevice};
use crate::storage::error::{FsError, FsResult};
use crate::storage::tmpfs::impls::TmpFsImpl;
use crate::storage::tmpfs::inode::InodeData;
use crate::storage::tmpfs::layout::write_block_at;
use crate::storage::tmpfs::superblock::{Superblock, TMPFS_MAGIC, TMPFS_VERSION};

verus! {

/// Where a device of `total_blocks` blocks with `inode_count` inodes puts
/// things.
pub struct Layout {
    pub inode_blocks: int,
    pub bitmap_blocks: int,
    pub inode_start: int,
    pub data_start: int,
    pub data_blocks: int,
}

/// The layout: block 0 holds the superblock, the bitmap starts at block 1
/// and takes one block per 4096 data blocks (at least one), the inode table
/// follows with 16 inodes per block, and the data area takes the rest.
pub open spec fn layout_of(total_blocks: usize, inode_count: usize) -> Layout {
    let total = (total_blocks as u32) as int;
    let inode_blocks = (inode_count + 15) / 16;
    let estimated = total - 2 - (inode_blocks as u32) as int;
    let bitmap_blocks = if (estimated + 4095) / 4096 > 1 {
        (estimated + 4095) / 4096
    } else {
        1
    };
    let inode_start = 1 + bitmap_blocks;
    let data_start = inode_start + (inode_blocks as u32) as int;
    Layout {
        inode_blocks: inode_blocks as int,
        bitmap_blocks,
        inode_start,
        data_start,
        data_blocks: total - data_start,
    }
}

/// The thirteen superblock parameters that formatting records, in slot
/// order: magic, version, block size, total blocks, inode count, bitmap
/// start, bitmap blocks, inode start, inode blocks, data start, data blocks,
/// free data blocks, next free inode.
pub open spec fn formatted_fields(total_blocks: usize, inode_count: usize) -> Seq<int> {
    let l = layout_of(total_blocks, inode_count);
    seq![
        TMPFS_MAGIC as int,
        TMPFS_VERSION as int,
        512,
        (total_blocks as u32) as int,
        (inode_count as u32) as int,
        1,
        l.bitmap_blocks,
        l.inode_start,
        (l.inode_blocks as u32) as int,
        l.data_start,
        l.data_blocks,
        l.data_blocks,
        1,
    ]
}

/// `s` is the superblock that formatting writes: the parameters in their
/// slots and zeros after them.
#[verifier::opaque]
pub open spec fn is_formatted_superblock(s: Seq<u8>, total_blocks: usize, inode_count: usize) -> bool {
    &&& s.len() == 512
    &&& forall|k: int| 0 <= k < 13 ==> le_u32(s, 4 * k) == #[trigger] formatted_fields(total_blocks, inode_count)[k]
    &&& forall|j: int| 52 <= j < 512 ==> s[j] == 0
}

/// The first inode-table block after formatting: the root directory (type
/// directory, one link) in slot 0, zeros elsewhere.
pub open spec fn root_inode_block() -> Seq<u8> {
    Seq::new(512, |_j: int| 0u8).update(0, 2u8).update(25, 1u8)
}

/// What formatting leaves in block `i`, given what it held before.
pub open spec fn formatted_block(old: Seq<u8>, i: int, total_blocks: usize, inode_count: usize) -> Seq<u8> {
    let l = layout_of(total_blocks, inode_count);
    if i == l.inode_start {
        root_inode_block()
    } else if 1 <= i < l.data_start {
        Seq::new(512, |_j: int| 0u8)
    } else {
        old
    }
}

/// Writes zero blocks over blocks `from..to`, stopping at the first write
/// that fails.
fn zero_blocks<B: BlockDevice>(device: &mut B, from: usize, to: usize) -> (r: FsResult)
    requires
        old(device).inv(),
    ensures
        final(device).inv(),
        final(device).blocks().len() == old(device).blocks().len(),
        r is Ok <==> (from >= to || to <= old(device).blocks().len()),
        r is Err ==> r == Err::<(), FsError>(FsError::InvalidOffset),
        forall|k: int|
            0 <= k < old(device).blocks().len() ==> #[trigger] final(device).blocks()[k] == old(
                device,
            ).blocks()[k] || (from <= k < to && final(device).blocks()[k] == Seq::new(512, |_j: int| 0u8)),
        r is Ok ==> forall|k: int|
            0 <= k < old(device).blocks().len() ==> #[trigger] final(device).blocks()[k] == if from <= k
                < to {
                Seq::new(512, |_j: int| 0u8)
            } else {
                old(device).blocks()[k]
            },
{
    let ghost old_blocks = device.blocks();
    let zero = Block512::zeroed();
    let mut i: usize = from;
    while i < to
        invariant
            device.inv(),
            old_blocks == old(device).blocks(),
            device.blocks().len() == old_blocks.len(),
            from <= i,
            from < i ==> i <= to && i - 1 < old_blocks.len(),
            zero.data@ == Seq::new(512, |_j: int| 0u8),
            forall|k: int|
                0 <= k < old_blocks.len() ==> #[trigger] device.blocks()[k] == if from <= k < i {
                    Seq::new(512, |_j: int| 0u8)
                } else {
                    old_blocks[k]
                },
        decreases to - i,
    {
        if let Err(e) = device.write_block(i, &zero) {
            return Err(e);
        }
        i = i + 1;
    }
    Ok(())
}

/// The superblock that formatting writes.
fn formatted_superblock(total_blocks: usize, inode_count: usize) -> (sb: Superblock)
    requires
        inode_count + 15 <= usize::MAX,
        (total_blocks as u32) >= 2 + (((inode_count + 15) / 16) as u32),
    ensures
        is_formatted_superblock(sb.data@, total_blocks, inode_count),
{
    let ghost l = layout_of(total_blocks, inode_count);
    let inode_blocks = (inode_count + 15) / 16;
    let bitmap_start = 1u32;
    let data_blocks_estimated = total_blocks as u32 - 1 - 1 - inode_blocks as u32;
    let bits_needed = data_blocks_estimated;
    let bitmap_blocks = bits_needed / 4096 + if bits_needed % 4096 != 0 {
        1
    } else {
        0
    };
    let bitmap_blocks = if bitmap_blocks > 1 {
        bitmap_blocks
    } else {
        1
    };
    let inode_start = bitmap_start + bitmap_blocks;
    let data_start = inode_start + inode_blocks as u32;
    let data_blocks = total_blocks as u32 - data_start;
    let vals: [u32; 13] = [
        TMPFS_MAGIC,
        TMPFS_VERSION,
        512,
        total_blocks as u32,
        inode_count as u32,
        bitmap_start,
        bitmap_blocks,
        inode_start,
        inode_blocks as u32,
        data_start,
        data_blocks,
        data_blocks,
        1,
    ];
    assert(vals@ =~= formatted_fields(total_blocks, inode_count).map_values(|v: int| v as u32));
    let mut data = [0u8; 512];
    let mut k: usize = 0;
    while k < 13
        invariant
            k <= 13,
            vals@ == formatted_fields(total_blocks, inode_count).map_values(|v: int| v as u32),
            forall|i: int| 0 <= i < k ==> le_u32(data@, 4 * i) == #[trigger] vals@[i],
            forall|j: int| 4 * k <= j < 512 ==> data@[j] == 0,
        decreases 13 - k,
    {
        let v = vals[k];
        let off = 4 * k;
        let ghost before = data@;
        data[off] = (v % 0x100) as u8;
        data[off + 1] = ((v / 0x100) % 0x100) as u8;
        data[off + 2] = ((v / 0x1_0000) % 0x100) as u8;
        data[off + 3] = (v / 0x100_0000) as u8;
        proof {
            crate::bytes::lemma_le_u32_of_u32_le(v);
            assert(le_u32(data@, off as int) == le_u32(crate::bytes::u32_le(v), 0));
            assert forall|i: int| 0 <= i < k + 1 implies le_u32(data@, 4 * i) == #[trigger] vals@[i] by {
                if i < k {
                    assert(le_u32(data@, 4 * i) == le_u32(before, 4 * i));
                }
            }
        }
        k = k + 1;
    }
    let sb = Superblock { data };
    proof {
        reveal(is_formatted_superblock);
        assert forall|i: int| 0 <= i < 13 implies le_u32(sb.data@, 4 * i) == #[trigger] formatted_fields(total_blocks, inode_count)[i] by {
            assert(vals@[i] == formatted_fields(total_blocks, inode_count)[i] as u32);
        }
    }
    sb
}

impl<D: BlockDevice> TmpFsImpl<D> {
    /// Formats `device`: writes the superblock, clears the bitmap and the
    /// inode table, and creates the empty root directory as inode 0.
    #[verifier::rlimit(50)]
    pub fn format<B: BlockDevice>(device: &mut B, total_blocks: usize, inode_count: usize) -> (r: FsResult)
        requires
            old(device).inv(),
            inode_count + 15 <= usize::MAX,
            (total_blocks as u32) >= 2 + (((inode_count + 15) / 16) as u32),
        ensures
            final(device).inv(),
            final(device).blocks().len() == old(device).blocks().len(),
            r is Ok <==> layout_of(total_blocks, inode_count).inode_start < old(device).blocks().len()
                && layout_of(total_blocks, inode_count).data_start <= old(device).blocks().len(),
            r is Err ==> r == Err::<(), FsError>(FsError::InvalidOffset),
            r is Ok ==> is_formatted_superblock(final(device).blocks()[0], total_blocks, inode_count),
            forall|i: int|
                1 <= i < old(device).blocks().len() ==> #[trigger] final(device).blocks()[i] == old(device).blocks()[i]
                    || final(device).blocks()[i] == formatted_block(old(device).blocks()[i], i, total_blocks, inode_count)
                    || (i == layout_of(total_blocks, inode_count).inode_start && final(device).blocks()[i] == Seq::new(
                    512,
                    |_j: int| 0u8,
                )),
            r is Ok ==> forall|i: int|
                1 <= i < old(device).blocks().len() ==> #[trigger] final(device).blocks()[i] == formatted_block(
                    old(device).blocks()[i],
                    i,
                    total_blocks,
                    inode_count,
                ),
    {
        let ghost l = layout_of(total_blocks, inode_count);
        let ghost b0 = device.blocks();
        let sb = formatted_superblock(total_blocks, inode_count);
        let inode_start = sb.inode_start();
        let data_start = sb.data_start();
        assert(inode_start == l.inode_start && data_start == l.data_start) by {
            reveal(is_formatted_superblock);
            assert(formatted_fields(total_blocks, inode_count)[7] == l.inode_start);
            assert(formatted_fields(total_blocks, inode_count)[9] == l.data_start);
        }

        let block = Block512 { data: sb.data };
        if let Err(e) = device.write_block(0, &block) {
            return Err(e);
        }
        let ghost b1 = device.blocks();
        if let Err(e) = zero_blocks(device, 1, inode_start as usize) {
            return Err(e);
        }
        let ghost b2 = device.blocks();
        if let Err(e) = zero_blocks(device, inode_start as usize, data_start as usize) {
            return Err(e);
        }
        let ghost b3 = device.blocks();

        let root_inode = InodeData::new_dir();
        let mut inode_block = Block512::zeroed();
        let mut j: usize = 0;
        while j < 32
            invariant
                j <= 32,
                forall|k: int| 0 <= k < j ==> inode_block.data@[k] == root_inode.data@[k],
                forall|k: int| j <= k < 512 ==> inode_block.data@[k] == 0,
            decreases 32 - j,
        {
            inode_block.data[j] = root_inode.data[j];
            j = j + 1;
        }
        assert(inode_block.data@ =~= root_inode_block());
        if let Err(e) = device.write_block(inode_start as usize, &inode_block) {
            return Err(e);
        }
        assert(device.blocks()[0] == sb.data@);
        assert forall|i: int| 1 <= i < b0.len() implies #[trigger] device.blocks()[i] == formatted_block(
            b0[i],
            i,
            total_blocks,
            inode_count,
        ) by {
            if i == inode_start {
            } else if i < inode_start {
                assert(b2[i] == Seq::new(512, |_j: int| 0u8));
            } else if i < data_start {
                assert(b3[i] == Seq::new(512, |_j: int| 0u8));
            }
        }
        Ok(())
    }
}

} // verus!

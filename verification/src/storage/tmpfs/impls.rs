//! The file system operations on the device's blocks.
use vstd::prelude::*;
use vstd::string::StringSliceAdditionalSpecFns;

use crate::bytes::{splice, u16_le, u32_le};
use crate::storage::block::{Block512, BlockDevice};
use crate::storage::error::{FsError, FsResult};
use crate::storage::tmpfs::direntry::{stored_name, DirEntryData};
use crate::storage::tmpfs::inode::InodeData;
use crate::storage::tmpfs::layout::{
    bit_of, bitmap_bit, bitmap_in, first_clear_bit, has_clear_bit, lemma_first_clear_bit,
    the_first_clear_bit, alloc_limit_of, readable_in, inode_stop_in, first_inode_stop_in,
    alloc_inode_in, lemma_first_inode_stop_unique, clear_bit_in, data_block_of, ino_direct, ino_is_dir, ino_is_file,
    ino_is_free, ino_size, inode_block_of, inode_in, inode_slot, lemma_with_bit, lemma_without_bit,
    put_inode, read_block_at, set_bit_in, splice_block, with_bit, without_bit, write_block_at,
};
use crate::storage::tmpfs::superblock::{Superblock, TMPFS_MAGIC, TMPFS_VERSION};

verus! {

/// The 32 bytes of a directory entry for `name` pointing at `child`.
pub open spec fn entry_bytes(name: Seq<u8>, child: u16) -> Seq<u8> {
    stored_name(name) + u16_le(child) + seq![0u8, 0u8]
}

/// What adding an entry for `name` and `child` to directory `dir` of
/// `disk` gives: the result, and the blocks afterwards.
///
/// The entry goes at the directory's current size. Where the direct slot
/// for that position is empty, the first free data block is allocated for
/// it (and, when the size is a positive multiple of 32, the inode with the
/// new slot is written at once). The entry is written into its data block,
/// then the inode with the size grown by 32.
#[verifier::opaque]
pub open spec fn add_entry_outcome_in(disk: Seq<Seq<u8>>, sb: Superblock, dir: int, name: Seq<u8>, child: u16) -> (
    FsResult,
    Seq<Seq<u8>>,
) {
    let ino = inode_in(disk, sb, dir);
    let size = ino_size(ino);
    let bidx = size / 512;
    let slot = ino_direct(ino, bidx);
    let bm = bitmap_in(disk, sb);
    let limit = alloc_limit_of(sb);
    if !(dir < sb.spec_inode_count() && inode_block_of(sb, dir) < disk.len()) {
        (Err(FsError::InvalidOffset), disk)
    } else if bidx >= 10 {
        (Err(FsError::NotSupported), disk)
    } else if slot == 0 && sb.spec_bitmap_start() >= disk.len() {
        (Err(FsError::InvalidOffset), disk)
    } else if slot == 0 && !has_clear_bit(bm, limit) {
        (Err(FsError::NotSupported), disk)
    } else {
        let fb = the_first_clear_bit(bm, limit);
        let rel = if slot == 0 {
            fb + 1
        } else {
            slot
        };
        let d1 = if slot == 0 {
            set_bit_in(disk, sb, fb)
        } else {
            disk
        };
        let mid = if slot == 0 {
            splice(ino, 5 + 2 * bidx, u16_le(rel as u16))
        } else {
            ino
        };
        let d2 = if slot == 0 && size % 32 == 0 && size > 0 {
            put_inode(d1, sb, dir, mid)
        } else {
            d1
        };
        let blk = data_block_of(sb, rel);
        if blk >= disk.len() {
            (Err(FsError::InvalidOffset), d2)
        } else {
            let d3 = splice_block(d2, blk, size % 512, entry_bytes(name, child));
            (Ok(()), put_inode(d3, sb, dir, splice(mid, 1, u32_le((size + 32) as u32))))
        }
    }
}

/// A mounted file system: its device and the superblock read from it.
pub struct TmpFsImpl<D: BlockDevice> {
    pub inner: D,
    pub sb: Superblock,
}

impl<D: BlockDevice> TmpFsImpl<D> {
    pub open spec fn wf(&self) -> bool {
        self.inner.inv()
    }

    /// The device's blocks.
    pub open spec fn disk(&self) -> Seq<Seq<u8>> {
        self.inner.blocks()
    }

    /// The block that holds inode `idx`.
    pub open spec fn inode_block(&self, idx: int) -> int {
        inode_block_of(self.sb, idx)
    }

    /// Whether inode `idx` can be read: it is below the inode count and its
    /// block exists.
    pub open spec fn inode_readable(&self, idx: int) -> bool {
        readable_in(self.disk(), self.sb, idx)
    }

    /// The 32 bytes of inode `idx`.
    pub open spec fn inode_at(&self, idx: int) -> Seq<u8> {
        inode_in(self.disk(), self.sb, idx)
    }

    /// The blocks after writing `bytes` as inode `idx`.
    pub open spec fn disk_with_inode(&self, idx: int, bytes: Seq<u8>) -> Seq<Seq<u8>> {
        put_inode(self.disk(), self.sb, idx, bytes)
    }

    /// The bitmap block.
    pub open spec fn bitmap(&self) -> Seq<u8> {
        bitmap_in(self.disk(), self.sb)
    }

    /// How many bitmap bits allocation looks at: one per data block after
    /// the first (bit `i` stands for data block `i + 1`), at most the 4096
    /// bits of one block.
    pub open spec fn alloc_limit(&self) -> int {
        alloc_limit_of(self.sb)
    }

    /// Bit `i` is the first clear one among those allocation looks at.
    pub open spec fn first_free_bit(&self, i: int) -> bool {
        first_clear_bit(self.bitmap(), self.alloc_limit(), i)
    }

    /// Some bit that allocation looks at is clear.
    pub open spec fn has_free_bit(&self) -> bool {
        has_clear_bit(self.bitmap(), self.alloc_limit())
    }

    /// The bit that allocation picks.
    pub open spec fn free_bit(&self) -> int {
        the_first_clear_bit(self.bitmap(), self.alloc_limit())
    }

    pub proof fn lemma_free_bit(&self)
        requires
            self.has_free_bit(),
        ensures
            self.first_free_bit(self.free_bit()),
            forall|i: int| self.first_free_bit(i) ==> i == self.free_bit(),
    {
        lemma_first_clear_bit(self.bitmap(), self.alloc_limit());
    }

    /// The blocks after setting bitmap bit `i`.
    pub open spec fn disk_with_bit(&self, i: int) -> Seq<Seq<u8>> {
        set_bit_in(self.disk(), self.sb, i)
    }

    /// The blocks after clearing bitmap bit `i`.
    pub open spec fn disk_without_bit(&self, i: int) -> Seq<Seq<u8>> {
        clear_bit_in(self.disk(), self.sb, i)
    }

    /// What adding an entry for `name` and `child` to directory `dir`
    /// gives: the result, and the blocks afterwards.
    pub open spec fn add_entry_outcome(&self, dir: int, name: Seq<u8>, child: u16) -> (
        FsResult,
        Seq<Seq<u8>>,
    ) {
        add_entry_outcome_in(self.disk(), self.sb, dir, name, child)
    }

    /// Mounts the file system on `inner`, whose block 0 must hold a valid
    /// superblock.
    pub fn new(inner: D) -> (r: Self)
        requires
            inner.inv(),
            inner.blocks().len() > 0,
            crate::bytes::le_u32(inner.blocks()[0], 0) == TMPFS_MAGIC,
            crate::bytes::le_u32(inner.blocks()[0], 4) == TMPFS_VERSION,
        ensures
            r.wf(),
            r.inner == inner,
            r.sb.data@ == inner.blocks()[0],
    {
        let mut block = Block512::zeroed();
        let res = inner.read_block(0, &mut block);
        let sb = match Superblock::new(&block.data) {
            Ok(sb) => sb,
            Err(_) => {
                assert(false);
                Superblock::empty()
            },
        };
        assert(block.data@.subrange(0, 512) =~= block.data@);
        Self { sb, inner }
    }

    /// Reads inode `idx`.
    pub fn read_inode(&self, idx: u16) -> (r: FsResult<InodeData>)
        requires
            self.wf(),
        ensures
            r is Ok <==> self.inode_readable(idx as int),
            r is Err ==> r == Err::<InodeData, FsError>(FsError::InvalidOffset),
            r matches Ok(i) ==> i.data@ == self.inode_at(idx as int),
    {
        let inode_count = self.sb.inode_count() as usize;
        if idx as usize >= inode_count {
            return Err(FsError::InvalidOffset);
        }
        let block_offset = idx as usize / 16;
        let offset_in_block = (idx as usize % 16) * 32;
        let mut block = Block512::zeroed();
        if let Err(e) = read_block_at(&self.inner, self.sb.inode_start(), block_offset, &mut block) {
            return Err(e);
        }
        let mut data = [0u8; 32];
        let mut i: usize = 0;
        while i < 32
            invariant
                i <= 32,
                offset_in_block + 32 <= 512,
                forall|j: int| 0 <= j < i ==> data@[j] == block.data@[offset_in_block + j],
            decreases 32 - i,
        {
            data[i] = block.data[offset_in_block + i];
            i = i + 1;
        }
        let inode = InodeData { data };
        assert(inode.data@ =~= self.inode_at(idx as int));
        Ok(inode)
    }

    /// Writes `inode` as inode `idx` (whatever the inode count says).
    pub fn write_inode(&mut self, idx: u16, inode: &InodeData) -> (r: FsResult)
        requires
            old(self).wf(),
        ensures
            final(self).wf(),
            final(self).sb == old(self).sb,
            r is Ok <==> old(self).inode_block(idx as int) < old(self).disk().len(),
            r is Ok ==> final(self).disk() == old(self).disk_with_inode(idx as int, inode.data@),
            r is Err ==> r == Err::<(), FsError>(FsError::InvalidOffset) && final(self).disk() == old(
                self,
            ).disk(),
    {
        let block_offset = idx as usize / 16;
        let offset_in_block = (idx as usize % 16) * 32;
        let mut block = Block512::zeroed();
        if let Err(e) = read_block_at(&self.inner, self.sb.inode_start(), block_offset, &mut block) {
            return Err(e);
        }
        let ghost before = block.data@;
        let mut i: usize = 0;
        while i < 32
            invariant
                i <= 32,
                offset_in_block + 32 <= 512,
                block.data@.len() == 512,
                forall|j: int| 0 <= j < i ==> block.data@[offset_in_block + j] == inode.data@[j],
                forall|j: int|
                    0 <= j < 512 && !(offset_in_block <= j < offset_in_block + i)
                        ==> block.data@[j] == before[j],
            decreases 32 - i,
        {
            block.data[offset_in_block + i] = inode.data[i];
            i = i + 1;
        }
        assert(block.data@ =~= splice(before, offset_in_block as int, inode.data@));
        write_block_at(&mut self.inner, self.sb.inode_start(), block_offset, &block)
    }

    /// Marks the first clear bitmap bit as used and returns its data block
    /// number, which counts from 1.
    pub fn allocate_data_block(&mut self) -> (r: FsResult<u16>)
        requires
            old(self).wf(),
        ensures
            final(self).wf(),
            final(self).sb == old(self).sb,
            old(self).sb.spec_bitmap_start() >= old(self).disk().len() ==> r == Err::<u16, FsError>(
                FsError::InvalidOffset,
            ),
            old(self).sb.spec_bitmap_start() < old(self).disk().len() && (forall|i: int|
                0 <= i < old(self).alloc_limit() ==> bitmap_bit(old(self).bitmap(), i)) ==> r == Err::<
                u16,
                FsError,
            >(FsError::NotSupported),
            r is Err ==> final(self).disk() == old(self).disk(),
            r is Ok <==> old(self).sb.spec_bitmap_start() < old(self).disk().len()
                && old(self).has_free_bit(),
            r matches Ok(rel) ==> old(self).sb.spec_bitmap_start() < old(self).disk().len()
                && old(self).first_free_bit(rel - 1) && final(self).disk() == old(
                self,
            ).disk_with_bit(rel - 1),
    {
        let bitmap_start = self.sb.bitmap_start();
        let data_blocks = self.sb.data_blocks() as usize;
        let usable = if data_blocks > 0 {
            data_blocks - 1
        } else {
            0
        };
        let mut block = Block512::zeroed();
        if let Err(e) = read_block_at(&self.inner, bitmap_start, 0, &mut block) {
            return Err(e);
        }
        let mut i: usize = 0;
        while i < usable
            invariant
                i <= usable,
                usable == (if self.sb.spec_data_blocks() > 0 { self.sb.spec_data_blocks() - 1 } else { 0 }),
                i <= 4096,
                self.wf(),
                self.sb == old(self).sb,
                self.disk() == old(self).disk(),
                bitmap_start == self.sb.spec_bitmap_start(),
                bitmap_start < self.disk().len(),
                block.data@ == self.bitmap(),
                forall|j: int| 0 <= j < i ==> bitmap_bit(self.bitmap(), j),
            ensures
                forall|j: int| 0 <= j < self.alloc_limit() ==> bitmap_bit(self.bitmap(), j),
            decreases usable - i,
        {
            let bit_byte = i / 8;
            let bit_pos = (i % 8) as u8;
            if bit_byte >= 512 {
                break;
            }
            let byte = block.data[bit_byte];
            assert(((byte >> bit_pos) & 1u8) == 0u8 || ((byte >> bit_pos) & 1u8) == 1u8) by (bit_vector);
            if (byte >> bit_pos) & 1u8 == 0 {
                assert(self.bitmap() == old(self).bitmap());
                assert(self.alloc_limit() == old(self).alloc_limit());
                assert(!bitmap_bit(old(self).bitmap(), i as int));
                proof {
                    lemma_with_bit(block.data@[bit_byte as int], bit_pos);
                }
                block.data[bit_byte] = block.data[bit_byte] | (1u8 << bit_pos);
                if let Err(e) = write_block_at(&mut self.inner, bitmap_start, 0, &block) {
                    return Err(e);
                }
                return Ok(i as u16 + 1);
            }
            i = i + 1;
        }
        Err(FsError::NotSupported)
    }

    /// Marks data block `rel` (counting from 1) as free; 0 names no block.
    pub fn free_data_block(&mut self, rel: u16) -> (r: FsResult)
        requires
            old(self).wf(),
            rel <= 4096,
        ensures
            final(self).wf(),
            final(self).sb == old(self).sb,
            rel == 0 ==> r is Ok && final(self).disk() == old(self).disk(),
            rel > 0 ==> (r is Ok <==> old(self).sb.spec_bitmap_start() < old(self).disk().len()),
            rel > 0 && r is Ok ==> final(self).disk() == old(self).disk_without_bit(rel - 1),
            r is Err ==> r == Err::<(), FsError>(FsError::InvalidOffset) && final(self).disk() == old(
                self,
            ).disk(),
    {
        if rel == 0 {
            return Ok(());
        }
        let bitmap_start = self.sb.bitmap_start();
        let byte_idx = (rel - 1) as usize;
        let bit_byte = byte_idx / 8;
        let bit_pos = (byte_idx % 8) as u8;
        let mut block = Block512::zeroed();
        if let Err(e) = read_block_at(&self.inner, bitmap_start, 0, &mut block) {
            return Err(e);
        }
        block.data[bit_byte] = block.data[bit_byte] & !(1u8 << bit_pos);
        write_block_at(&mut self.inner, bitmap_start, 0, &block)
    }

    /// Appends an entry for `name` pointing at `child_inode` to directory
    /// `dir_inode_idx`.
    #[verifier::rlimit(50)]
    pub fn add_dir_entry(&mut self, dir_inode_idx: u16, name: &str, child_inode: u16) -> (r:
        FsResult)
        requires
            old(self).wf(),
            old(self).inode_readable(dir_inode_idx as int) && ino_size(
                old(self).inode_at(dir_inode_idx as int),
            ) / 512 < 10 ==> ino_size(old(self).inode_at(dir_inode_idx as int)) % 512 <= 480,
        ensures
            final(self).wf(),
            final(self).sb == old(self).sb,
            r == old(self).add_entry_outcome(dir_inode_idx as int, name.spec_bytes(), child_inode).0,
            final(self).disk() == old(self).add_entry_outcome(
                dir_inode_idx as int,
                name.spec_bytes(),
                child_inode,
            ).1,
    {
        let ghost dir = dir_inode_idx as int;
        let ghost ino = old(self).inode_at(dir);
        let ghost out = old(self).add_entry_outcome(dir, name.spec_bytes(), child_inode);
        let mut dir_inode = match self.read_inode(dir_inode_idx) {
            Ok(i) => i,
            Err(e) => {
                assert(out.0 == Err::<(), FsError>(e) && self.disk() == out.1) by {
                    reveal(add_entry_outcome_in);
                }
                return Err(e);
            },
        };
        let entry = DirEntryData::new(name, child_inode);
        let dir_size = dir_inode.size() as usize;
        let block_idx = dir_size / 512;
        if block_idx >= 10 {
            assert(out.0 == Err::<(), FsError>(FsError::NotSupported) && self.disk() == out.1) by {
                    reveal(add_entry_outcome_in);
                }
            return Err(FsError::NotSupported);
        }
        let slot = dir_inode.direct_block(block_idx);
        assert(slot == ino_direct(ino, block_idx as int));
        let mut data_block_rel = slot;
        if slot == 0 {
            let rel = match self.allocate_data_block() {
                Ok(rel) => rel,
                Err(e) => {
                    assert(out.0 == Err::<(), FsError>(e) && self.disk() == out.1) by {
                    reveal(add_entry_outcome_in);
                }
                    return Err(e);
                },
            };
            proof {
                old(self).lemma_free_bit();
            }
            dir_inode.set_direct_block(block_idx, rel);
            if dir_size % 32 == 0 && dir_size > 0 {
                if let Err(e) = self.write_inode(dir_inode_idx, &dir_inode) {
                    assert(false);
                    return Err(e);
                }
            }
            data_block_rel = rel;
        }
        let offset_in_block = dir_size % 512;
        if let Err(e) = self.write_bytes_in_data_block(data_block_rel, offset_in_block, &entry.data) {
            assert(out.0 == Err::<(), FsError>(e) && self.disk() == out.1) by {
                reveal(add_entry_outcome_in);
            }
            return Err(e);
        }
        dir_inode.set_size(dir_size as u32 + 32);
        if let Err(e) = self.write_inode(dir_inode_idx, &dir_inode) {
            assert(false);
            return Err(e);
        }
        assert(out.0 == Ok::<(), FsError>(()) && self.disk() == out.1) by {
                    reveal(add_entry_outcome_in);
                }
        Ok(())
    }

    /// Writes `bytes` at byte `off` of data block `rel`.
    fn write_bytes_in_data_block(&mut self, rel: u16, off: usize, bytes: &[u8; 32]) -> (r: FsResult)
        requires
            old(self).wf(),
            off + 32 <= 512,
        ensures
            final(self).wf(),
            final(self).sb == old(self).sb,
            r is Ok <==> data_block_of(old(self).sb, rel as int) < old(self).disk().len(),
            r is Ok ==> final(self).disk() == splice_block(
                old(self).disk(),
                data_block_of(old(self).sb, rel as int),
                off as int,
                bytes@,
            ),
            r is Err ==> r == Err::<(), FsError>(FsError::InvalidOffset) && final(self).disk() == old(
                self,
            ).disk(),
    {
        let mut block = Block512::zeroed();
        if let Err(e) = read_block_at(&self.inner, self.sb.data_start(), rel as usize, &mut block) {
            return Err(e);
        }
        let ghost before = block.data@;
        let mut i: usize = 0;
        while i < 32
            invariant
                i <= 32,
                off + 32 <= 512,
                block.data@.len() == 512,
                before.len() == 512,
                forall|j: int| 0 <= j < i ==> block.data@[off + j] == bytes@[j],
                forall|j: int|
                    0 <= j < 512 && !(off <= j < off + i) ==> block.data@[j] == before[j],
            decreases 32 - i,
        {
            block.data[off + i] = bytes[i];
            i = i + 1;
        }
        assert(block.data@ =~= splice(before, off as int, bytes@));
        write_block_at(&mut self.inner, self.sb.data_start(), rel as usize, &block)
    }

    /// Returns the first free inode from 1 on.
    pub fn allocate_inode(&self) -> (r: FsResult<u16>)
        requires
            self.wf(),
        ensures
            r == alloc_inode_in(self.disk(), self.sb),
    {
        let inode_count = self.sb.inode_count() as usize;
        let mut idx: usize = 1;
        while idx < inode_count
            invariant
                1 <= idx,
                inode_count == self.sb.spec_inode_count(),
                self.wf(),
                forall|j: int| 1 <= j < idx ==> !#[trigger] inode_stop_in(self.disk(), self.sb, j),
            decreases inode_count - idx,
        {
            let k = (idx % 0x1_0000) as u16;
            let inode = self.read_inode(k);
            match inode {
                Err(e) => {
                    assert(first_inode_stop_in(self.disk(), self.sb, idx as int));
                    proof {
                        let c = choose|i: int| first_inode_stop_in(self.disk(), self.sb, i);
                        lemma_first_inode_stop_unique(self.disk(), self.sb, c, idx as int);
                    }
                    return Err(e);
                },
                Ok(inode) => {
                    if inode.is_free() {
                        assert(first_inode_stop_in(self.disk(), self.sb, idx as int));
                        proof {
                            let c = choose|i: int| first_inode_stop_in(self.disk(), self.sb, i);
                            lemma_first_inode_stop_unique(self.disk(), self.sb, c, idx as int);
                        }
                        return Ok(k);
                    }
                },
            }
            idx = idx + 1;
        }
        Err(FsError::NotSupported)
    }
}

} // verus!

//! A block device kept in memory frames of 4 KiB, eight blocks per frame.
use vstd::prelude::*;

use crate::storage::block::{Block512, BlockDevice, BLOCK_SIZE};
use crate::storage::error::{FsError, FsResult};

verus! {

pub const FRAME_SIZE: usize = 4096;
pub const BLOCKS_PER_FRAME: usize = 8;

/// A RAM disk: `block_count` blocks laid out in consecutive frames.
pub struct RamDisk {
    frames: Vec<[u8; 4096]>,
    block_count: usize,
}

/// The bytes of block `i` inside the frames.
pub open spec fn frame_block(frames: Seq<[u8; 4096]>, i: int) -> Seq<u8> {
    frames[i / 8]@.subrange((i % 8) * 512, (i % 8) * 512 + 512)
}

impl RamDisk {
    /// There are enough frames for all the blocks.
    pub closed spec fn frames_cover(&self) -> bool {
        self.frames@.len() * 8 >= self.block_count
    }

    pub closed spec fn view_blocks(&self) -> Seq<Seq<u8>> {
        Seq::new(self.block_count as nat, |i: int| frame_block(self.frames@, i))
    }

    /// A zero-filled disk of `block_count` blocks.
    pub fn new(block_count: usize) -> (r: Self)
        requires
            block_count + 7 <= usize::MAX,
        ensures
            r.inv(),
            r.blocks() == Seq::new(block_count as nat, |_i: int| Seq::new(512, |_j: int| 0u8)),
    {
        let frames_needed = (block_count + (BLOCKS_PER_FRAME - 1)) / BLOCKS_PER_FRAME;
        let mut frames: Vec<[u8; 4096]> = Vec::new();
        let mut k: usize = 0;
        while k < frames_needed
            invariant
                k <= frames_needed,
                frames@.len() == k,
                forall|f: int, j: int| 0 <= f < k && 0 <= j < 4096 ==> #[trigger] frames@[f]@[j] == 0,
            decreases frames_needed - k,
        {
            frames.push([0u8; 4096]);
            k = k + 1;
        }
        let r = Self { frames, block_count };
        assert(r.view_blocks() =~= Seq::new(block_count as nat, |_i: int| Seq::new(512, |_j: int| 0u8))) by {
            assert forall|i: int| 0 <= i < block_count implies frame_block(r.frames@, i) =~= Seq::new(512, |_j: int| 0u8) by {
                assert(i / 8 < frames_needed);
            }
        }
        r
    }
}

impl BlockDevice for RamDisk {
    open spec fn blocks(&self) -> Seq<Seq<u8>> {
        self.view_blocks()
    }

    open spec fn inv(&self) -> bool {
        self.frames_cover()
    }

    proof fn lemma_block_len(&self) {
        let n = self.frames@.len();
        assert forall|i: int| 0 <= i < self.blocks().len() implies #[trigger] self.blocks()[i].len() == 512 by {
            assert(i / 8 < n) by (nonlinear_arith)
                requires
                    0 <= i < self.block_count,
                    n * 8 >= self.block_count,
            ;
            assert(0 <= (i % 8) * 512 && (i % 8) * 512 + 512 <= 4096) by (nonlinear_arith)
                requires
                    0 <= i,
            ;
        }
    }

    fn block_count(&self) -> (r: FsResult<usize>) {
        Ok(self.block_count)
    }

    fn read_block(&self, offset: usize, block: &mut Block512) -> (r: FsResult) {
        if offset >= self.block_count {
            return Err(FsError::InvalidOffset);
        }
        let frame_idx = offset / BLOCKS_PER_FRAME;
        let byte_offset = (offset % BLOCKS_PER_FRAME) * BLOCK_SIZE;
        let frame = &self.frames[frame_idx];
        let mut i: usize = 0;
        while i < BLOCK_SIZE
            invariant
                i <= 512,
                byte_offset + 512 <= 4096,
                forall|j: int| 0 <= j < i ==> block.data@[j] == frame@[byte_offset + j],
            decreases 512 - i,
        {
            block.data[i] = frame[byte_offset + i];
            i = i + 1;
        }
        assert(block.data@ =~= frame_block(self.frames@, offset as int));
        Ok(())
    }

    fn write_block(&mut self, offset: usize, block: &Block512) -> (r: FsResult) {
        if offset >= self.block_count {
            return Err(FsError::InvalidOffset);
        }
        let frame_idx = offset / BLOCKS_PER_FRAME;
        let byte_offset = (offset % BLOCKS_PER_FRAME) * BLOCK_SIZE;
        let mut frame = self.frames[frame_idx];
        let ghost old_frame = frame;
        let mut i: usize = 0;
        while i < BLOCK_SIZE
            invariant
                i <= 512,
                byte_offset + 512 <= 4096,
                frame@.len() == 4096,
                forall|j: int| 0 <= j < i ==> frame@[byte_offset + j] == block.data@[j],
                forall|j: int|
                    0 <= j < 4096 && !(byte_offset <= j < byte_offset + i) ==> frame@[j]
                        == old_frame@[j],
            decreases 512 - i,
        {
            frame[byte_offset + i] = block.data[i];
            i = i + 1;
        }
        self.frames.set(frame_idx, frame);
        proof {
            let nb = self.view_blocks();
            let ob = old(self).view_blocks();
            assert forall|k: int| 0 <= k < nb.len() implies nb[k] =~= ob.update(offset as int, block.data@)[k] by {
                if k == offset {
                    assert(frame_block(self.frames@, k) =~= block.data@);
                } else if k / 8 == frame_idx {
                    assert(frame_block(self.frames@, k) =~= frame_block(old(self).frames@, k));
                } else {
                }
            }
            assert(nb =~= ob.update(offset as int, block.data@));
        }
        Ok(())
    }
}

} // verus!

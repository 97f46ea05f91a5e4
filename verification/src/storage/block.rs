//! Blocks and the devices that store them.
use vstd::prelude::*;

use crate::storage::error::{FsError, FsResult};

verus! {

pub const BLOCK_SIZE: usize = 512;

/// One 512-byte block.
#[derive(Clone, Copy)]
pub struct Block512 {
    pub data: [u8; 512],
}

impl Block512 {
    /// A block of zeros.
    pub fn zeroed() -> (r: Self)
        ensures
            r.data@ == Seq::new(512, |_i: int| 0u8),
    {
        let r = Block512 { data: [0u8; 512] };
        assert(r.data@ =~= Seq::new(512, |_i: int| 0u8));
        r
    }
}

/// A device of numbered 512-byte blocks.
///
/// Its contents are `blocks()`: block `i` holds `blocks()[i]`. Reading or
/// writing a block succeeds exactly when its number is below the block count
/// and fails with `InvalidOffset` otherwise.
pub trait BlockDevice {
    spec fn blocks(&self) -> Seq<Seq<u8>>;

    /// The device's own consistency condition, kept by every write.
    spec fn inv(&self) -> bool;

    /// Every block of a consistent device holds 512 bytes.
    proof fn lemma_block_len(&self)
        requires
            self.inv(),
        ensures
            forall|i: int| 0 <= i < self.blocks().len() ==> #[trigger] self.blocks()[i].len() == 512,
    ;

    fn block_count(&self) -> (r: FsResult<usize>)
        requires
            self.inv(),
        ensures
            r matches Ok(n) && n == self.blocks().len(),
    ;

    fn read_block(&self, offset: usize, block: &mut Block512) -> (r: FsResult)
        requires
            self.inv(),
        ensures
            r is Ok <==> offset < self.blocks().len(),
            r is Ok ==> final(block).data@ == self.blocks()[offset as int],
            r is Err ==> r == Err::<(), FsError>(FsError::InvalidOffset) && *final(block) == *old(block),
    ;

    fn write_block(&mut self, offset: usize, block: &Block512) -> (r: FsResult)
        requires
            old(self).inv(),
        ensures
            final(self).inv(),
            r is Ok <==> offset < old(self).blocks().len(),
            r is Ok ==> final(self).blocks() == old(self).blocks().update(
                offset as int,
                block.data@,
            ),
            r is Err ==> r == Err::<(), FsError>(FsError::InvalidOffset) && final(self).blocks()
                == old(self).blocks(),
    ;
}

} // verus!

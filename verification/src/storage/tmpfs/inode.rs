//! The 32-byte on-disk inode.
use vstd::prelude::*;

use crate::bytes::{le_u16, le_u32, read_u16_le, read_u32_le, splice, u16_le, u32_le, write_u16_le, write_u32_le};

verus! {

pub const INODE_TYPE_FREE: u8 = 0;
pub const INODE_TYPE_FILE: u8 = 1;
pub const INODE_TYPE_DIR: u8 = 2;
pub const INODE_DIRECT_BLOCKS: usize = 10;

/// An inode as its 32 raw bytes: the type at byte 0, the size as a
/// little-endian `u32` at bytes 1..5, ten direct block numbers as
/// little-endian `u16` at bytes 5..25, and the link count at byte 25.
pub struct InodeData {
    pub data: [u8; 32],
}

/// The byte offset of direct block slot `idx`.
pub open spec fn direct_off(idx: int) -> int {
    5 + idx * 2
}

impl InodeData {
    pub open spec fn spec_type_(&self) -> u8 {
        self.data@[0]
    }

    pub open spec fn spec_size(&self) -> u32 {
        le_u32(self.data@, 1) as u32
    }

    pub open spec fn spec_links_count(&self) -> u8 {
        self.data@[25]
    }

    pub open spec fn spec_direct_block(&self, idx: usize) -> u16 {
        if idx >= INODE_DIRECT_BLOCKS {
            0
        } else {
            le_u16(self.data@, direct_off(idx as int)) as u16
        }
    }

    pub open spec fn spec_is_free(&self) -> bool {
        self.data@[0] == INODE_TYPE_FREE
    }

    pub open spec fn spec_is_file(&self) -> bool {
        self.data@[0] == INODE_TYPE_FILE
    }

    pub open spec fn spec_is_dir(&self) -> bool {
        self.data@[0] == INODE_TYPE_DIR
    }

    /// An all-zero inode: free, empty, no blocks, no links.
    pub fn free() -> (r: Self)
        ensures
            r.data@ == Seq::new(32, |_i: int| 0u8),
    {
        let r = Self { data: [0u8; 32] };
        assert(r.data@ =~= Seq::new(32, |_i: int| 0u8));
        r
    }

    /// An empty regular file with one link, the entry that names it.
    pub fn new_file() -> (r: Self)
        ensures
            r.data@ == Seq::new(32, |_i: int| 0u8).update(0, INODE_TYPE_FILE).update(25, 1u8),
    {
        let mut d = Self { data: [0u8; 32] };
        d.set_type(INODE_TYPE_FILE);
        d.set_links_count(1);
        assert(d.data@ =~= Seq::new(32, |_i: int| 0u8).update(0, INODE_TYPE_FILE).update(25, 1u8));
        d
    }

    /// An empty directory with one link.
    pub fn new_dir() -> (r: Self)
        ensures
            r.data@ == Seq::new(32, |_i: int| 0u8).update(0, INODE_TYPE_DIR).update(25, 1u8),
    {
        let mut d = Self { data: [0u8; 32] };
        d.set_type(INODE_TYPE_DIR);
        d.set_links_count(1);
        assert(d.data@ =~= Seq::new(32, |_i: int| 0u8).update(0, INODE_TYPE_DIR).update(25, 1u8));
        d
    }

    #[verifier::when_used_as_spec(spec_type_)]
    pub fn type_(&self) -> (r: u8)
        ensures
            r == self.data@[0],
    {
        self.data[0]
    }

    pub fn set_type(&mut self, v: u8)
        ensures
            final(self).data@ == old(self).data@.update(0, v),
    {
        self.data[0] = v;
    }

    #[verifier::when_used_as_spec(spec_is_free)]
    pub fn is_free(&self) -> (r: bool)
        ensures
            r == (self.data@[0] == INODE_TYPE_FREE),
    {
        self.type_() == INODE_TYPE_FREE
    }

    #[verifier::when_used_as_spec(spec_is_file)]
    pub fn is_file(&self) -> (r: bool)
        ensures
            r == (self.data@[0] == INODE_TYPE_FILE),
    {
        self.type_() == INODE_TYPE_FILE
    }

    #[verifier::when_used_as_spec(spec_is_dir)]
    pub fn is_dir(&self) -> (r: bool)
        ensures
            r == (self.data@[0] == INODE_TYPE_DIR),
    {
        self.type_() == INODE_TYPE_DIR
    }

    #[verifier::when_used_as_spec(spec_size)]
    pub fn size(&self) -> (r: u32)
        ensures
            r == le_u32(self.data@, 1),
    {
        read_u32_le(&self.data, 1)
    }

    pub fn set_size(&mut self, v: u32)
        ensures
            final(self).data@ == splice(old(self).data@, 1, u32_le(v)),
            final(self).size() == v,
    {
        write_u32_le(&mut self.data, 1, v);
    }

    /// The data block number in direct slot `idx`, or 0 past the last slot.
    #[verifier::when_used_as_spec(spec_direct_block)]
    pub fn direct_block(&self, idx: usize) -> (r: u16)
        ensures
            r == self.spec_direct_block(idx),
    {
        if idx >= INODE_DIRECT_BLOCKS {
            return 0;
        }
        let off = 5 + idx * 2;
        read_u16_le(&self.data, off)
    }

    /// Stores `v` in direct slot `idx`; does nothing past the last slot.
    pub fn set_direct_block(&mut self, idx: usize, v: u16)
        ensures
            idx >= INODE_DIRECT_BLOCKS ==> final(self).data@ == old(self).data@,
            idx < INODE_DIRECT_BLOCKS ==> final(self).data@ == splice(
                old(self).data@,
                direct_off(idx as int),
                u16_le(v),
            ),
            idx < INODE_DIRECT_BLOCKS ==> final(self).direct_block(idx) == v,
    {
        if idx >= INODE_DIRECT_BLOCKS {
            return;
        }
        let off = 5 + idx * 2;
        write_u16_le(&mut self.data, off, v);
    }

    #[verifier::when_used_as_spec(spec_links_count)]
    pub fn links_count(&self) -> (r: u8)
        ensures
            r == self.data@[25],
    {
        self.data[25]
    }

    pub fn set_links_count(&mut self, v: u8)
        ensures
            final(self).data@ == old(self).data@.update(25, v),
    {
        self.data[25] = v;
    }
}

} // verus!

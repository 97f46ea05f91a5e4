//! The first block of the file system: its layout parameters.
use vstd::prelude::*;

use crate::bytes::{le_u32, read_u32_le, splice, u32_le, write_u32_le};
use crate::storage::error::{FsError, FsResult};

verus! {

pub const TMPFS_MAGIC: u32 = 0x544D5046;
pub const TMPFS_VERSION: u32 = 1;

/// The superblock, kept as the 512 raw bytes of block 0.
///
/// Each parameter is a little-endian `u32` in a slot of its own, in this
/// order from offset 0: magic, version, block size, total blocks, inode
/// count, bitmap start, bitmap blocks, inode start, inode blocks, data start,
/// data blocks, free data blocks, next free inode.
pub struct Superblock {
    pub data: [u8; 512],
}

impl Superblock {
    /// The `u32` field stored at byte offset `off`.
    pub open spec fn field(&self, off: int) -> u32 {
        le_u32(self.data@, off) as u32
    }

    /// Parses a superblock from the first 512 bytes of `data`; fails unless
    /// there are that many bytes and they carry the magic and the version.
    pub fn new(data: &[u8]) -> (r: FsResult<Self>)
        ensures
            r is Ok <==> (data@.len() >= 512 && le_u32(data@, 0) == TMPFS_MAGIC && le_u32(
                data@,
                4,
            ) == TMPFS_VERSION),
            r is Err ==> r == Err::<Self, FsError>(FsError::InvalidOperation),
            r matches Ok(sb) ==> sb.data@ == data@.subrange(0, 512),
    {
        if data.len() < 512 {
            return Err(FsError::InvalidOperation);
        }
        let mut buf = [0u8; 512];
        let mut i: usize = 0;
        while i < 512
            invariant
                i <= 512,
                data@.len() >= 512,
                forall|j: int| 0 <= j < i ==> buf@[j] == data@[j],
            decreases 512 - i,
        {
            buf[i] = data[i];
            i = i + 1;
        }
        let sb = Superblock { data: buf };
        assert(sb.data@ =~= data@.subrange(0, 512));
        if sb.magic() != TMPFS_MAGIC || sb.version() != TMPFS_VERSION {
            return Err(FsError::InvalidOperation);
        }
        Ok(sb)
    }

    /// A superblock whose bytes are all zero.
    pub fn empty() -> (r: Self)
        ensures
            forall|i: int| 0 <= i < 512 ==> r.data@[i] == 0,
    {
        Self { data: [0u8; 512] }
    }

    pub open spec fn spec_magic(&self) -> u32 {
        self.field(0)
    }

    /// The `magic` parameter.
    #[verifier::when_used_as_spec(spec_magic)]
    pub fn magic(&self) -> (r: u32)
        ensures
            r == self.field(0),
    {
        read_u32_le(&self.data, 0)
    }

    pub open spec fn spec_version(&self) -> u32 {
        self.field(4)
    }

    /// The `version` parameter.
    #[verifier::when_used_as_spec(spec_version)]
    pub fn version(&self) -> (r: u32)
        ensures
            r == self.field(4),
    {
        read_u32_le(&self.data, 4)
    }

    pub open spec fn spec_block_size(&self) -> u32 {
        self.field(8)
    }

    /// The `block_size` parameter.
    #[verifier::when_used_as_spec(spec_block_size)]
    pub fn block_size(&self) -> (r: u32)
        ensures
            r == self.field(8),
    {
        read_u32_le(&self.data, 8)
    }

    pub open spec fn spec_total_blocks(&self) -> u32 {
        self.field(12)
    }

    /// The `total_blocks` parameter.
    #[verifier::when_used_as_spec(spec_total_blocks)]
    pub fn total_blocks(&self) -> (r: u32)
        ensures
            r == self.field(12),
    {
        read_u32_le(&self.data, 12)
    }

    pub open spec fn spec_inode_count(&self) -> u32 {
        self.field(16)
    }

    /// The `inode_count` parameter.
    #[verifier::when_used_as_spec(spec_inode_count)]
    pub fn inode_count(&self) -> (r: u32)
        ensures
            r == self.field(16),
    {
        read_u32_le(&self.data, 16)
    }

    pub open spec fn spec_bitmap_start(&self) -> u32 {
        self.field(20)
    }

    /// The `bitmap_start` parameter.
    #[verifier::when_used_as_spec(spec_bitmap_start)]
    pub fn bitmap_start(&self) -> (r: u32)
        ensures
            r == self.field(20),
    {
        read_u32_le(&self.data, 20)
    }

    pub open spec fn spec_bitmap_blocks(&self) -> u32 {
        self.field(24)
    }

    /// The `bitmap_blocks` parameter.
    #[verifier::when_used_as_spec(spec_bitmap_blocks)]
    pub fn bitmap_blocks(&self) -> (r: u32)
        ensures
            r == self.field(24),
    {
        read_u32_le(&self.data, 24)
    }

    pub open spec fn spec_inode_start(&self) -> u32 {
        self.field(28)
    }

    /// The `inode_start` parameter.
    #[verifier::when_used_as_spec(spec_inode_start)]
    pub fn inode_start(&self) -> (r: u32)
        ensures
            r == self.field(28),
    {
        read_u32_le(&self.data, 28)
    }

    pub open spec fn spec_inode_blocks(&self) -> u32 {
        self.field(32)
    }

    /// The `inode_blocks` parameter.
    #[verifier::when_used_as_spec(spec_inode_blocks)]
    pub fn inode_blocks(&self) -> (r: u32)
        ensures
            r == self.field(32),
    {
        read_u32_le(&self.data, 32)
    }

    pub open spec fn spec_data_start(&self) -> u32 {
        self.field(36)
    }

    /// The `data_start` parameter.
    #[verifier::when_used_as_spec(spec_data_start)]
    pub fn data_start(&self) -> (r: u32)
        ensures
            r == self.field(36),
    {
        read_u32_le(&self.data, 36)
    }

    pub open spec fn spec_data_blocks(&self) -> u32 {
        self.field(40)
    }

    /// The `data_blocks` parameter.
    #[verifier::when_used_as_spec(spec_data_blocks)]
    pub fn data_blocks(&self) -> (r: u32)
        ensures
            r == self.field(40),
    {
        read_u32_le(&self.data, 40)
    }

    pub open spec fn spec_free_data_blocks(&self) -> u32 {
        self.field(44)
    }

    /// The `free_data_blocks` parameter.
    #[verifier::when_used_as_spec(spec_free_data_blocks)]
    pub fn free_data_blocks(&self) -> (r: u32)
        ensures
            r == self.field(44),
    {
        read_u32_le(&self.data, 44)
    }

    pub open spec fn spec_next_free_inode(&self) -> u32 {
        self.field(48)
    }

    /// The `next_free_inode` parameter.
    #[verifier::when_used_as_spec(spec_next_free_inode)]
    pub fn next_free_inode(&self) -> (r: u32)
        ensures
            r == self.field(48),
    {
        read_u32_le(&self.data, 48)
    }

    /// Stores `v` as the `magic` parameter; no other byte changes.
    pub fn set_magic(&mut self, v: u32)
        ensures
            final(self).data@ == splice(old(self).data@, 0, u32_le(v)),
            final(self).field(0) == v,
    {
        write_u32_le(&mut self.data, 0, v);
    }

    /// Stores `v` as the `version` parameter; no other byte changes.
    pub fn set_version(&mut self, v: u32)
        ensures
            final(self).data@ == splice(old(self).data@, 4, u32_le(v)),
            final(self).field(4) == v,
    {
        write_u32_le(&mut self.data, 4, v);
    }

    /// Stores `v` as the `block_size` parameter; no other byte changes.
    pub fn set_block_size(&mut self, v: u32)
        ensures
            final(self).data@ == splice(old(self).data@, 8, u32_le(v)),
            final(self).field(8) == v,
    {
        write_u32_le(&mut self.data, 8, v);
    }

    /// Stores `v` as the `total_blocks` parameter; no other byte changes.
    pub fn set_total_blocks(&mut self, v: u32)
        ensures
            final(self).data@ == splice(old(self).data@, 12, u32_le(v)),
            final(self).field(12) == v,
    {
        write_u32_le(&mut self.data, 12, v);
    }

    /// Stores `v` as the `inode_count` parameter; no other byte changes.
    pub fn set_inode_count(&mut self, v: u32)
        ensures
            final(self).data@ == splice(old(self).data@, 16, u32_le(v)),
            final(self).field(16) == v,
    {
        write_u32_le(&mut self.data, 16, v);
    }

    /// Stores `v` as the `bitmap_start` parameter; no other byte changes.
    pub fn set_bitmap_start(&mut self, v: u32)
        ensures
            final(self).data@ == splice(old(self).data@, 20, u32_le(v)),
            final(self).field(20) == v,
    {
        write_u32_le(&mut self.data, 20, v);
    }

    /// Stores `v` as the `bitmap_blocks` parameter; no other byte changes.
    pub fn set_bitmap_blocks(&mut self, v: u32)
        ensures
            final(self).data@ == splice(old(self).data@, 24, u32_le(v)),
            final(self).field(24) == v,
    {
        write_u32_le(&mut self.data, 24, v);
    }

    /// Stores `v` as the `inode_start` parameter; no other byte changes.
    pub fn set_inode_start(&mut self, v: u32)
        ensures
            final(self).data@ == splice(old(self).data@, 28, u32_le(v)),
            final(self).field(28) == v,
    {
        write_u32_le(&mut self.data, 28, v);
    }

    /// Stores `v` as the `inode_blocks` parameter; no other byte changes.
    pub fn set_inode_blocks(&mut self, v: u32)
        ensures
            final(self).data@ == splice(old(self).data@, 32, u32_le(v)),
            final(self).field(32) == v,
    {
        write_u32_le(&mut self.data, 32, v);
    }

    /// Stores `v` as the `data_start` parameter; no other byte changes.
    pub fn set_data_start(&mut self, v: u32)
        ensures
            final(self).data@ == splice(old(self).data@, 36, u32_le(v)),
            final(self).field(36) == v,
    {
        write_u32_le(&mut self.data, 36, v);
    }

    /// Stores `v` as the `data_blocks` parameter; no other byte changes.
    pub fn set_data_blocks(&mut self, v: u32)
        ensures
            final(self).data@ == splice(old(self).data@, 40, u32_le(v)),
            final(self).field(40) == v,
    {
        write_u32_le(&mut self.data, 40, v);
    }

    /// Stores `v` as the `free_data_blocks` parameter; no other byte changes.
    pub fn set_free_data_blocks(&mut self, v: u32)
        ensures
            final(self).data@ == splice(old(self).data@, 44, u32_le(v)),
            final(self).field(44) == v,
    {
        write_u32_le(&mut self.data, 44, v);
    }

    /// Stores `v` as the `next_free_inode` parameter; no other byte changes.
    pub fn set_next_free_inode(&mut self, v: u32)
        ensures
            final(self).data@ == splice(old(self).data@, 48, u32_le(v)),
            final(self).field(48) == v,
    {
        write_u32_le(&mut self.data, 48, v);
    }
}

} // verus!

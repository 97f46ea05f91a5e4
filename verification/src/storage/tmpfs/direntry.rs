//! The 32-byte on-disk directory entry.
use vstd::prelude::*;
use vstd::string::StringSliceAdditionalSpecFns;
use vstd::utf8::valid_utf8;

use crate::bytes::{le_u16, read_u16_le, splice, u16_le, write_u16_le};
use crate::storage::text::{prefix_before_zero, str_from_utf8};

verus! {

pub const DIRENTRY_NAME_LEN: usize = 28;

/// A directory entry as its 32 raw bytes: a zero-terminated name in bytes
/// 0..28 and the inode number as a little-endian `u16` at bytes 28..30.
pub struct DirEntryData {
    pub data: [u8; 32],
}

/// The bytes stored for a name: at most 27 of them, then zeros up to 28.
pub open spec fn stored_name(name: Seq<u8>) -> Seq<u8> {
    let n = if name.len() < 27 { name.len() as int } else { 27 };
    name.subrange(0, n) + Seq::new((28 - n) as nat, |_i: int| 0u8)
}

/// The bytes of the name that entry bytes `d` give back: those before the
/// first zero among the first 28, or none where those are not UTF-8.
pub open spec fn entry_name_of(d: Seq<u8>) -> Seq<u8> {
    let raw = prefix_before_zero(d.subrange(0, 28));
    if valid_utf8(raw) {
        raw
    } else {
        Seq::empty()
    }
}

impl DirEntryData {
    /// The bytes of the name as `name` gives it back.
    pub open spec fn name_bytes(&self) -> Seq<u8> {
        entry_name_of(self.data@)
    }

    /// The entry stored at bytes `off..off + 32` of `block`.
    pub fn from_block(block: &[u8; 512], off: usize) -> (r: Self)
        requires
            off + 32 <= 512,
        ensures
            r.data@ == block@.subrange(off as int, off + 32),
    {
        let mut data = [0u8; 32];
        let mut i: usize = 0;
        while i < 32
            invariant
                i <= 32,
                off + 32 <= 512,
                forall|j: int| 0 <= j < i ==> data@[j] == block@[off + j],
            decreases 32 - i,
        {
            data[i] = block[off + i];
            i = i + 1;
        }
        let r = Self { data };
        assert(r.data@ =~= block@.subrange(off as int, off + 32));
        r
    }

    pub open spec fn spec_inode(&self) -> u16 {
        le_u16(self.data@, 28) as u16
    }

    pub open spec fn spec_is_empty(&self) -> bool {
        self.data@[0] == 0
    }

    /// An all-zero entry.
    pub fn empty() -> (r: Self)
        ensures
            r.data@ == Seq::new(32, |_i: int| 0u8),
    {
        let r = Self { data: [0u8; 32] };
        assert(r.data@ =~= Seq::new(32, |_i: int| 0u8));
        r
    }

    /// An entry for `name` (cut to its first 27 bytes) pointing at `inode`.
    pub fn new(name: &str, inode: u16) -> (r: Self)
        ensures
            r.data@ == stored_name(name.spec_bytes()) + u16_le(inode) + seq![0u8, 0u8],
            r.inode() == inode,
    {
        let mut d = Self { data: [0u8; 32] };
        let name_bytes = name.as_bytes();
        let copy_len = if name_bytes.len() < DIRENTRY_NAME_LEN - 1 {
            name_bytes.len()
        } else {
            DIRENTRY_NAME_LEN - 1
        };
        let mut i: usize = 0;
        while i < copy_len
            invariant
                i <= copy_len,
                copy_len <= 27,
                copy_len <= name_bytes@.len(),
                forall|j: int| 0 <= j < i ==> d.data@[j] == name_bytes@[j],
                forall|j: int| i <= j < 32 ==> d.data@[j] == 0,
            decreases copy_len - i,
        {
            d.data[i] = name_bytes[i];
            i = i + 1;
        }
        write_u16_le(&mut d.data, 28, inode);
        assert(d.data@ =~= stored_name(name.spec_bytes()) + u16_le(inode) + seq![0u8, 0u8]);
        d
    }

    /// The name, or the empty string where the stored bytes are not UTF-8.
    pub fn name(&self) -> (r: &str)
        ensures
            r.spec_bytes() == self.name_bytes(),
    {
        let mut end: usize = 0;
        while end < DIRENTRY_NAME_LEN && self.data[end] != 0
            invariant
                end <= 28,
                forall|j: int| 0 <= j < end ==> self.data@[j] != 0,
            decreases 28 - end,
        {
            end = end + 1;
        }
        proof {
            crate::storage::text::lemma_prefix_before_zero(self.data@.subrange(0, 28), end as int);
            assert(self.data@.subrange(0, 28).subrange(0, end as int) =~= self.data@.subrange(
                0,
                end as int,
            ));
        }
        let s = &self.data[0..end];
        match str_from_utf8(s) {
            Ok(n) => n,
            Err(_) => {
                proof {
                    reveal_strlit("");
                }
                ""
            },
        }
    }

    #[verifier::when_used_as_spec(spec_inode)]
    pub fn inode(&self) -> (r: u16)
        ensures
            r == le_u16(self.data@, 28),
    {
        read_u16_le(&self.data, 28)
    }

    #[verifier::when_used_as_spec(spec_is_empty)]
    pub fn is_empty(&self) -> (r: bool)
        ensures
            r == (self.data@[0] == 0),
    {
        self.data[0] == 0
    }
}

} // verus!

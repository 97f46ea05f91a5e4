//! FAT16 clusters, directory entries and short file names.
use vstd::prelude::*;
use vstd::string::{StringExecFns, StringSliceAdditionalSpecFns};
use vstd::utf8::valid_utf8;

use crate::bytes::{le_u16, le_u32, read_u16_le, read_u32_le};
use crate::storage::error::{FsError, FsResult};
use crate::storage::metadata::{FileType, MetaView, Metadata};
use crate::storage::text::str_from_utf8;

verus! {

/// A cluster number, or one of the markers below.
#[derive(Clone, Copy, Debug, PartialEq, Eq, Structural)]
pub struct Cluster(pub u32);

/// A free cluster.
pub const CLUSTER_EMPTY: u32 = 0;

/// A FAT entry that holds a reserved value.
pub const CLUSTER_INVALID: u32 = 0xFFFF_FFF6;

/// A cluster marked bad.
pub const CLUSTER_BAD: u32 = 0xFFFF_FFF7;

/// The root directory, which lies before the data region.
pub const CLUSTER_ROOT_DIR: u32 = 0xFFFF_FFFC;

/// The end of a cluster chain.
pub const CLUSTER_END_OF_FILE: u32 = 0xFFFF_FFFF;

/// A cluster of the data region: FAT16 numbers them from 2 below 0x10000.
pub open spec fn is_data_cluster(c: u32) -> bool {
    2 <= c < 0x1_0000
}

/// Length of a directory entry in bytes.
pub const DIRENTRY_LEN: usize = 32;

/// The attribute bit of the volume label's entry.
pub const ATTR_VOLUME_ID: u8 = 0x08;

/// The attribute bit of a directory's entry.
pub const ATTR_DIRECTORY: u8 = 0x10;

/// The attribute value of an entry that holds part of a long name.
pub const ATTR_LONG_NAME: u8 = 0x0F;

/// First name byte of a deleted entry.
pub const DELETED_MARK: u8 = 0xE5;

/// Whether bit `bit` (a power of two) is set in `b`.
pub open spec fn has_bit(b: u8, bit: u8) -> bool {
    (b / bit) % 2 == 1
}

/// Entry `s` (32 bytes) is in use: neither the end marker nor deleted.
pub open spec fn slot_valid(s: Seq<u8>) -> bool {
    s[0] != 0 && s[0] != DELETED_MARK
}

/// Entry `s` holds part of a long name.
pub open spec fn slot_long_name(s: Seq<u8>) -> bool {
    s[11] == ATTR_LONG_NAME
}

/// Entry `s` is the volume label.
pub open spec fn slot_volume_id(s: Seq<u8>) -> bool {
    has_bit(s[11], 8)
}

/// Entry `s` describes a directory.
pub open spec fn slot_directory(s: Seq<u8>) -> bool {
    has_bit(s[11], 16)
}

/// An entry that names a file or a directory: in use, not part of a long
/// name, not the volume label.
pub open spec fn slot_names_file(s: Seq<u8>) -> bool {
    slot_valid(s) && !slot_long_name(s) && !slot_volume_id(s)
}

/// `s` without its trailing spaces.
pub open spec fn trim_spaces(s: Seq<u8>) -> Seq<u8>
    decreases s.len(),
{
    if s.len() > 0 && s.last() == 0x20 {
        trim_spaces(s.drop_last())
    } else {
        s
    }
}

/// The name of entry `s` as text: the base name and, where there is one,
/// a period and the extension, both without padding; empty where these
/// bytes are not UTF-8.
pub open spec fn slot_name(s: Seq<u8>) -> Seq<u8> {
    let base = trim_spaces(s.subrange(0, 8));
    let ext = trim_spaces(s.subrange(8, 11));
    let raw = if ext.len() == 0 {
        base
    } else {
        base + seq![0x2eu8] + ext
    };
    if valid_utf8(raw) {
        raw
    } else {
        Seq::empty()
    }
}

/// What a listing says of entry `s`.
pub open spec fn slot_meta(s: Seq<u8>) -> MetaView {
    MetaView {
        name: slot_name(s),
        entry_type: if slot_directory(s) {
            FileType::Directory
        } else {
            FileType::File
        },
        len: le_u32(s, 28),
        links: 1,
    }
}

/// A directory entry, as its 32 bytes on disk.
#[derive(Clone, Copy)]
pub struct DirEntry {
    pub data: [u8; 32],
}

impl DirEntry {
    /// The entry stored at bytes `off..off + 32` of `block`.
    pub fn parse(block: &[u8; 512], off: usize) -> (r: Self)
        requires
            off + 32 <= 512,
        ensures
            r.data@ == block@.subrange(off as int, off + 32),
    {
        let mut data = [0u8; 32];
        let mut i: usize = 0;
        while i < 32
            invariant
                i <= 32,
                off + 32 <= 512,
                forall|j: int| 0 <= j < i ==> data@[j] == block@[off + j],
            decreases 32 - i,
        {
            data[i] = block[off + i];
            i = i + 1;
        }
        assert(data@ =~= block@.subrange(off as int, off + 32));
        DirEntry { data }
    }

    pub fn is_valid(&self) -> (r: bool)
        ensures
            r == slot_valid(self.data@),
    {
        self.data[0] != 0 && self.data[0] != DELETED_MARK
    }

    pub fn is_long_name(&self) -> (r: bool)
        ensures
            r == slot_long_name(self.data@),
    {
        self.data[11] == ATTR_LONG_NAME
    }

    pub fn is_volume_id(&self) -> (r: bool)
        ensures
            r == slot_volume_id(self.data@),
    {
        (self.data[11] / ATTR_VOLUME_ID) % 2 == 1
    }

    pub fn is_directory(&self) -> (r: bool)
        ensures
            r == slot_directory(self.data@),
    {
        (self.data[11] / ATTR_DIRECTORY) % 2 == 1
    }

    /// The first cluster of the entry's data (FAT16 keeps only the low word).
    pub fn cluster(&self) -> (r: Cluster)
        ensures
            r.0 == le_u16(self.data@, 26),
    {
        Cluster(read_u16_le(&self.data, 26) as u32)
    }

    /// The size of the file in bytes.
    pub fn size(&self) -> (r: u32)
        ensures
            r == le_u32(self.data@, 28),
    {
        read_u32_le(&self.data, 28)
    }
}

/// A short file name as stored in an entry: eight bytes of base name and
/// three of extension, padded with spaces.
#[derive(Clone, Copy, Debug)]
pub struct ShortFileName {
    pub name: [u8; 8],
    pub ext: [u8; 3],
}

/// Bytes that no short name may hold.
pub open spec fn sfn_forbidden(c: u8) -> bool {
    c <= 0x20 || c >= 0x7f || c == 0x22 || c == 0x2a || c == 0x2b || c == 0x2c || c == 0x2f
        || c == 0x3a || c == 0x3b || c == 0x3c || c == 0x3d || c == 0x3e || c == 0x3f || c == 0x5b
        || c == 0x5c || c == 0x5d || c == 0x7c
}

/// `c` in upper case, for an ASCII letter.
pub open spec fn ascii_upper(c: u8) -> u8 {
    if 0x61 <= c <= 0x7a {
        (c - 32) as u8
    } else {
        c
    }
}

/// Reading a name left to right: the base name and extension so far,
/// whether the period was seen, and whether the name is still acceptable.
pub struct SfnState {
    pub base: Seq<u8>,
    pub ext: Seq<u8>,
    pub dot: bool,
    pub ok: bool,
}

pub open spec fn sfn_state(s: Seq<u8>) -> SfnState
    decreases s.len(),
{
    if s.len() == 0 {
        SfnState { base: Seq::empty(), ext: Seq::empty(), dot: false, ok: true }
    } else {
        let st = sfn_state(s.drop_last());
        let c = s.last();
        if !st.ok {
            st
        } else if c == 0x2e {
            if !st.dot && st.base.len() > 0 {
                SfnState { dot: true, ..st }
            } else {
                SfnState { ok: false, ..st }
            }
        } else if sfn_forbidden(c) {
            SfnState { ok: false, ..st }
        } else if st.dot {
            if st.ext.len() < 3 {
                SfnState { ext: st.ext.push(ascii_upper(c)), ..st }
            } else {
                SfnState { ok: false, ..st }
            }
        } else if st.base.len() < 8 {
            SfnState { base: st.base.push(ascii_upper(c)), ..st }
        } else {
            SfnState { ok: false, ..st }
        }
    }
}

/// `s` padded with spaces to `n` bytes.
pub open spec fn pad_spaces(s: Seq<u8>, n: int) -> Seq<u8> {
    s + Seq::new((n - s.len()) as nat, |_i: int| 0x20u8)
}

/// The eleven stored bytes of the short name that `s` spells, if it spells
/// one: "." and ".." as themselves; otherwise one to eight name bytes,
/// optionally a period and up to three extension bytes, none of them a
/// space, a control byte, a non-ASCII byte or one of `"*+,/:;<=>?[\]|`,
/// letters taken in upper case.
pub open spec fn sfn_of(s: Seq<u8>) -> Option<Seq<u8>> {
    if s == seq![0x2eu8] || s == seq![0x2eu8, 0x2eu8] {
        Some(pad_spaces(s, 11))
    } else {
        let st = sfn_state(s);
        if st.ok && st.base.len() > 0 {
            Some(pad_spaces(st.base, 8) + pad_spaces(st.ext, 3))
        } else {
            None
        }
    }
}

impl ShortFileName {
    /// The eleven bytes as an entry stores them.
    pub open spec fn bytes(&self) -> Seq<u8> {
        self.name@ + self.ext@
    }

    /// The short name spelled by `name`.
    pub fn parse(name: &str) -> (r: FsResult<ShortFileName>)
        ensures
            r is Ok <==> sfn_of(name.spec_bytes()) is Some,
            r matches Ok(n) ==> Some(n.bytes()) == sfn_of(name.spec_bytes()),
            r is Err ==> r == Err::<ShortFileName, FsError>(FsError::FileNotFound),
    {
        let b = name.as_bytes();
        let ghost s = b@;
        let mut sfn = ShortFileName { name: [0x20u8; 8], ext: [0x20u8; 3] };
        if b.len() == 1 && b[0] == 0x2e || b.len() == 2 && b[0] == 0x2e && b[1] == 0x2e {
            sfn.name[0] = 0x2e;
            if b.len() == 2 {
                sfn.name[1] = 0x2e;
            }
            proof {
                if b.len() == 1 {
                    assert(s =~= seq![0x2eu8]);
                } else {
                    assert(s =~= seq![0x2eu8, 0x2eu8]);
                }
                assert(sfn.bytes() =~= pad_spaces(s, 11));
            }
            return Ok(sfn);
        }
        assert(s != seq![0x2eu8]) by {
            if s == seq![0x2eu8] {
                assert(s.len() == 1 && s[0] == 0x2e);
            }
        }
        assert(s != seq![0x2eu8, 0x2eu8]) by {
            if s == seq![0x2eu8, 0x2eu8] {
                assert(s.len() == 2 && s[0] == 0x2e && s[1] == 0x2e);
            }
        }
        let mut nb: usize = 0;
        let mut ne: usize = 0;
        let mut dot = false;
        let mut i: usize = 0;
        while i < b.len()
            invariant
                s == b@,
                s == name.spec_bytes(),
                s != seq![0x2eu8],
                s != seq![0x2eu8, 0x2eu8],
                i <= s.len(),
                nb <= 8,
                ne <= 3,
                ({
                    let st = sfn_state(s.subrange(0, i as int));
                    &&& st.ok
                    &&& st.base == sfn.name@.subrange(0, nb as int)
                    &&& st.ext == sfn.ext@.subrange(0, ne as int)
                    &&& st.dot == dot
                }),
                forall|k: int| nb <= k < 8 ==> sfn.name@[k] == 0x20,
                forall|k: int| ne <= k < 3 ==> sfn.ext@[k] == 0x20,
            decreases s.len() - i,
        {
            let c = b[i];
            let ghost pre = s.subrange(0, i + 1);
            assert(pre.drop_last() =~= s.subrange(0, i as int));
            let up = if 0x61 <= c && c <= 0x7a {
                c - 32
            } else {
                c
            };
            if c == 0x2e {
                if dot || nb == 0 {
                    proof { lemma_sfn_fails_after(s, i as int + 1); }
                    return Err(FsError::FileNotFound);
                }
                dot = true;
            } else if c <= 0x20 || c >= 0x7f || c == 0x22 || c == 0x2a || c == 0x2b || c == 0x2c
                || c == 0x2f || c == 0x3a || c == 0x3b || c == 0x3c || c == 0x3d || c == 0x3e
                || c == 0x3f || c == 0x5b || c == 0x5c || c == 0x5d || c == 0x7c {
                proof { lemma_sfn_fails_after(s, i as int + 1); }
                return Err(FsError::FileNotFound);
            } else if dot {
                if ne >= 3 {
                    proof { lemma_sfn_fails_after(s, i as int + 1); }
                    return Err(FsError::FileNotFound);
                }
                sfn.ext[ne] = up;
                ne = ne + 1;
                assert(sfn.ext@.subrange(0, ne as int) =~= sfn_state(pre).ext);
            } else {
                if nb >= 8 {
                    proof { lemma_sfn_fails_after(s, i as int + 1); }
                    return Err(FsError::FileNotFound);
                }
                sfn.name[nb] = up;
                nb = nb + 1;
                assert(sfn.name@.subrange(0, nb as int) =~= sfn_state(pre).base);
            }
            i = i + 1;
        }
        assert(s.subrange(0, s.len() as int) =~= s);
        if nb == 0 {
            return Err(FsError::FileNotFound);
        }
        assert(sfn.name@ =~= pad_spaces(sfn.name@.subrange(0, nb as int), 8));
        assert(sfn.ext@ =~= pad_spaces(sfn.ext@.subrange(0, ne as int), 3));
        Ok(sfn)
    }
}

/// Once the name read so far is refused, the whole name is.
proof fn lemma_sfn_fails_after(s: Seq<u8>, n: int)
    requires
        0 <= n <= s.len(),
        !sfn_state(s.subrange(0, n)).ok,
        s != seq![0x2eu8],
        s != seq![0x2eu8, 0x2eu8],
    ensures
        !sfn_state(s).ok,
        sfn_of(s) is None,
    decreases s.len() - n,
{
    if n < s.len() {
        assert(s.subrange(0, n + 1).drop_last() =~= s.subrange(0, n));
        lemma_sfn_fails_after(s, n + 1);
    } else {
        assert(s.subrange(0, n) =~= s);
    }
}

impl DirEntry {
    /// Whether the entry's stored name is `sfn`.
    pub fn matches(&self, sfn: &ShortFileName) -> (r: bool)
        ensures
            r == (self.data@.subrange(0, 11) == sfn.bytes()),
    {
        let mut i: usize = 0;
        while i < 11
            invariant
                i <= 11,
                forall|k: int| 0 <= k < i ==> self.data@[k] == sfn.bytes()[k],
            decreases 11 - i,
        {
            let want = if i < 8 {
                sfn.name[i]
            } else {
                sfn.ext[i - 8]
            };
            if self.data[i] != want {
                assert(self.data@.subrange(0, 11)[i as int] != sfn.bytes()[i as int]);
                return false;
            }
            i = i + 1;
        }
        assert(self.data@.subrange(0, 11) =~= sfn.bytes());
        true
    }
}

impl DirEntry {
    /// What a listing says of this entry.
    pub fn as_meta(&self) -> (r: Metadata)
        ensures
            r@ == slot_meta(self.data@),
    {
        let ghost d = self.data@;
        let mut nb: usize = 8;
        while nb > 0 && self.data[nb - 1] == 0x20
            invariant
                nb <= 8,
                d == self.data@,
                trim_spaces(d.subrange(0, 8)) == trim_spaces(d.subrange(0, nb as int)),
            decreases nb,
        {
            assert(d.subrange(0, nb as int).drop_last() =~= d.subrange(0, nb - 1));
            nb = nb - 1;
        }
        let mut ne: usize = 3;
        while ne > 0 && self.data[8 + ne - 1] == 0x20
            invariant
                ne <= 3,
                d == self.data@,
                trim_spaces(d.subrange(8, 11)) == trim_spaces(d.subrange(8, 8 + ne)),
            decreases ne,
        {
            assert(d.subrange(8, 8 + ne).drop_last() =~= d.subrange(8, 8 + ne - 1));
            ne = ne - 1;
        }
        let ghost base = d.subrange(0, nb as int);
        let ghost ext = d.subrange(8, 8 + ne);
        assert(trim_spaces(d.subrange(0, 8)) == base);
        assert(trim_spaces(d.subrange(8, 11)) == ext);
        let mut v: Vec<u8> = Vec::new();
        let mut i: usize = 0;
        while i < nb
            invariant
                i <= nb <= 8,
                d == self.data@,
                v@ == d.subrange(0, i as int),
            decreases nb - i,
        {
            v.push(self.data[i]);
            i = i + 1;
            assert(v@ =~= d.subrange(0, i as int));
        }
        if ne > 0 {
            v.push(0x2e);
            let mut k: usize = 0;
            while k < ne
                invariant
                    k <= ne <= 3,
                    nb <= 8,
                    d == self.data@,
                    v@ == base + seq![0x2eu8] + d.subrange(8, 8 + k),
                decreases ne - k,
            {
                v.push(self.data[8 + k]);
                k = k + 1;
                assert(v@ =~= base + seq![0x2eu8] + d.subrange(8, 8 + k));
            }
        } else {
            assert(v@ =~= base);
        }
        let name = match str_from_utf8(v.as_slice()) {
            Ok(s) => String::from_str(s),
            Err(_) => {
                proof {
                    reveal_strlit("");
                }
                String::from_str("")
            },
        };
        let entry_type = if self.is_directory() {
            FileType::Directory
        } else {
            FileType::File
        };
        Metadata::new(name, entry_type, self.size() as usize)
    }
}

/// A directory of the volume, by its first cluster.
#[derive(Clone, Copy)]
pub struct Directory {
    pub cluster: Cluster,
}

impl Directory {
    /// The root directory.
    pub fn root() -> (r: Self)
        ensures
            r.cluster.0 == CLUSTER_ROOT_DIR,
    {
        Directory { cluster: Cluster(CLUSTER_ROOT_DIR) }
    }

    /// The directory that `entry` describes.
    pub fn from_entry(entry: DirEntry) -> (r: Self)
        ensures
            r.cluster.0 == le_u16(entry.data@, 26),
    {
        Directory { cluster: entry.cluster() }
    }
}

} // verus!

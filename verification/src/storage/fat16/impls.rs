//! The FAT16 volume: its geometry, the file allocation table, and reading
//! directories.
use vstd::prelude::*;
use vstd::string::{StringExecFns, StringSliceAdditionalSpecFns};
use vstd::utf8::is_ascii_chars_encode_utf8;

use crate::bytes::{le_u16, read_u16_le};
use crate::storage::block::{Block512, BlockDevice};
use crate::storage::fat16::bpb::{bpb_of, bpb_ok, Fat16Bpb};
use crate::storage::error::{FsError, FsResult};
use crate::storage::fat16::direntry::{
    is_data_cluster, sfn_of, slot_directory, Directory, ShortFileName, slot_meta, slot_names_file, trim_spaces, Cluster, DirEntry,
    CLUSTER_BAD, CLUSTER_EMPTY, CLUSTER_END_OF_FILE, CLUSTER_INVALID, CLUSTER_ROOT_DIR,
};
use crate::storage::metadata::{views, FileType, MetaView, Metadata};
use crate::storage::text::{path_components, split_path_str, strs_bytes};

verus! {

/// Sectors taken by the root directory's entries, rounded up.
pub open spec fn root_dir_sectors(b: Fat16Bpb) -> int {
    (b.root_entries_count * 32 + b.bytes_per_sector - 1) / (b.bytes_per_sector as int)
}

/// The first sector of the root directory: after the reserved sectors and
/// the copies of the FAT.
pub open spec fn first_root_of(b: Fat16Bpb) -> int {
    b.reserved_sector_count + b.fat_count * b.sectors_per_fat
}

/// The first sector of the data region: after the root directory.
pub open spec fn first_data_of(b: Fat16Bpb) -> int {
    first_root_of(b) + root_dir_sectors(b)
}

/// Blocks of 512 bytes in one sector.
pub open spec fn bpsb_of(b: Fat16Bpb) -> int {
    (b.bytes_per_sector / 512) as int
}

/// The volume's block numbers fit in a `usize`, and the device holds the
/// whole first FAT as FAT16 can address it (256 blocks).
pub open spec fn volume_fits(b: Fat16Bpb, blocks: int) -> bool {
    &&& (first_data_of(b) + 0x1_0000 * b.sectors_per_cluster) * bpsb_of(b) <= usize::MAX
    &&& b.reserved_sector_count * bpsb_of(b) + 256 <= blocks
}

/// The cluster a FAT entry of value `e` points to, or the marker it stands for.
pub open spec fn fat_value(e: int) -> u32 {
    if e == 0 {
        CLUSTER_EMPTY
    } else if e == 1 || (0xFFF0 <= e <= 0xFFF6) {
        CLUSTER_INVALID
    } else if e == 0xFFF7 {
        CLUSTER_BAD
    } else if e >= 0xFFF8 {
        CLUSTER_END_OF_FILE
    } else {
        e as u32
    }
}

/// A cluster number that FAT16 can hold, or one of the markers.
pub open spec fn cluster_in_range(c: u32) -> bool {
    c < 0x1_0000 || c == CLUSTER_INVALID || c == CLUSTER_BAD || c == CLUSTER_ROOT_DIR
        || c == CLUSTER_END_OF_FILE
}

/// Entry `i` (of the sixteen) of block `blk`.
pub open spec fn slot_at(blk: Seq<u8>, i: int) -> Seq<u8> {
    blk.subrange(32 * i, 32 * i + 32)
}

/// What looking for a stored name in a block finds.
pub enum SlotFind {
    Found(Seq<u8>),
    EndMark,
    Nothing,
}

/// Looking for the entry whose stored name is `name` in block `blk`, from
/// entry `i` on: the first entry that names a file with that name, or the
/// end-of-directory mark (an entry whose first byte is zero), whichever
/// comes first.
pub open spec fn find_in_block(blk: Seq<u8>, name: Seq<u8>, i: int) -> SlotFind
    decreases 16 - i,
{
    if i < 0 || i >= 16 {
        SlotFind::Nothing
    } else {
        let s = slot_at(blk, i);
        if s[0] == 0 {
            SlotFind::EndMark
        } else if slot_names_file(s) && s.subrange(0, 11) == name {
            SlotFind::Found(s)
        } else {
            find_in_block(blk, name, i + 1)
        }
    }
}

/// An entry that a listing shows: one that names a file, other than "."
/// and "..".
pub open spec fn slot_listed(s: Seq<u8>) -> bool {
    let base = trim_spaces(s.subrange(0, 8));
    slot_names_file(s) && base != seq![0x2eu8] && base != seq![0x2eu8, 0x2eu8]
}

/// Listing block `blk` from entry `i` on: what the shown entries say, up
/// to the end-of-directory mark, and whether the mark was met.
pub open spec fn list_in_block(blk: Seq<u8>, i: int) -> (Seq<MetaView>, bool)
    decreases 16 - i,
{
    if i < 0 || i >= 16 {
        (Seq::empty(), false)
    } else {
        let s = slot_at(blk, i);
        if s[0] == 0 {
            (Seq::empty(), true)
        } else {
            let (rest, mark) = list_in_block(blk, i + 1);
            (
                if slot_listed(s) {
                    seq![slot_meta(s)] + rest
                } else {
                    rest
                },
                mark,
            )
        }
    }
}

/// `a` in front of a listing, or the listing's error.
pub open spec fn after(a: Seq<MetaView>, r: FsResult<Seq<MetaView>>) -> FsResult<Seq<MetaView>> {
    match r {
        Ok(x) => Ok(a + x),
        Err(e) => Err(e),
    }
}

/// The result of looking an entry up, against the stored entry it should be.
pub open spec fn entry_matches(r: FsResult<DirEntry>, s: FsResult<Seq<u8>>) -> bool {
    match (r, s) {
        (Ok(e), Ok(x)) => e.data@ == x,
        (Err(a), Err(b)) => a == b,
        _ => false,
    }
}

/// A listing, against what it should say.
pub open spec fn listing_is(r: FsResult<Vec<Metadata>>, s: FsResult<Seq<MetaView>>) -> bool {
    match (r, s) {
        (Ok(v), Ok(t)) => views(v@) == t,
        (Err(a), Err(b)) => a == b,
        _ => false,
    }
}

/// What the root directory's metadata says: "/", a directory, empty.
pub open spec fn root_meta() -> MetaView {
    MetaView { name: seq![0x2fu8], entry_type: FileType::Directory, len: 0, links: 1 }
}

/// The result of following a path, against the stored entry it should end at.
pub open spec fn resolved_is(r: FsResult<Option<DirEntry>>, s: FsResult<Option<Seq<u8>>>) -> bool {
    match (r, s) {
        (Ok(Some(e)), Ok(Some(x))) => e.data@ == x,
        (Ok(None), Ok(None)) => true,
        (Err(a), Err(b)) => a == b,
        _ => false,
    }
}

/// An opened FAT16 volume on device `inner`.
pub struct Fat16Impl<D: BlockDevice> {
    pub bpb: Fat16Bpb,
    pub inner: D,
    pub fat_start: usize,
    pub first_data_sector: usize,
    pub first_root_dir_sector: usize,
}

/// The regions that a boot sector's parameters lay out stay within bounds
/// that the FAT16 field widths allow.
proof fn lemma_geometry_bounds(b: Fat16Bpb)
    requires
        b.bytes_per_sector > 0,
    ensures
        0 <= b.fat_count * b.sectors_per_fat <= 255 * 65535,
        0 <= root_dir_sectors(b) <= 65535 * 32 + 65535,
        first_data_of(b) <= 0x140_0000,
        first_root_of(b) <= first_data_of(b),
{
    assert(0 <= b.fat_count * b.sectors_per_fat <= 255 * 65535) by (nonlinear_arith)
        requires
            b.fat_count <= 255,
            b.sectors_per_fat <= 65535,
    ;
    let n = b.root_entries_count * 32 + b.bytes_per_sector - 1;
    assert(0 <= n / (b.bytes_per_sector as int) <= n) by (nonlinear_arith)
        requires
            n >= 0,
            b.bytes_per_sector >= 1,
    ;
}

impl<D: BlockDevice> Fat16Impl<D> {
    /// The device's blocks.
    pub open spec fn disk(&self) -> Seq<Seq<u8>> {
        self.inner.blocks()
    }

    /// Blocks in one sector.
    pub open spec fn bpsb(&self) -> int {
        bpsb_of(self.bpb)
    }

    /// Blocks in one cluster.
    pub open spec fn cluster_blocks(&self) -> int {
        self.bpb.sectors_per_cluster * self.bpsb()
    }

    /// The device is sound and the geometry is the one the boot sector
    /// gives, with sectors of whole blocks, clusters of whole sectors, and
    /// block numbers that fit the machine.
    pub open spec fn wf(&self) -> bool {
        &&& self.inner.inv()
        &&& self.bpb.bytes_per_sector > 0
        &&& self.bpb.bytes_per_sector % 512 == 0
        &&& self.bpb.sectors_per_cluster > 0
        &&& self.fat_start == self.bpb.reserved_sector_count
        &&& self.first_root_dir_sector == first_root_of(self.bpb)
        &&& self.first_data_sector == first_data_of(self.bpb)
        &&& volume_fits(self.bpb, self.disk().len() as int)
    }

    /// The first sector of cluster `c` (the root directory's for its marker).
    pub open spec fn cluster_sector(&self, c: u32) -> int {
        if c == CLUSTER_ROOT_DIR {
            self.first_root_dir_sector as int
        } else {
            (c - 2) * self.bpb.sectors_per_cluster + self.first_data_sector
        }
    }

    /// The block of the FAT that holds the entry of cluster `c`.
    pub open spec fn fat_block(&self, c: u32) -> int {
        self.fat_start * self.bpsb() + (c * 2) / 512
    }

    /// The cluster that follows `c` in its chain, as the FAT says.
    pub open spec fn next_of(&self, c: u32) -> u32 {
        if c == CLUSTER_EMPTY {
            CLUSTER_EMPTY
        } else if c == CLUSTER_ROOT_DIR || c == CLUSTER_END_OF_FILE {
            CLUSTER_END_OF_FILE
        } else if c == CLUSTER_BAD {
            CLUSTER_BAD
        } else if c == CLUSTER_INVALID || c < 2 {
            CLUSTER_INVALID
        } else {
            fat_value(le_u16(self.disk()[self.fat_block(c)], (c * 2) % 512))
        }
    }

    /// The `j`-th cluster of the chain that starts at `c`.
    pub open spec fn chain_at(&self, c: u32, j: nat) -> u32
        decreases j,
    {
        if j == 0 {
            c
        } else {
            self.next_of(self.chain_at(c, (j - 1) as nat))
        }
    }

    /// Blocks of the root directory.
    pub open spec fn root_blocks(&self) -> int {
        (self.first_data_sector - self.first_root_dir_sector) * self.bpsb()
    }

    /// Looking for `name` in block `b`: the entry, the end-of-directory
    /// mark (not found), a block past the device's end, or nothing yet.
    pub open spec fn block_lookup(&self, b: int, name: Seq<u8>) -> Option<FsResult<Seq<u8>>> {
        if b < 0 || b >= self.disk().len() {
            Some(Err(FsError::InvalidOffset))
        } else {
            match find_in_block(self.disk()[b], name, 0) {
                SlotFind::Found(s) => Some(Ok(s)),
                SlotFind::EndMark => Some(Err(FsError::FileNotFound)),
                SlotFind::Nothing => None,
            }
        }
    }

    /// Looking for `name` in the root directory from its block `n` on.
    pub open spec fn root_lookup(&self, name: Seq<u8>, n: int) -> FsResult<Seq<u8>>
        decreases self.root_blocks() - n,
    {
        if n < 0 || n >= self.root_blocks() {
            Err(FsError::FileNotFound)
        } else {
            match self.block_lookup(self.first_root_dir_sector * self.bpsb() + n, name) {
                Some(r) => r,
                None => self.root_lookup(name, n + 1),
            }
        }
    }

    /// Looking for `name` in a directory from block `k` of cluster `c` on,
    /// `c` being the `j`-th cluster of its chain. The chain ends (not found)
    /// at its end mark or a free cluster; a bad cluster, a reserved value
    /// or a chain of 0x10000 clusters (which must loop) fails it.
    pub open spec fn chain_lookup(&self, name: Seq<u8>, c: u32, j: int, k: int) -> FsResult<Seq<u8>>
        decreases 0x1_0000 - j, self.cluster_blocks() - k,
    {
        if j < 0 || j >= 0x1_0000 {
            Err(FsError::BadCluster)
        } else if c == CLUSTER_END_OF_FILE || c == CLUSTER_EMPTY {
            Err(FsError::FileNotFound)
        } else if c == CLUSTER_BAD {
            Err(FsError::BadCluster)
        } else if !is_data_cluster(c) {
            Err(FsError::InvalidOperation)
        } else if k < 0 || k >= self.cluster_blocks() {
            self.chain_lookup(name, self.next_of(c), j + 1, 0)
        } else {
            match self.block_lookup(self.cluster_sector(c) * self.bpsb() + k, name) {
                Some(r) => r,
                None => self.chain_lookup(name, c, j, k + 1),
            }
        }
    }

    /// Looking for the entry named `name` (as the user spells it) in the
    /// directory that starts at cluster `dir`.
    pub open spec fn name_lookup(&self, dir: u32, name: Seq<u8>) -> FsResult<Seq<u8>> {
        match sfn_of(name) {
            None => Err(FsError::FileNotFound),
            Some(t) => if dir == CLUSTER_ROOT_DIR {
                self.root_lookup(t, 0)
            } else {
                self.chain_lookup(t, dir, 0, 0)
            },
        }
    }

    /// Listing block `b`: what its shown entries say and whether it holds
    /// the end-of-directory mark; or a block past the device's end.
    pub open spec fn block_listing(&self, b: int) -> FsResult<(Seq<MetaView>, bool)> {
        if b < 0 || b >= self.disk().len() {
            Err(FsError::InvalidOffset)
        } else {
            Ok(list_in_block(self.disk()[b], 0))
        }
    }

    /// Listing the root directory from its block `n` on.
    pub open spec fn root_listing(&self, n: int) -> FsResult<Seq<MetaView>>
        decreases self.root_blocks() - n,
    {
        if n < 0 || n >= self.root_blocks() {
            Ok(Seq::empty())
        } else {
            match self.block_listing(self.first_root_dir_sector * self.bpsb() + n) {
                Err(e) => Err(e),
                Ok((s, true)) => Ok(s),
                Ok((s, false)) => after(s, self.root_listing(n + 1)),
            }
        }
    }

    /// Listing a directory from block `k` of cluster `c` on, `c` being the
    /// `j`-th cluster of its chain; the chain's end mark ends the listing,
    /// a free cluster fails it as not found. There are fewer data clusters
    /// than 0x10000, so a chain that long revisits one and walking on would
    /// never end: it fails with `BadCluster`.
    pub open spec fn chain_listing(&self, c: u32, j: int, k: int) -> FsResult<Seq<MetaView>>
        decreases 0x1_0000 - j, self.cluster_blocks() - k,
    {
        if j < 0 || j >= 0x1_0000 {
            Err(FsError::BadCluster)
        } else if c == CLUSTER_END_OF_FILE {
            Ok(Seq::empty())
        } else if c == CLUSTER_EMPTY {
            Err(FsError::FileNotFound)
        } else if c == CLUSTER_BAD {
            Err(FsError::BadCluster)
        } else if !is_data_cluster(c) {
            Err(FsError::InvalidOperation)
        } else if k < 0 || k >= self.cluster_blocks() {
            self.chain_listing(self.next_of(c), j + 1, 0)
        } else {
            match self.block_listing(self.cluster_sector(c) * self.bpsb() + k) {
                Err(e) => Err(e),
                Ok((s, true)) => Ok(s),
                Ok((s, false)) => after(s, self.chain_listing(c, j, k + 1)),
            }
        }
    }

    /// Listing the directory that starts at cluster `dir`.
    pub open spec fn dir_listing(&self, dir: u32) -> FsResult<Seq<MetaView>> {
        if dir == CLUSTER_ROOT_DIR {
            self.root_listing(0)
        } else {
            self.chain_listing(dir, 0, 0)
        }
    }

    /// Following the path components `parts` from the directory that starts
    /// at cluster `dir`: the entry of the last one (none for no component),
    /// failing where a component is missing or a non-final one is not a
    /// directory.
    pub open spec fn resolve_from(&self, dir: u32, parts: Seq<Seq<u8>>) -> FsResult<Option<Seq<u8>>>
        decreases parts.len(),
    {
        if parts.len() == 0 {
            Ok(None)
        } else {
            match self.name_lookup(dir, parts[0]) {
                Err(e) => Err(e),
                Ok(s) => if parts.len() == 1 {
                    Ok(Some(s))
                } else if !slot_directory(s) {
                    Err(FsError::NotADirectory)
                } else {
                    self.resolve_from(le_u16(s, 26) as u32, parts.drop_first())
                },
            }
        }
    }

    /// Following path `p` from the root directory.
    pub open spec fn resolve(&self, p: Seq<u8>) -> FsResult<Option<Seq<u8>>> {
        self.resolve_from(CLUSTER_ROOT_DIR, path_components(p))
    }

    /// The first cluster of the directory at path `p`.
    pub open spec fn dir_at(&self, p: Seq<u8>) -> FsResult<u32> {
        match self.resolve(p) {
            Err(e) => Err(e),
            Ok(None) => Ok(CLUSTER_ROOT_DIR),
            Ok(Some(s)) => if slot_directory(s) {
                Ok(le_u16(s, 26) as u32)
            } else {
                Err(FsError::NotADirectory)
            },
        }
    }

    /// The blocks of every data cluster, and of the root directory, have
    /// numbers that fit in a `usize`.
    pub proof fn lemma_blocks_fit(&self, c: u32)
        requires
            self.wf(),
            is_data_cluster(c),
        ensures
            (c - 2) * self.bpb.sectors_per_cluster + self.first_data_sector <= u32::MAX,
            self.cluster_sector(c) * self.bpsb() + self.cluster_blocks() <= usize::MAX,
            self.cluster_sector(c) * self.bpsb() >= 0,
            self.first_data_sector * self.bpsb() <= usize::MAX,
            self.first_root_dir_sector * self.bpsb() + self.root_blocks() == self.first_data_sector * self.bpsb(),
            self.cluster_blocks() >= 1,
    {
        lemma_geometry_bounds(self.bpb);
        let spc = self.bpb.sectors_per_cluster as int;
        let fd = self.first_data_sector as int;
        let bp = self.bpsb();
        assert((c - 2) * spc <= 0xFFFD * 255) by (nonlinear_arith)
            requires
                0 <= c - 2 <= 0xFFFD,
                0 <= spc <= 255,
        ;
        assert(((c - 2) * spc + fd) * bp + spc * bp <= (fd + 0x1_0000 * spc) * bp) by (nonlinear_arith)
            requires
                0 <= c - 2 <= 0xFFFD,
                spc >= 0,
                bp >= 0,
                fd >= 0,
        ;
        assert(((c - 2) * spc + fd) * bp >= 0) by (nonlinear_arith)
            requires
                0 <= c - 2,
                spc >= 0,
                bp >= 0,
                fd >= 0,
        ;
        assert(fd * bp <= (fd + 0x1_0000 * spc) * bp) by (nonlinear_arith)
            requires
                spc >= 0,
                bp >= 0,
                fd >= 0,
        ;
        assert(self.first_root_dir_sector * bp + (fd - self.first_root_dir_sector) * bp == fd * bp) by (nonlinear_arith);
        assert(spc * bp >= 1) by (nonlinear_arith)
            requires
                spc >= 1,
                bp >= 1,
        ;
    }

    /// Looks for the entry named `target` in block `b`.
    #[verifier::loop_isolation(false)]
    fn search_block(&self, b: usize, target: &ShortFileName) -> (r: FsResult<Option<DirEntry>>)
        requires
            self.wf(),
        ensures
            match self.block_lookup(b as int, target.bytes()) {
                Some(Ok(s)) => r matches Ok(Some(e)) && e.data@ == s,
                Some(Err(x)) => r == Err::<Option<DirEntry>, FsError>(x),
                None => r matches Ok(None),
            },
    {
        let mut block = Block512::zeroed();
        if let Err(e) = self.inner.read_block(b, &mut block) {
            return Err(e);
        }
        let ghost blk = block.data@;
        let mut i: usize = 0;
        while i < 16
            invariant
                i <= 16,
                blk == block.data@,
                blk == self.disk()[b as int],
                find_in_block(blk, target.bytes(), 0) == find_in_block(blk, target.bytes(), i as int),
            decreases 16 - i,
        {
            let entry = DirEntry::parse(&block.data, i * 32);
            if entry.data[0] == 0 {
                return Err(FsError::FileNotFound);
            }
            if entry.is_valid() && !entry.is_long_name() && !entry.is_volume_id() && entry.matches(target) {
                return Ok(Some(entry));
            }
            i = i + 1;
        }
        Ok(None)
    }

    /// Looks up the entry called `name` in directory `dir`.
    #[verifier::loop_isolation(false)]
    pub fn get_direntry(&self, dir: &Directory, name: &str) -> (r: FsResult<DirEntry>)
        requires
            self.wf(),
        ensures
            entry_matches(r, self.name_lookup(dir.cluster.0, name.spec_bytes())),
    {
        let target = match ShortFileName::parse(name) {
            Ok(t) => t,
            Err(e) => return Err(e),
        };
        let ghost t = target.bytes();
        proof {
            self.lemma_blocks_fit(2);
        }
        if dir.cluster.0 == CLUSTER_ROOT_DIR {
            let start = self.sector_to_block(self.first_root_dir_sector);
            let end = self.sector_to_block(self.first_data_sector);
            let mut b = start;
            while b < end
                invariant
                    start <= b <= end,
                    start == self.first_root_dir_sector * self.bpsb(),
                    end == start + self.root_blocks(),
                    self.root_lookup(t, 0) == self.root_lookup(t, b - start),
                decreases end - b,
            {
                match self.search_block(b, &target) {
                    Ok(Some(e)) => return Ok(e),
                    Ok(None) => {},
                    Err(x) => return Err(x),
                }
                b = b + 1;
            }
            return Err(FsError::FileNotFound);
        }
        let mut cluster = dir.cluster;
        let mut j: usize = 0;
        loop
            invariant
                j <= 0x1_0000,
                self.chain_lookup(t, dir.cluster.0, 0, 0) == self.chain_lookup(t, cluster.0, j as int, 0),
            decreases 0x1_0000 - j,
        {
            if j >= 0x1_0000 {
                return Err(FsError::BadCluster);
            }
            let c = cluster.0;
            if c == CLUSTER_END_OF_FILE || c == CLUSTER_EMPTY {
                return Err(FsError::FileNotFound);
            }
            if c == CLUSTER_BAD {
                return Err(FsError::BadCluster);
            }
            if c < 2 || c >= 0x1_0000 {
                return Err(FsError::InvalidOperation);
            }
            proof {
                self.lemma_blocks_fit(c);
            }
            let first_sector = self.cluster_to_sector(&cluster);
            let start = self.sector_to_block(first_sector);
            let count = self.bpb.sectors_per_cluster as usize * self.blocks_per_sector();
            let mut k: usize = 0;
            while k < count
                invariant
                    k <= count,
                    count == self.cluster_blocks(),
                    start == self.cluster_sector(c) * self.bpsb(),
                    start + count <= usize::MAX,
                    is_data_cluster(c),
                    c == cluster.0,
                    0 <= j < 0x1_0000,
                    self.chain_lookup(t, dir.cluster.0, 0, 0) == self.chain_lookup(t, c, j as int, k as int),
                decreases count - k,
            {
                match self.search_block(start + k, &target) {
                    Ok(Some(e)) => return Ok(e),
                    Ok(None) => {},
                    Err(x) => return Err(x),
                }
                k = k + 1;
            }
            cluster = self.next_cluster(&cluster);
            j = j + 1;
        }
    }

    /// Whether a listing shows `entry`.
    fn is_entry_visible(entry: &DirEntry) -> (r: bool)
        ensures
            r == slot_listed(entry.data@),
    {
        if !entry.is_valid() || entry.is_long_name() || entry.is_volume_id() {
            return false;
        }
        let ghost d = entry.data@;
        let mut nb: usize = 8;
        while nb > 0 && entry.data[nb - 1] == 0x20
            invariant
                nb <= 8,
                d == entry.data@,
                trim_spaces(d.subrange(0, 8)) == trim_spaces(d.subrange(0, nb as int)),
            decreases nb,
        {
            assert(d.subrange(0, nb as int).drop_last() =~= d.subrange(0, nb - 1));
            nb = nb - 1;
        }
        let ghost base = d.subrange(0, nb as int);
        assert(trim_spaces(d.subrange(0, 8)) == base);
        if nb == 1 && entry.data[0] == 0x2e {
            assert(base =~= seq![0x2eu8]);
            return false;
        }
        if nb == 2 && entry.data[0] == 0x2e && entry.data[1] == 0x2e {
            assert(base =~= seq![0x2eu8, 0x2eu8]);
            return false;
        }
        assert(base != seq![0x2eu8]) by {
            if base == seq![0x2eu8] {
                assert(base.len() == 1 && base[0] == 0x2e);
            }
        }
        assert(base != seq![0x2eu8, 0x2eu8]) by {
            if base == seq![0x2eu8, 0x2eu8] {
                assert(base.len() == 2 && base[0] == 0x2e && base[1] == 0x2e);
            }
        }
        true
    }

    /// Lists the shown entries of block `b` onto `entries`; says whether the
    /// block holds the end-of-directory mark.
    #[verifier::loop_isolation(false)]
    fn read_dir_block(&self, b: usize, entries: &mut Vec<Metadata>) -> (r: FsResult<bool>)
        requires
            self.wf(),
        ensures
            match self.block_listing(b as int) {
                Err(x) => r == Err::<bool, FsError>(x),
                Ok((s, mark)) => r == Ok::<bool, FsError>(mark) && views(final(entries)@) == views(
                    old(entries)@,
                ) + s,
            },
    {
        let mut block = Block512::zeroed();
        if let Err(e) = self.inner.read_block(b, &mut block) {
            return Err(e);
        }
        let ghost blk = block.data@;
        let mut i: usize = 0;
        while i < 16
            invariant
                i <= 16,
                blk == block.data@,
                blk == self.disk()[b as int],
                ({
                    let (s0, m0) = list_in_block(blk, 0);
                    let (si, mi) = list_in_block(blk, i as int);
                    m0 == mi && views(old(entries)@) + s0 == views(entries@) + si
                }),
            decreases 16 - i,
        {
            let entry = DirEntry::parse(&block.data, i * 32);
            if entry.data[0] == 0 {
                return Ok(true);
            }
            if Self::is_entry_visible(&entry) {
                let ghost before = entries@;
                entries.push(entry.as_meta());
                assert(views(entries@) =~= views(before).push(slot_meta(entry.data@)));
                assert(views(before) + (seq![slot_meta(entry.data@)] + list_in_block(blk, i + 1).0)
                    =~= views(entries@) + list_in_block(blk, i + 1).0);
            }
            i = i + 1;
        }
        assert(views(entries@) + Seq::<MetaView>::empty() =~= views(entries@));
        Ok(false)
    }

    /// Lists directory `dir`.
    #[verifier::loop_isolation(false)]
    pub fn traverse_dir(&self, dir: &Directory) -> (r: FsResult<Vec<Metadata>>)
        requires
            self.wf(),
        ensures
            listing_is(r, self.dir_listing(dir.cluster.0)),
    {
        let mut entries: Vec<Metadata> = Vec::new();
        assert(views(entries@) =~= Seq::<MetaView>::empty());
        proof {
            self.lemma_blocks_fit(2);
        }
        if dir.cluster.0 == CLUSTER_ROOT_DIR {
            let start = self.sector_to_block(self.first_root_dir_sector);
            let end = self.sector_to_block(self.first_data_sector);
            let mut b = start;
            while b < end
                invariant
                    start <= b <= end,
                    start == self.first_root_dir_sector * self.bpsb(),
                    end == start + self.root_blocks(),
                    self.root_listing(0) == after(views(entries@), self.root_listing(b - start)),
                decreases end - b,
            {
                let ghost before = views(entries@);
                match self.read_dir_block(b, &mut entries) {
                    Ok(true) => {
                        return Ok(entries);
                    },
                    Ok(false) => {},
                    Err(x) => return Err(x),
                }
                proof {
                    let s = list_in_block(self.disk()[b as int], 0).0;
                    assert(views(entries@) == before + s);
                    match self.root_listing(b - start + 1) {
                        Ok(x) => {
                            assert(before + (s + x) =~= views(entries@) + x);
                        },
                        Err(_) => {},
                    }
                }
                b = b + 1;
            }
            assert(views(entries@) + Seq::<MetaView>::empty() =~= views(entries@));
            return Ok(entries);
        }
        let mut cluster = dir.cluster;
        let mut j: usize = 0;
        loop
            invariant
                j <= 0x1_0000,
                self.chain_listing(dir.cluster.0, 0, 0) == after(views(entries@), self.chain_listing(cluster.0, j as int, 0)),
            decreases 0x1_0000 - j,
        {
            if j >= 0x1_0000 {
                return Err(FsError::BadCluster);
            }
            let c = cluster.0;
            if c == CLUSTER_END_OF_FILE {
                assert(views(entries@) + Seq::<MetaView>::empty() =~= views(entries@));
                return Ok(entries);
            }
            if c == CLUSTER_EMPTY {
                return Err(FsError::FileNotFound);
            }
            if c == CLUSTER_BAD {
                return Err(FsError::BadCluster);
            }
            if c < 2 || c >= 0x1_0000 {
                return Err(FsError::InvalidOperation);
            }
            proof {
                self.lemma_blocks_fit(c);
            }
            let first_sector = self.cluster_to_sector(&cluster);
            let start = self.sector_to_block(first_sector);
            let count = self.bpb.sectors_per_cluster as usize * self.blocks_per_sector();
            let mut k: usize = 0;
            while k < count
                invariant
                    k <= count,
                    count == self.cluster_blocks(),
                    start == self.cluster_sector(c) * self.bpsb(),
                    start + count <= usize::MAX,
                    is_data_cluster(c),
                    c == cluster.0,
                    0 <= j < 0x1_0000,
                    self.chain_listing(dir.cluster.0, 0, 0) == after(views(entries@), self.chain_listing(c, j as int, k as int)),
                decreases count - k,
            {
                let ghost before = views(entries@);
                match self.read_dir_block(start + k, &mut entries) {
                    Ok(true) => {
                        return Ok(entries);
                    },
                    Ok(false) => {},
                    Err(x) => return Err(x),
                }
                proof {
                    let s = list_in_block(self.disk()[start + k], 0).0;
                    assert(views(entries@) == before + s);
                    match self.chain_listing(c, j as int, k + 1) {
                        Ok(x) => {
                            assert(before + (s + x) =~= views(entries@) + x);
                        },
                        Err(_) => {},
                    }
                }
                k = k + 1;
            }
            cluster = self.next_cluster(&cluster);
            j = j + 1;
        }
    }

    /// What the root directory's metadata says.
    pub fn root_metadata(&self) -> (r: Metadata)
        ensures
            r@ == root_meta(),
    {
        proof {
            reveal_strlit("/");
            is_ascii_chars_encode_utf8("/"@);
        }
        let r = Metadata::new(String::from_str("/"), FileType::Directory, 0);
        assert(r@.name =~= seq![0x2fu8]);
        r
    }

    /// Follows `path` from the root directory to the entry of its last
    /// component; `None` for the root itself.
    #[verifier::loop_isolation(false)]
    pub fn resolve_path(&self, path: &str) -> (r: FsResult<Option<DirEntry>>)
        requires
            self.wf(),
        ensures
            resolved_is(r, self.resolve(path.spec_bytes())),
    {
        let parts = split_path_str(path);
        let ghost comps = strs_bytes(parts@);
        let mut dir = Directory::root();
        let mut i: usize = 0;
        assert(comps.subrange(0, comps.len() as int) =~= comps);
        while i < parts.len()
            invariant
                i <= parts@.len(),
                comps == strs_bytes(parts@),
                comps.len() == parts@.len(),
                self.resolve(path.spec_bytes()) == self.resolve_from(dir.cluster.0, comps.subrange(i as int, comps.len() as int)),
            decreases parts@.len() - i,
        {
            let ghost rest = comps.subrange(i as int, comps.len() as int);
            assert(rest[0] == parts@[i as int].spec_bytes());
            let entry = match self.get_direntry(&dir, parts[i]) {
                Ok(e) => e,
                Err(e) => return Err(e),
            };
            if i + 1 == parts.len() {
                return Ok(Some(entry));
            }
            if !entry.is_directory() {
                return Err(FsError::NotADirectory);
            }
            dir = Directory::from_entry(entry);
            assert(rest.drop_first() =~= comps.subrange(i + 1, comps.len() as int));
            i = i + 1;
        }
        Ok(None)
    }

    /// The directory at `path`.
    pub fn open_dir(&self, path: &str) -> (r: FsResult<Directory>)
        requires
            self.wf(),
        ensures
            match self.dir_at(path.spec_bytes()) {
                Ok(c) => r matches Ok(d) && d.cluster.0 == c,
                Err(e) => r matches Err(x) && x == e,
            },
    {
        match self.resolve_path(path) {
            Err(e) => Err(e),
            Ok(Some(entry)) => if entry.is_directory() {
                Ok(Directory::from_entry(entry))
            } else {
                Err(FsError::NotADirectory)
            },
            Ok(None) => Ok(Directory::root()),
        }
    }

    /// Opens the volume on `inner`, reading its geometry from the boot
    /// sector in block 0.
    pub fn new(inner: D) -> (r: Self)
        requires
            inner.inv(),
            inner.blocks().len() > 0,
            bpb_ok(inner.blocks()[0]),
            volume_fits(bpb_of(inner.blocks()[0]), inner.blocks().len() as int),
        ensures
            r.wf(),
            r.bpb == bpb_of(inner.blocks()[0]),
            r.inner == inner,
    {
        let mut block = Block512::zeroed();
        let res = inner.read_block(0, &mut block);
        assert(res is Ok);
        let bpb = match Fat16Bpb::new(&block.data) {
            Ok(b) => b,
            Err(_) => {
                assert(false);
                return Fat16Impl {
                    bpb: Fat16Bpb {
                        bytes_per_sector: 512,
                        sectors_per_cluster: 1,
                        reserved_sector_count: 0,
                        fat_count: 0,
                        root_entries_count: 0,
                        sectors_per_fat: 0,
                    },
                    inner,
                    fat_start: 0,
                    first_data_sector: 0,
                    first_root_dir_sector: 0,
                };
            },
        };
        proof {
            lemma_geometry_bounds(bpb);
        }
        let fat_start = bpb.reserved_sector_count as usize;
        let bytes_per_sector = bpb.bytes_per_sector as usize;
        let root_dir_sectors = (bpb.root_entries_count as usize * 32 + bytes_per_sector - 1)
            / bytes_per_sector;
        let first_root_dir_sector = fat_start + bpb.fat_count as usize * bpb.sectors_per_fat as usize;
        let first_data_sector = first_root_dir_sector + root_dir_sectors;
        Fat16Impl { bpb, inner, fat_start, first_data_sector, first_root_dir_sector }
    }

    /// Blocks of 512 bytes in one sector.
    pub fn blocks_per_sector(&self) -> (r: usize)
        ensures
            r == self.bpsb(),
    {
        self.bpb.bytes_per_sector as usize / 512
    }

    /// The first block of `sector`.
    pub fn sector_to_block(&self, sector: usize) -> (r: usize)
        requires
            sector * self.bpsb() <= usize::MAX,
        ensures
            r == sector * self.bpsb(),
    {
        sector * self.blocks_per_sector()
    }

    /// The first sector of `cluster`.
    pub fn cluster_to_sector(&self, cluster: &Cluster) -> (r: usize)
        requires
            cluster.0 == CLUSTER_ROOT_DIR || (2 <= cluster.0 && (cluster.0 - 2)
                * self.bpb.sectors_per_cluster + self.first_data_sector <= u32::MAX),
        ensures
            r == self.cluster_sector(cluster.0),
    {
        if cluster.0 == CLUSTER_ROOT_DIR {
            self.first_root_dir_sector
        } else {
            ((cluster.0 - 2) * self.bpb.sectors_per_cluster as u32 + self.first_data_sector as u32) as usize
        }
    }

    /// The cluster after `cluster` in its chain.
    pub fn next_cluster(&self, cluster: &Cluster) -> (r: Cluster)
        requires
            self.wf(),
            cluster_in_range(cluster.0),
        ensures
            r.0 == self.next_of(cluster.0),
    {
        let c = cluster.0;
        if c == CLUSTER_EMPTY {
            return Cluster(CLUSTER_EMPTY);
        }
        if c == CLUSTER_ROOT_DIR || c == CLUSTER_END_OF_FILE {
            return Cluster(CLUSTER_END_OF_FILE);
        }
        if c == CLUSTER_BAD {
            return Cluster(CLUSTER_BAD);
        }
        if c == CLUSTER_INVALID || c < 2 {
            return Cluster(CLUSTER_INVALID);
        }
        proof {
            assert(self.fat_start * self.bpsb() + 256 <= (self.first_data_sector + 0x1_0000
                * self.bpb.sectors_per_cluster) * self.bpsb()) by (nonlinear_arith)
                requires
                    self.fat_start <= self.first_data_sector,
                    self.bpsb() >= 1,
                    self.bpb.sectors_per_cluster >= 1,
            ;
            lemma_geometry_bounds(self.bpb);
        }
        let fat_start_block = self.sector_to_block(self.fat_start);
        let fat_offset_by_bytes = c as usize * 2;
        let block_offset = fat_offset_by_bytes / 512;
        let entry_offset = fat_offset_by_bytes % 512;
        let mut block = Block512::zeroed();
        match self.inner.read_block(fat_start_block + block_offset, &mut block) {
            Ok(()) => {},
            Err(_) => {
                assert(false);
                return Cluster(CLUSTER_INVALID);
            },
        }
        let fat_entry = read_u16_le(&block.data, entry_offset);
        if fat_entry == 0 {
            Cluster(CLUSTER_EMPTY)
        } else if fat_entry == 1 || (0xFFF0 <= fat_entry && fat_entry <= 0xFFF6) {
            Cluster(CLUSTER_INVALID)
        } else if fat_entry == 0xFFF7 {
            Cluster(CLUSTER_BAD)
        } else if fat_entry >= 0xFFF8 {
            Cluster(CLUSTER_END_OF_FILE)
        } else {
            Cluster(fat_entry as u32)
        }
    }
}

} // verus!

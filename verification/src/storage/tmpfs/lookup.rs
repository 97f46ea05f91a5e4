//! Looking names up in directories, listing directories, resolving paths.
use vstd::prelude::*;
use vstd::string::{StringExecFns, StringSliceAdditionalSpecFns};

use crate::bytes::le_u16;
use crate::storage::block::{Block512, BlockDevice};
use crate::storage::error::{FsError, FsResult};
use crate::storage::metadata::{views, FileType, MetaView, Metadata};
use crate::storage::text::{bytes_eq, path_components, split_path_str, strs_bytes};
use crate::storage::tmpfs::direntry::{entry_name_of, DirEntryData};
use crate::storage::tmpfs::impls::TmpFsImpl;
use crate::storage::tmpfs::layout::{
    data_block_of, ino_direct, ino_is_dir, ino_size, inode_block_of, inode_in, read_block_at,
    readable_in,
};
use crate::storage::tmpfs::superblock::Superblock;

verus! {

/// How many blocks a directory of `size` bytes spans.
pub open spec fn blocks_spanned(size: int) -> int {
    size / 512 + if size % 512 != 0 {
        1int
    } else {
        0int
    }
}

/// Looks `name` up among the entries of `blk` from entry `e` on, while the
/// entry starts below `rem` bytes: the inode of the first non-empty entry
/// with that name.
pub open spec fn find_in_block(blk: Seq<u8>, rem: int, name: Seq<u8>, e: int) -> Option<u16>
    decreases 16 - e,
{
    if e < 0 || e >= 16 || e * 32 >= rem {
        None
    } else {
        let ent = blk.subrange(e * 32, e * 32 + 32);
        if ent[0] != 0 && entry_name_of(ent) == name {
            Some(le_u16(ent, 28) as u16)
        } else {
            find_in_block(blk, rem, name, e + 1)
        }
    }
}

/// Looks `name` up in the directory with inode bytes `ino`, from its block
/// `b` on: blocks in order, skipping empty slots, failing at the first block
/// that cannot be read.
pub open spec fn find_from(disk: Seq<Seq<u8>>, sb: Superblock, ino: Seq<u8>, name: Seq<u8>, b: int) -> FsResult<u16>
    decreases 10 - b,
{
    let size = ino_size(ino);
    if b < 0 || b >= blocks_spanned(size) || b >= 10 {
        Err(FsError::FileNotFound)
    } else {
        let rel = ino_direct(ino, b);
        if rel == 0 {
            find_from(disk, sb, ino, name, b + 1)
        } else if data_block_of(sb, rel) >= disk.len() {
            Err(FsError::InvalidOffset)
        } else {
            match find_in_block(disk[data_block_of(sb, rel)], size - b * 512, name, 0) {
                Some(i) => Ok(i),
                None => find_from(disk, sb, ino, name, b + 1),
            }
        }
    }
}

/// Looking `name` up in directory `dir`.
pub open spec fn lookup(disk: Seq<Seq<u8>>, sb: Superblock, dir: int, name: Seq<u8>) -> FsResult<u16> {
    if !readable_in(disk, sb, dir) {
        Err(FsError::InvalidOffset)
    } else {
        find_from(disk, sb, inode_in(disk, sb, dir), name, 0)
    }
}

/// One step of path resolution: from directory `cur` into `part`.
pub open spec fn resolve_step(disk: Seq<Seq<u8>>, sb: Superblock, cur: u16, part: Seq<u8>) -> FsResult<u16> {
    if !readable_in(disk, sb, cur as int) {
        Err(FsError::InvalidOffset)
    } else if !ino_is_dir(inode_in(disk, sb, cur as int)) {
        Err(FsError::NotADirectory)
    } else {
        lookup(disk, sb, cur as int, part)
    }
}

/// Resolving the components `parts` one after the other from the root
/// directory, inode 0.
pub open spec fn resolve_parts(disk: Seq<Seq<u8>>, sb: Superblock, parts: Seq<Seq<u8>>) -> FsResult<u16>
    decreases parts.len(),
{
    if parts.len() == 0 {
        Ok(0)
    } else {
        match resolve_parts(disk, sb, parts.drop_last()) {
            Err(e) => Err(e),
            Ok(cur) => resolve_step(disk, sb, cur, parts.last()),
        }
    }
}

/// The metadata that listing gives for an entry whose child inode has
/// bytes `cino`.
pub open spec fn entry_view(ent: Seq<u8>, cino: Seq<u8>) -> MetaView {
    MetaView {
        name: entry_name_of(ent),
        entry_type: if ino_is_dir(cino) {
            FileType::Directory
        } else {
            FileType::File
        },
        len: ino_size(cino),
        links: 1,
    }
}

/// Listing the entries of `blk` from entry `e` on, below `count` entries,
/// after `acc`: each non-empty entry's metadata, failing at the first entry
/// whose inode cannot be read.
pub open spec fn list_block(
    disk: Seq<Seq<u8>>,
    sb: Superblock,
    blk: Seq<u8>,
    count: int,
    e: int,
    acc: Seq<MetaView>,
) -> FsResult<Seq<MetaView>>
    decreases 16 - e,
{
    if e < 0 || e >= 16 || e >= count {
        Ok(acc)
    } else {
        let ent = blk.subrange(e * 32, e * 32 + 32);
        if ent[0] == 0 {
            list_block(disk, sb, blk, count, e + 1, acc)
        } else {
            let child = le_u16(ent, 28);
            if !readable_in(disk, sb, child) {
                Err(FsError::InvalidOffset)
            } else {
                list_block(
                    disk,
                    sb,
                    blk,
                    count,
                    e + 1,
                    acc.push(entry_view(ent, inode_in(disk, sb, child))),
                )
            }
        }
    }
}

/// How many entries listing reads from block `b` of a directory of `size`
/// bytes: the whole entries left, at most 16.
pub open spec fn entries_in_block(size: int, b: int) -> int {
    let left = (size - b * 512) / 32;
    if left < 16 {
        left
    } else {
        16
    }
}

/// Listing the directory with inode bytes `ino` from its block `b` on,
/// after `acc`.
pub open spec fn list_from(
    disk: Seq<Seq<u8>>,
    sb: Superblock,
    ino: Seq<u8>,
    b: int,
    acc: Seq<MetaView>,
) -> FsResult<Seq<MetaView>>
    decreases 10 - b,
{
    let size = ino_size(ino);
    if b < 0 || b >= blocks_spanned(size) || b >= 10 {
        Ok(acc)
    } else {
        let rel = ino_direct(ino, b);
        if rel == 0 {
            list_from(disk, sb, ino, b + 1, acc)
        } else if data_block_of(sb, rel) >= disk.len() {
            Err(FsError::InvalidOffset)
        } else {
            match list_block(disk, sb, disk[data_block_of(sb, rel)], entries_in_block(size, b), 0, acc) {
                Err(e) => Err(e),
                Ok(acc2) => list_from(disk, sb, ino, b + 1, acc2),
            }
        }
    }
}

/// Listing directory `dir`.
pub open spec fn listing(disk: Seq<Seq<u8>>, sb: Superblock, dir: int) -> FsResult<Seq<MetaView>> {
    if !readable_in(disk, sb, dir) {
        Err(FsError::InvalidOffset)
    } else if !ino_is_dir(inode_in(disk, sb, dir)) {
        Err(FsError::NotADirectory)
    } else {
        list_from(disk, sb, inode_in(disk, sb, dir), 0, Seq::empty())
    }
}

/// An executable listing agrees with a spec one.
pub open spec fn listing_matches(r: FsResult<Vec<Metadata>>, s: FsResult<Seq<MetaView>>) -> bool {
    match (r, s) {
        (Ok(v), Ok(t)) => views(v@) == t,
        (Err(a), Err(b)) => a == b,
        _ => false,
    }
}

impl<D: BlockDevice> TmpFsImpl<D> {
    /// Looks `name` up in directory `dir_inode_idx`, as bytes.
    #[verifier::loop_isolation(false)]
    pub fn find_dir_entry_bytes(&self, dir_inode_idx: u16, name: &[u8]) -> (r: FsResult<u16>)
        requires
            self.wf(),
        ensures
            r == lookup(self.disk(), self.sb, dir_inode_idx as int, name@),
    {
        let dir_inode = match self.read_inode(dir_inode_idx) {
            Ok(i) => i,
            Err(e) => return Err(e),
        };
        let ghost ino = dir_inode.data@;
        let dir_size = dir_inode.size() as usize;
        let n_blocks = dir_size / 512 + if dir_size % 512 != 0 {
            1
        } else {
            0
        };
        let mut block_idx: usize = 0;
        while block_idx < n_blocks && block_idx < 10
            invariant
                self.wf(),
                ino == self.inode_at(dir_inode_idx as int),
                dir_inode.data@ == ino,
                dir_size == ino_size(ino),
                n_blocks == blocks_spanned(dir_size as int),
                block_idx <= n_blocks,
                find_from(self.disk(), self.sb, ino, name@, block_idx as int) == find_from(
                    self.disk(),
                    self.sb,
                    ino,
                    name@,
                    0,
                ),
            decreases n_blocks - block_idx,
        {
            let data_block_rel = dir_inode.direct_block(block_idx);
            assert(data_block_rel == ino_direct(ino, block_idx as int));
            if data_block_rel != 0 {
                let mut block = Block512::zeroed();
                if let Err(e) = read_block_at(&self.inner, self.sb.data_start(), data_block_rel as usize, &mut block) {
                    return Err(e);
                }
                let rem = dir_size - block_idx * 512;
                let ghost blk = block.data@;
                assert(blk == self.disk()[data_block_of(self.sb, data_block_rel as int)]);
                let mut e: usize = 0;
                while e < 16 && e * 32 < rem
                    invariant
                        e <= 16,
                        blk == block.data@,
                        find_in_block(blk, rem as int, name@, e as int) == find_in_block(
                            blk,
                            rem as int,
                            name@,
                            0,
                        ),
                    decreases 16 - e,
                {
                    let off = e * 32;
                    let entry = DirEntryData::from_block(&block.data, off);
                    if !entry.is_empty() {
                        let entry_name = entry.name();
                        if bytes_eq(entry_name.as_bytes(), name) {
                            assert(find_in_block(blk, rem as int, name@, e as int) == Some(entry.inode()));
                            assert(find_from(self.disk(), self.sb, ino, name@, block_idx as int) == Ok::<u16, FsError>(entry.inode()));
                            return Ok(entry.inode());
                        }
                    }
                    e = e + 1;
                }
                assert(find_in_block(blk, rem as int, name@, e as int) == None::<u16>);
            }
            block_idx = block_idx + 1;
        }
        Err(FsError::FileNotFound)
    }

    /// Looks `name` up in directory `dir_inode_idx`.
    pub fn find_dir_entry(&self, dir_inode_idx: u16, name: &str) -> (r: FsResult<u16>)
        requires
            self.wf(),
        ensures
            r == lookup(self.disk(), self.sb, dir_inode_idx as int, name.spec_bytes()),
    {
        self.find_dir_entry_bytes(dir_inode_idx, name.as_bytes())
    }

    /// The inode that the first `n` of `parts` name, walking from the root
    /// directory.
    #[verifier::loop_isolation(false)]
    pub fn resolve_prefix(&self, parts: &Vec<&str>, n: usize) -> (r: FsResult<u16>)
        requires
            self.wf(),
            n <= parts@.len(),
        ensures
            r == resolve_parts(self.disk(), self.sb, strs_bytes(parts@).subrange(0, n as int)),
    {
        let ghost ps = strs_bytes(parts@).subrange(0, n as int);
        let mut current_inode: u16 = 0;
        let mut k: usize = 0;
        assert(ps.subrange(0, 0) =~= Seq::<Seq<u8>>::empty());
        while k < n
            invariant
                self.wf(),
                k <= n,
                ps.len() == n,
                resolve_parts(self.disk(), self.sb, ps.subrange(0, k as int)) == Ok::<u16, FsError>(current_inode),
            decreases n - k,
        {
            let ghost pre = ps.subrange(0, k + 1);
            assert(pre.drop_last() =~= ps.subrange(0, k as int));
            assert(pre.last() == parts@[k as int].spec_bytes());
            let ghost step = resolve_step(self.disk(), self.sb, current_inode, ps[k as int]);
            assert(resolve_parts(self.disk(), self.sb, pre) == step);
            let inode = match self.read_inode(current_inode) {
                Ok(i) => i,
                Err(e) => {
                    assert(step == Err::<u16, FsError>(e));
                    proof { self.lemma_resolve_prefix_err(ps, k + 1); }
                    return Err(e);
                },
            };
            if !inode.is_dir() {
                assert(step == Err::<u16, FsError>(FsError::NotADirectory));
                proof { self.lemma_resolve_prefix_err(ps, k + 1); }
                return Err(FsError::NotADirectory);
            }
            current_inode = match self.find_dir_entry(current_inode, parts[k]) {
                Ok(i) => i,
                Err(e) => {
                    assert(step == Err::<u16, FsError>(e));
                    proof { self.lemma_resolve_prefix_err(ps, k + 1); }
                    return Err(e);
                },
            };
            k = k + 1;
        }
        assert(ps.subrange(0, n as int) =~= ps);
        Ok(current_inode)
    }

    /// The inode that `path` names, walking from the root directory.
    pub fn resolve_path(&self, path: &str) -> (r: FsResult<u16>)
        requires
            self.wf(),
        ensures
            r == resolve_parts(self.disk(), self.sb, path_components(path.spec_bytes())),
    {
        let parts = split_path_str(path);
        assert(strs_bytes(parts@).subrange(0, parts@.len() as int) =~= strs_bytes(parts@));
        self.resolve_prefix(&parts, parts.len())
    }

    /// The metadata of the entries of directory `dir_inode_idx`.
    #[verifier::loop_isolation(false)]
    pub fn list_dir(&self, dir_inode_idx: u16) -> (r: FsResult<Vec<Metadata>>)
        requires
            self.wf(),
        ensures
            listing_matches(r, listing(self.disk(), self.sb, dir_inode_idx as int)),
    {
        let ghost total = listing(self.disk(), self.sb, dir_inode_idx as int);
        let dir_inode = match self.read_inode(dir_inode_idx) {
            Ok(i) => i,
            Err(e) => return Err(e),
        };
        if !dir_inode.is_dir() {
            return Err(FsError::NotADirectory);
        }
        let ghost ino = dir_inode.data@;
        let dir_size = dir_inode.size() as usize;
        let n_blocks = dir_size / 512 + if dir_size % 512 != 0 {
            1
        } else {
            0
        };
        let mut entries: Vec<Metadata> = Vec::new();
        assert(views(entries@) =~= Seq::<MetaView>::empty());
        let mut block_idx: usize = 0;
        while block_idx < n_blocks && block_idx < 10
            invariant
                self.wf(),
                ino == self.inode_at(dir_inode_idx as int),
                dir_inode.data@ == ino,
                dir_size == ino_size(ino),
                n_blocks == blocks_spanned(dir_size as int),
                block_idx <= n_blocks,
                total == list_from(self.disk(), self.sb, ino, block_idx as int, views(entries@)),
            decreases n_blocks - block_idx,
        {
            let data_block_rel = dir_inode.direct_block(block_idx);
            assert(data_block_rel == ino_direct(ino, block_idx as int));
            if data_block_rel != 0 {
                let mut block = Block512::zeroed();
                if let Err(e) = read_block_at(&self.inner, self.sb.data_start(), data_block_rel as usize, &mut block) {
                    return Err(e);
                }
                let ghost blk = block.data@;
                assert(blk == self.disk()[data_block_of(self.sb, data_block_rel as int)]);
                let remaining = dir_size - block_idx * 512;
                let max_entries = if 16 < remaining / 32 {
                    16
                } else {
                    remaining / 32
                };
                assert(max_entries == entries_in_block(dir_size as int, block_idx as int));
                let ghost rest = |a: Seq<MetaView>| list_from(self.disk(), self.sb, ino, block_idx + 1, a);
                let mut e: usize = 0;
                while e < max_entries
                    invariant
                        e <= max_entries,
                        max_entries <= 16,
                        blk == block.data@,
                        total == (match list_block(self.disk(), self.sb, blk, max_entries as int, e as int, views(entries@)) {
                            Err(x) => Err(x),
                            Ok(a2) => rest(a2),
                        }),
                    decreases max_entries - e,
                {
                    let off = e * 32;
                    let de = DirEntryData::from_block(&block.data, off);
                    if !de.is_empty() {
                        let child_inode = match self.read_inode(de.inode()) {
                            Ok(i) => i,
                            Err(x) => return Err(x),
                        };
                        let entry_type = if child_inode.is_dir() {
                            FileType::Directory
                        } else {
                            FileType::File
                        };
                        let name = String::from_str(de.name());
                        let m = Metadata::new(name, entry_type, child_inode.size() as usize);
                        let ghost before = entries@;
                        entries.push(m);
                        assert(views(entries@) =~= views(before).push(entry_view(de.data@, child_inode.data@)));
                    }
                    e = e + 1;
                }
            }
            block_idx = block_idx + 1;
        }
        Ok(entries)
    }

    /// Once resolving a prefix of `ps` fails, resolving all of `ps` fails
    /// the same way.
    proof fn lemma_resolve_prefix_err(&self, ps: Seq<Seq<u8>>, k: int)
        requires
            0 <= k <= ps.len(),
            resolve_parts(self.disk(), self.sb, ps.subrange(0, k)) is Err,
        ensures
            resolve_parts(self.disk(), self.sb, ps) == resolve_parts(self.disk(), self.sb, ps.subrange(0, k)),
        decreases ps.len() - k,
    {
        if k < ps.len() {
            assert(ps.subrange(0, k + 1).drop_last() =~= ps.subrange(0, k));
            self.lemma_resolve_prefix_err(ps, k + 1);
        } else {
            assert(ps.subrange(0, k) =~= ps);
        }
    }
}

} // verus!

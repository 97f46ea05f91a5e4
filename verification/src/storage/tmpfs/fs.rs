//! The file system as its users see it: paths in, metadata and open files out.
use vstd::prelude::*;
use vstd::string::{StringExecFns, StringSliceAdditionalSpecFns};
use vstd::utf8::{encode_utf8, is_ascii_chars_encode_utf8};

use crate::bytes::splice;
use crate::storage::block::BlockDevice;
use crate::storage::error::{FsError, FsResult};
use crate::storage::metadata::{FileType, MetaView, Metadata};
use crate::storage::text::{
    last_segment, last_segment_str, path_components, split_path_str, strs_bytes,
};
use crate::storage::tmpfs::file::TmpFile;
use crate::storage::tmpfs::format::{formatted_block, is_formatted_superblock, layout_of};
use crate::storage::tmpfs::impls::{add_entry_outcome_in, TmpFsImpl};
use crate::storage::tmpfs::inode::{InodeData, INODE_TYPE_DIR, INODE_TYPE_FILE};
use crate::storage::tmpfs::layout::{
    alloc_inode_in, first_inode_stop_in, ino_is_dir, ino_is_file, ino_is_free, ino_links, ino_size,
    inode_block_of, inode_in, inode_slot, inode_stop_in, put_inode, readable_in,
};
use crate::storage::tmpfs::lookup::{listing, listing_matches, resolve_parts};
use crate::storage::tmpfs::superblock::Superblock;

verus! {

/// An open file together with the metadata it was opened with.
pub struct FileHandle {
    pub meta: Metadata,
    pub file: TmpFile,
}

/// The bytes of a new, empty regular file's inode (one link).
pub open spec fn new_file_bytes() -> Seq<u8> {
    Seq::new(32, |_i: int| 0u8).update(0, INODE_TYPE_FILE).update(25, 1u8)
}

/// The bytes of a new, empty directory's inode.
pub open spec fn new_dir_bytes() -> Seq<u8> {
    Seq::new(32, |_i: int| 0u8).update(0, INODE_TYPE_DIR).update(25, 1u8)
}

/// Adding an entry to `dir` fits in its block: where the entry would go
/// into a direct block (its size is below ten blocks), at least one entry's
/// room is left in that block.
pub open spec fn entry_fits(disk: Seq<Seq<u8>>, sb: Superblock, dir: int) -> bool {
    readable_in(disk, sb, dir) && ino_size(inode_in(disk, sb, dir)) / 512 < 10 ==> ino_size(
        inode_in(disk, sb, dir),
    ) % 512 <= 480
}

/// Listing the directory that `parts` name.
pub open spec fn dir_listing(disk: Seq<Seq<u8>>, sb: Superblock, parts: Seq<Seq<u8>>) -> FsResult<
    Seq<MetaView>,
> {
    match resolve_parts(disk, sb, parts) {
        Err(e) => Err(e),
        Ok(d) => listing(disk, sb, d as int),
    }
}

/// Opening the file at path `p`: its inode and length, or the error.
pub open spec fn open_outcome(disk: Seq<Seq<u8>>, sb: Superblock, p: Seq<u8>) -> FsResult<(u16, int)> {
    match resolve_parts(disk, sb, path_components(p)) {
        Err(e) => Err(e),
        Ok(i) => if !readable_in(disk, sb, i as int) {
            Err(FsError::InvalidOffset)
        } else if !ino_is_file(inode_in(disk, sb, i as int)) {
            Err(FsError::NotAFile)
        } else {
            Ok((i, ino_size(inode_in(disk, sb, i as int))))
        },
    }
}

/// An open file handle for inode `i`, at offset 0, whose metadata is `m`.
pub open spec fn fresh_handle(h: FileHandle, m: MetaView, i: u16) -> bool {
    h.meta@ == m && h.file.inode_idx == i && h.file.offset == 0
}

/// An open result agrees with an outcome: the handle for the inode and
/// length it names, with name `name`, or the same error.
pub open spec fn open_matches(r: FsResult<FileHandle>, o: FsResult<(u16, int)>, name: Seq<u8>) -> bool {
    match (r, o) {
        (Ok(h), Ok((i, len))) => fresh_handle(
            h,
            MetaView { name: name, entry_type: FileType::File, len: len, links: 1 },
            i,
        ),
        (Err(a), Err(b)) => a == b,
        _ => false,
    }
}

/// A metadata result agrees with an outcome.
pub open spec fn meta_matches(r: FsResult<Metadata>, o: FsResult<MetaView>) -> bool {
    match (r, o) {
        (Ok(m), Ok(v)) => m@ == v,
        (Err(a), Err(b)) => a == b,
        _ => false,
    }
}

/// The metadata of path `p`.
pub open spec fn meta_outcome(disk: Seq<Seq<u8>>, sb: Superblock, p: Seq<u8>) -> FsResult<MetaView> {
    if p.len() == 0 || p == seq![0x2fu8] {
        Ok(MetaView { name: seq![0x2fu8], entry_type: FileType::Directory, len: 0, links: 1 })
    } else {
        match resolve_parts(disk, sb, path_components(p)) {
            Err(e) => Err(e),
            Ok(i) => if !readable_in(disk, sb, i as int) {
                Err(FsError::InvalidOffset)
            } else {
                let ino = inode_in(disk, sb, i as int);
                Ok(
                    MetaView {
                        name: last_segment(p),
                        entry_type: if ino_is_dir(ino) {
                            FileType::Directory
                        } else {
                            FileType::File
                        },
                        len: ino_size(ino),
                        links: ino_links(ino) as int,
                    },
                )
            },
        }
    }
}

/// Whether path `p` names something: an error other than "not found" is
/// passed on.
pub open spec fn exists_outcome(disk: Seq<Seq<u8>>, sb: Superblock, p: Seq<u8>) -> FsResult<bool> {
    match resolve_parts(disk, sb, path_components(p)) {
        Ok(_) => Ok(true),
        Err(FsError::FileNotFound) => Ok(false),
        Err(e) => Err(e),
    }
}

/// Creating an inode with bytes `bytes`, named `parts.last()`, in the
/// directory that the other components of `parts` name: the new inode's
/// number or the error, and the blocks afterwards.
pub open spec fn create_outcome(disk: Seq<Seq<u8>>, sb: Superblock, parts: Seq<Seq<u8>>, bytes: Seq<u8>) -> (
    FsResult<u16>,
    Seq<Seq<u8>>,
) {
    match resolve_parts(disk, sb, parts.drop_last()) {
        Err(e) => (Err(e), disk),
        Ok(parent) => match alloc_inode_in(disk, sb) {
            Err(e) => (Err(e), disk),
            Ok(idx) => if inode_block_of(sb, idx as int) >= disk.len() {
                (Err(FsError::InvalidOffset), disk)
            } else {
                let d1 = put_inode(disk, sb, idx as int, bytes);
                let out = add_entry_outcome_in(d1, sb, parent as int, parts.last(), idx);
                match out.0 {
                    Err(e) => (Err(e), out.1),
                    Ok(_) => (Ok(idx), out.1),
                }
            },
        },
    }
}

/// The file that linking takes from path `s`: its inode, or the error.
pub open spec fn link_source(disk: Seq<Seq<u8>>, sb: Superblock, s: Seq<u8>) -> FsResult<u16> {
    match resolve_parts(disk, sb, path_components(s)) {
        Err(e) => Err(e),
        Ok(src) => if !readable_in(disk, sb, src as int) {
            Err(FsError::InvalidOffset)
        } else if !ino_is_file(inode_in(disk, sb, src as int)) {
            Err(FsError::NotAFile)
        } else {
            Ok(src)
        },
    }
}

/// Linking inode `src` under the name `dparts.last()` in the directory that
/// the other components name, then counting one more link in its inode:
/// the result and the blocks afterwards.
pub open spec fn link_outcome(disk: Seq<Seq<u8>>, sb: Superblock, src: u16, dparts: Seq<Seq<u8>>) -> (
    FsResult,
    Seq<Seq<u8>>,
) {
    match resolve_parts(disk, sb, dparts.drop_last()) {
        Err(e) => (Err(e), disk),
        Ok(dir) => {
            let out = add_entry_outcome_in(disk, sb, dir as int, dparts.last(), src);
            let d1 = out.1;
            if out.0 is Err {
                out
            } else if !readable_in(d1, sb, src as int) {
                (Err(FsError::InvalidOffset), d1)
            } else {
                let ino = inode_in(d1, sb, src as int);
                let bumped = ino.update(25, ((ino_links(ino) + 1) % 256) as u8);
                (Ok(()), put_inode(d1, sb, src as int, bumped))
            }
        },
    }
}

/// Creating under `parts` fits: the new entry fits in the parent directory
/// as it stands when the entry is added.
pub open spec fn create_fits(disk: Seq<Seq<u8>>, sb: Superblock, parts: Seq<Seq<u8>>, bytes: Seq<u8>) -> bool {
    match resolve_parts(disk, sb, parts.drop_last()) {
        Err(_) => true,
        Ok(parent) => match alloc_inode_in(disk, sb) {
            Err(_) => true,
            Ok(idx) => inode_block_of(sb, idx as int) < disk.len() ==> entry_fits(
                put_inode(disk, sb, idx as int, bytes),
                sb,
                parent as int,
            ),
        },
    }
}

/// Linking under `dparts` fits: the new entry fits in the directory.
pub open spec fn link_fits(disk: Seq<Seq<u8>>, sb: Superblock, dparts: Seq<Seq<u8>>) -> bool {
    match resolve_parts(disk, sb, dparts.drop_last()) {
        Err(_) => true,
        Ok(dir) => entry_fits(disk, sb, dir as int),
    }
}

/// The refusal of a path with no components: `InvalidPath` carrying the
/// path `p`.
pub open spec fn refused_path<T>(r: FsResult<T>, p: Seq<u8>) -> bool {
    r matches Err(FsError::InvalidPath(s)) && encode_utf8(s@) == p
}

/// Creating a regular file at path `p` took the file system from `before`
/// to `after` with result `r`.
pub open spec fn file_created<D: BlockDevice>(before: TmpFs<D>, after: TmpFs<D>, p: Seq<u8>, r: FsResult<FileHandle>) -> bool {
    let parts = path_components(p);
    &&& after.wf()
    &&& after.sb() == before.sb()
    &&& parts.len() == 0 ==> after.disk() == before.disk() && refused_path(r, p)
    &&& parts.len() > 0 ==> ({
        let out = create_outcome(before.disk(), before.sb(), parts, new_file_bytes());
        &&& after.disk() == out.1
        &&& match (r, out.0) {
            (Ok(h), Ok(i)) => fresh_handle(
                h,
                MetaView { name: parts.last(), entry_type: FileType::File, len: 0, links: 1 },
                i,
            ),
            (Err(a), Err(b)) => a == b,
            _ => false,
        }
    })
}

/// Creating a directory at path `p` took the file system from `before` to
/// `after` with result `r`.
pub open spec fn dir_created<D: BlockDevice>(before: TmpFs<D>, after: TmpFs<D>, p: Seq<u8>, r: FsResult) -> bool {
    let parts = path_components(p);
    &&& after.wf()
    &&& after.sb() == before.sb()
    &&& parts.len() == 0 ==> after.disk() == before.disk() && refused_path(r, p)
    &&& parts.len() > 0 ==> ({
        let out = create_outcome(before.disk(), before.sb(), parts, new_dir_bytes());
        &&& after.disk() == out.1
        &&& match (r, out.0) {
            (Ok(_), Ok(_)) => true,
            (Err(a), Err(b)) => a == b,
            _ => false,
        }
    })
}

/// Linking the file at `s` under the path `d` took the file system from
/// `before` to `after` with result `r`.
pub open spec fn linked<D: BlockDevice>(before: TmpFs<D>, after: TmpFs<D>, s: Seq<u8>, d: Seq<u8>, r: FsResult) -> bool {
    &&& after.wf()
    &&& after.sb() == before.sb()
    &&& match link_source(before.disk(), before.sb(), s) {
        Err(e) => r == Err::<(), FsError>(e) && after.disk() == before.disk(),
        Ok(src) => if path_components(d).len() == 0 {
            after.disk() == before.disk() && refused_path(r, d)
        } else {
            (r, after.disk()) == link_outcome(before.disk(), before.sb(), src, path_components(d))
        },
    }
}

/// The file system over device `D`, reached through its mounted state.
pub struct TmpFs<D: BlockDevice> {
    pub handle: TmpFsImpl<D>,
}

impl<D: BlockDevice> TmpFs<D> {
    pub open spec fn wf(&self) -> bool {
        self.handle.wf()
    }

    /// The device's blocks.
    pub open spec fn disk(&self) -> Seq<Seq<u8>> {
        self.handle.disk()
    }

    /// The superblock read at mount time.
    pub open spec fn sb(&self) -> Superblock {
        self.handle.sb
    }

    /// Mounts the file system on `inner`, whose block 0 must hold a valid
    /// superblock.
    pub fn new(inner: D) -> (r: Self)
        requires
            inner.inv(),
            inner.blocks().len() > 0,
            crate::bytes::le_u32(inner.blocks()[0], 0) == crate::storage::tmpfs::superblock::TMPFS_MAGIC,
            crate::bytes::le_u32(inner.blocks()[0], 4) == crate::storage::tmpfs::superblock::TMPFS_VERSION,
        ensures
            r.wf(),
            r.handle.inner == inner,
            r.sb().data@ == inner.blocks()[0],
    {
        TmpFs { handle: TmpFsImpl::new(inner) }
    }

    /// Formats `device` as an empty file system of `total_blocks` blocks
    /// with room for `inode_count` inodes.
    pub fn format<B: BlockDevice>(device: &mut B, total_blocks: usize, inode_count: usize) -> (r: FsResult)
        requires
            old(device).inv(),
            inode_count + 15 <= usize::MAX,
            (total_blocks as u32) >= 2 + (((inode_count + 15) / 16) as u32),
        ensures
            final(device).inv(),
            final(device).blocks().len() == old(device).blocks().len(),
            r is Ok <==> layout_of(total_blocks, inode_count).inode_start < old(device).blocks().len()
                && layout_of(total_blocks, inode_count).data_start <= old(device).blocks().len(),
            r is Err ==> r == Err::<(), FsError>(FsError::InvalidOffset),
            r is Ok ==> is_formatted_superblock(final(device).blocks()[0], total_blocks, inode_count),
            r is Ok ==> forall|i: int|
                1 <= i < old(device).blocks().len() ==> #[trigger] final(device).blocks()[i] == formatted_block(
                    old(device).blocks()[i],
                    i,
                    total_blocks,
                    inode_count,
                ),
    {
        TmpFsImpl::<D>::format(device, total_blocks, inode_count)
    }

    /// The entries of the directory at `path`.
    pub fn read_dir(&self, path: &str) -> (r: FsResult<Vec<Metadata>>)
        requires
            self.wf(),
        ensures
            listing_matches(r, dir_listing(self.disk(), self.sb(), path_components(path.spec_bytes()))),
    {
        let dir_inode_idx = match self.handle.resolve_path(path) {
            Ok(i) => i,
            Err(e) => return Err(e),
        };
        self.handle.list_dir(dir_inode_idx)
    }

    /// Opens the regular file at `path`, at offset 0.
    pub fn open_file(&self, path: &str) -> (r: FsResult<FileHandle>)
        requires
            self.wf(),
        ensures
            open_matches(r, open_outcome(self.disk(), self.sb(), path.spec_bytes()), last_segment(path.spec_bytes())),
    {
        let inode_idx = match self.handle.resolve_path(path) {
            Ok(i) => i,
            Err(e) => return Err(e),
        };
        let inode = match self.handle.read_inode(inode_idx) {
            Ok(i) => i,
            Err(e) => return Err(e),
        };
        if !inode.is_file() {
            return Err(FsError::NotAFile);
        }
        let name = String::from_str(last_segment_str(path));
        let meta = Metadata::new(name, FileType::File, inode.size() as usize);
        let file = TmpFile::new(inode_idx);
        Ok(FileHandle { meta, file })
    }

    /// The metadata of `path`; the root directory for `/` and the empty path.
    pub fn metadata(&self, path: &str) -> (r: FsResult<Metadata>)
        requires
            self.wf(),
        ensures
            meta_matches(r, meta_outcome(self.disk(), self.sb(), path.spec_bytes())),
    {
        let bytes = path.as_bytes();
        if bytes.len() == 0 || (bytes.len() == 1 && bytes[0] == 0x2f) {
            proof {
                if bytes@.len() == 1 {
                    assert(bytes@ =~= seq![0x2fu8]);
                }
                reveal_strlit("/");
                is_ascii_chars_encode_utf8("/"@);
            }
            let root = Metadata::new(String::from_str("/"), FileType::Directory, 0);
            assert(root@.name =~= seq![0x2fu8]);
            return Ok(root);
        }
        let inode_idx = match self.handle.resolve_path(path) {
            Ok(i) => i,
            Err(e) => return Err(e),
        };
        let inode = match self.handle.read_inode(inode_idx) {
            Ok(i) => i,
            Err(e) => return Err(e),
        };
        let entry_type = if inode.is_dir() {
            FileType::Directory
        } else {
            FileType::File
        };
        let name = String::from_str(last_segment_str(path));
        let mut meta = Metadata::new(name, entry_type, inode.size() as usize);
        meta.links = inode.links_count() as usize;
        Ok(meta)
    }

    /// Whether `path` names a file or directory.
    pub fn path_exists(&self, path: &str) -> (r: FsResult<bool>)
        requires
            self.wf(),
        ensures
            r == exists_outcome(self.disk(), self.sb(), path.spec_bytes()),
    {
        match self.handle.resolve_path(path) {
            Ok(_) => Ok(true),
            Err(FsError::FileNotFound) => Ok(false),
            Err(e) => Err(e),
        }
    }

    /// Creates an empty regular file at `path` and opens it.
    pub fn create_file(&mut self, path: &str) -> (r: FsResult<FileHandle>)
        requires
            old(self).wf(),
            path_components(path.spec_bytes()).len() > 0 ==> create_fits(
                old(self).disk(),
                old(self).sb(),
                path_components(path.spec_bytes()),
                new_file_bytes(),
            ),
        ensures
            file_created(*old(self), *final(self), path.spec_bytes(), r),
    {
        let parts = split_path_str(path);
        if parts.len() == 0 {
            return Err(FsError::InvalidPath(String::from_str(path)));
        }
        let new_inode_idx = match self.create_inode(&parts, &InodeData::new_file()) {
            Ok(i) => i,
            Err(e) => return Err(e),
        };
        let file_name = parts[parts.len() - 1];
        let meta = Metadata::new(String::from_str(file_name), FileType::File, 0);
        Ok(FileHandle { meta, file: TmpFile::new(new_inode_idx) })
    }

    /// Creates an empty directory at `path`.
    pub fn create_dir(&mut self, path: &str) -> (r: FsResult)
        requires
            old(self).wf(),
            path_components(path.spec_bytes()).len() > 0 ==> create_fits(
                old(self).disk(),
                old(self).sb(),
                path_components(path.spec_bytes()),
                new_dir_bytes(),
            ),
        ensures
            dir_created(*old(self), *final(self), path.spec_bytes(), r),
    {
        let parts = split_path_str(path);
        if parts.len() == 0 {
            return Err(FsError::InvalidPath(String::from_str(path)));
        }
        match self.create_inode(&parts, &InodeData::new_dir()) {
            Ok(_) => Ok(()),
            Err(e) => Err(e),
        }
    }

    /// Allocates an inode, writes `inode` into it and enters it under the
    /// last of `parts` in the directory that the others name.
    fn create_inode(&mut self, parts: &Vec<&str>, inode: &InodeData) -> (r: FsResult<u16>)
        requires
            old(self).wf(),
            parts@.len() > 0,
            create_fits(old(self).disk(), old(self).sb(), strs_bytes(parts@), inode.data@),
        ensures
            final(self).wf(),
            final(self).sb() == old(self).sb(),
            (r, final(self).disk()) == create_outcome(
                old(self).disk(),
                old(self).sb(),
                strs_bytes(parts@),
                inode.data@,
            ),
    {
        let ghost ps = strs_bytes(parts@);
        assert(ps.drop_last() =~= ps.subrange(0, parts@.len() - 1));
        let dir_inode_idx = match self.handle.resolve_prefix(parts, parts.len() - 1) {
            Ok(i) => i,
            Err(e) => return Err(e),
        };
        let new_inode_idx = match self.handle.allocate_inode() {
            Ok(i) => i,
            Err(e) => return Err(e),
        };
        if let Err(e) = self.handle.write_inode(new_inode_idx, inode) {
            return Err(e);
        }
        let name = parts[parts.len() - 1];
        assert(name.spec_bytes() == ps.last());
        if let Err(e) = self.handle.add_dir_entry(dir_inode_idx, name, new_inode_idx) {
            return Err(e);
        }
        Ok(new_inode_idx)
    }

    /// Enters the regular file at `src` under the path `dst` as well, and
    /// counts one more link in its inode.
    pub fn link(&mut self, src: &str, dst: &str) -> (r: FsResult)
        requires
            old(self).wf(),
            link_source(old(self).disk(), old(self).sb(), src.spec_bytes()) is Ok && path_components(
                dst.spec_bytes(),
            ).len() > 0 ==> link_fits(old(self).disk(), old(self).sb(), path_components(dst.spec_bytes())),
        ensures
            linked(*old(self), *final(self), src.spec_bytes(), dst.spec_bytes(), r),
    {
        let src_inode_idx = match self.handle.resolve_path(src) {
            Ok(i) => i,
            Err(e) => return Err(e),
        };
        let src_inode = match self.handle.read_inode(src_inode_idx) {
            Ok(i) => i,
            Err(e) => return Err(e),
        };
        if !src_inode.is_file() {
            return Err(FsError::NotAFile);
        }
        let dst_parts = split_path_str(dst);
        if dst_parts.len() == 0 {
            return Err(FsError::InvalidPath(String::from_str(dst)));
        }
        let ghost ps = strs_bytes(dst_parts@);
        assert(ps.drop_last() =~= ps.subrange(0, dst_parts@.len() - 1));
        let dir_inode_idx = match self.handle.resolve_prefix(&dst_parts, dst_parts.len() - 1) {
            Ok(i) => i,
            Err(e) => return Err(e),
        };
        let link_name = dst_parts[dst_parts.len() - 1];
        assert(link_name.spec_bytes() == ps.last());
        if let Err(e) = self.handle.add_dir_entry(dir_inode_idx, link_name, src_inode_idx) {
            return Err(e);
        }
        let mut inode = match self.handle.read_inode(src_inode_idx) {
            Ok(i) => i,
            Err(e) => return Err(e),
        };
        let links = inode.links_count();
        inode.set_links_count(links.wrapping_add(1));
        assert(inode.data@[25] == ((ino_links(self.handle.inode_at(src_inode_idx as int)) + 1) % 256) as u8);
        if let Err(e) = self.handle.write_inode(src_inode_idx, &inode) {
            assert(false);
            return Err(e);
        }
        Ok(())
    }
}

} // verus!

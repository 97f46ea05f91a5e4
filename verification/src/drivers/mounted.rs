//! The file systems that can be mounted: the writable TmpFS and the
//! read-only FAT16, each answering the same operations.
use vstd::prelude::*;
use vstd::string::StringSliceAdditionalSpecFns;

use crate::bytes::{le_u16, le_u32};
use crate::storage::block::BlockDevice;
use crate::storage::error::{FsError, FsResult};
use crate::storage::fat16::direntry::{slot_directory, slot_meta};
use crate::storage::fat16::fs::Fat16;
use crate::storage::fat16::impls::root_meta;
use crate::storage::metadata::{MetaView, Metadata};
use crate::storage::text::{last_segment, path_components};
use crate::storage::tmpfs::file::{file_byte, read_stop};
use crate::storage::tmpfs::fs::{
    create_fits, dir_created, dir_listing, exists_outcome, file_created, link_fits, link_source, linked,
    meta_matches, meta_outcome, new_dir_bytes, new_file_bytes, open_matches, open_outcome, FileHandle,
    TmpFs,
};
use crate::storage::tmpfs::layout::inode_in;
use crate::storage::tmpfs::lookup::listing_matches;

verus! {

/// A file system that can be mounted.
pub enum MountedFs<D: BlockDevice> {
    Tmp(TmpFs<D>),
    Fat(Fat16<D>),
}

/// A file opened on a mounted file system.
pub enum OpenFile {
    Tmp(FileHandle),
    Fat(crate::storage::fat16::fs::FileHandle),
}

impl<D: BlockDevice> MountedFs<D> {
    pub open spec fn wf(&self) -> bool {
        match self {
            MountedFs::Tmp(t) => t.wf(),
            MountedFs::Fat(f) => f.wf(),
        }
    }
}

/// Listing the directory at `p` of `fs`.
pub open spec fn fs_listing<D: BlockDevice>(fs: MountedFs<D>, p: Seq<u8>) -> FsResult<Seq<MetaView>> {
    match fs {
        MountedFs::Tmp(t) => dir_listing(t.disk(), t.sb(), path_components(p)),
        MountedFs::Fat(f) => match f.handle.dir_at(p) {
            Err(e) => Err(e),
            Ok(d) => f.handle.dir_listing(d),
        },
    }
}

/// `r` is what the metadata of `p` in `fs` is.
pub open spec fn fs_meta<D: BlockDevice>(fs: MountedFs<D>, p: Seq<u8>, r: FsResult<Metadata>) -> bool {
    match fs {
        MountedFs::Tmp(t) => meta_matches(r, meta_outcome(t.disk(), t.sb(), p)),
        MountedFs::Fat(f) => match f.handle.resolve(p) {
            Err(e) => r matches Err(x) && x == e,
            Ok(None) => r matches Ok(m) && m@ == root_meta(),
            Ok(Some(s)) => r matches Ok(m) && m@ == slot_meta(s),
        },
    }
}

/// Whether something is at `p` in `fs`.
pub open spec fn fs_exists<D: BlockDevice>(fs: MountedFs<D>, p: Seq<u8>) -> FsResult<bool> {
    match fs {
        MountedFs::Tmp(t) => exists_outcome(t.disk(), t.sb(), p),
        MountedFs::Fat(f) => match f.handle.resolve(p) {
            Ok(_) => Ok(true),
            Err(FsError::FileNotFound) => Ok(false),
            Err(FsError::NotADirectory) => Ok(false),
            Err(e) => Err(e),
        },
    }
}

/// `r` is what opening the regular file at `p` of `fs` gives: a handle at
/// its start, or the error.
pub open spec fn fs_opened<D: BlockDevice>(fs: MountedFs<D>, p: Seq<u8>, r: FsResult<OpenFile>) -> bool {
    match fs {
        MountedFs::Tmp(t) => match r {
            Ok(OpenFile::Tmp(h)) => open_matches(Ok(h), open_outcome(t.disk(), t.sb(), p), last_segment(p)),
            Ok(OpenFile::Fat(_)) => false,
            Err(e) => open_matches(Err(e), open_outcome(t.disk(), t.sb(), p), last_segment(p)),
        },
        MountedFs::Fat(f) => match f.handle.resolve(p) {
            Err(e) => r matches Err(x) && x == e,
            Ok(None) => r matches Err(x) && x == FsError::NotAFile,
            Ok(Some(s)) => if slot_directory(s) {
                r matches Err(x) && x == FsError::NotAFile
            } else {
                r matches Ok(OpenFile::Fat(h)) && h.meta@ == slot_meta(s) && h.file.entry.data@ == s
                    && h.file.offset == 0 && h.file.current_cluster.0 == le_u16(s, 26)
            },
        },
    }
}

/// `r` is what reading the whole regular file at `p` of `fs` from its
/// start in one go gives: its bytes up to where reading stops, or `None`
/// where it cannot be opened or reading fails.
pub open spec fn fs_read_back<D: BlockDevice>(fs: MountedFs<D>, p: Seq<u8>, r: Option<Vec<u8>>) -> bool {
    match fs {
        MountedFs::Tmp(t) => match open_outcome(t.disk(), t.sb(), p) {
            Err(_) => r is None,
            Ok((ino, len)) => {
                let bytes = inode_in(t.disk(), t.sb(), ino as int);
                match read_stop(t.disk(), t.sb(), bytes, 0, len) {
                    Err(_) => r is None,
                    Ok(stop) => r matches Some(v) && v@.len() == stop && forall|k: int|
                        0 <= k < stop ==> v@[k] == file_byte(t.disk(), t.sb(), bytes, k),
                }
            },
        },
        MountedFs::Fat(f) => match f.handle.resolve(p) {
            Ok(Some(s)) => if slot_directory(s) {
                r is None
            } else {
                let cur = le_u16(s, 26) as u32;
                match f.handle.read_stop(cur, 0, 0, le_u32(s, 28) as int) {
                    Err(_) => r is None,
                    Ok(stop) => r matches Some(v) && v@.len() == stop && forall|k: int|
                        0 <= k < stop ==> v@[k] == f.handle.pos_byte(cur, 0, k),
                }
            },
            _ => r is None,
        },
    }
}

/// Creating under `parts` in `fs` fits (only TmpFS creates anything).
pub open spec fn fs_create_fits<D: BlockDevice>(fs: MountedFs<D>, parts: Seq<Seq<u8>>, bytes: Seq<u8>) -> bool {
    match fs {
        MountedFs::Tmp(t) => parts.len() > 0 ==> create_fits(t.disk(), t.sb(), parts, bytes),
        MountedFs::Fat(_) => true,
    }
}

/// Linking `s` as `d` in `fs` fits (only TmpFS links anything).
pub open spec fn fs_link_fits<D: BlockDevice>(fs: MountedFs<D>, s: Seq<u8>, d: Seq<u8>) -> bool {
    match fs {
        MountedFs::Tmp(t) => link_source(t.disk(), t.sb(), s) is Ok && path_components(d).len() > 0 ==> link_fits(
            t.disk(),
            t.sb(),
            path_components(d),
        ),
        MountedFs::Fat(_) => true,
    }
}

/// FAT16 is mounted read-only: an operation that would change it is
/// refused with `NotSupported` and changes nothing.
pub open spec fn fat_refused<D: BlockDevice>(before: Fat16<D>, after: MountedFs<D>, e: FsError) -> bool {
    after == MountedFs::Fat(before) && e == FsError::NotSupported
}

/// Creating a file at `p` took `before` to `after` with result `r`.
pub open spec fn fs_file_created<D: BlockDevice>(
    before: MountedFs<D>,
    after: MountedFs<D>,
    p: Seq<u8>,
    r: FsResult<FileHandle>,
) -> bool {
    match before {
        MountedFs::Tmp(b) => after matches MountedFs::Tmp(a) && file_created(b, a, p, r),
        MountedFs::Fat(b) => r matches Err(e) && fat_refused(b, after, e),
    }
}

/// Creating a directory at `p` took `before` to `after` with result `r`.
pub open spec fn fs_dir_created<D: BlockDevice>(before: MountedFs<D>, after: MountedFs<D>, p: Seq<u8>, r: FsResult) -> bool {
    match before {
        MountedFs::Tmp(b) => after matches MountedFs::Tmp(a) && dir_created(b, a, p, r),
        MountedFs::Fat(b) => r matches Err(e) && fat_refused(b, after, e),
    }
}

/// Linking `s` as `d` took `before` to `after` with result `r`.
pub open spec fn fs_linked<D: BlockDevice>(
    before: MountedFs<D>,
    after: MountedFs<D>,
    s: Seq<u8>,
    d: Seq<u8>,
    r: FsResult,
) -> bool {
    match before {
        MountedFs::Tmp(b) => after matches MountedFs::Tmp(a) && linked(b, a, s, d, r),
        MountedFs::Fat(b) => r matches Err(e) && fat_refused(b, after, e),
    }
}

impl<D: BlockDevice> MountedFs<D> {
    /// Lists the directory at `path`.
    pub fn read_dir(&self, path: &str) -> (r: FsResult<Vec<Metadata>>)
        requires
            self.wf(),
        ensures
            listing_matches(r, fs_listing(*self, path.spec_bytes())),
    {
        match self {
            MountedFs::Tmp(t) => t.read_dir(path),
            MountedFs::Fat(f) => f.read_dir(path),
        }
    }

    /// The metadata of `path`.
    pub fn metadata(&self, path: &str) -> (r: FsResult<Metadata>)
        requires
            self.wf(),
        ensures
            fs_meta(*self, path.spec_bytes(), r),
    {
        match self {
            MountedFs::Tmp(t) => t.metadata(path),
            MountedFs::Fat(f) => f.metadata(path),
        }
    }

    /// Whether something is at `path`.
    pub fn path_exists(&self, path: &str) -> (r: FsResult<bool>)
        requires
            self.wf(),
        ensures
            r == fs_exists(*self, path.spec_bytes()),
    {
        match self {
            MountedFs::Tmp(t) => t.path_exists(path),
            MountedFs::Fat(f) => f.path_exists(path),
        }
    }

    /// Opens the regular file at `path`, at its start.
    pub fn open_file(&self, path: &str) -> (r: FsResult<OpenFile>)
        requires
            self.wf(),
        ensures
            fs_opened(*self, path.spec_bytes(), r),
    {
        match self {
            MountedFs::Tmp(t) => match t.open_file(path) {
                Ok(h) => Ok(OpenFile::Tmp(h)),
                Err(e) => Err(e),
            },
            MountedFs::Fat(f) => match f.open_file(path) {
                Ok(h) => Ok(OpenFile::Fat(h)),
                Err(e) => Err(e),
            },
        }
    }

    /// The whole content of the regular file at `path`.
    pub fn read_file(&self, path: &str) -> (r: Option<Vec<u8>>)
        requires
            self.wf(),
        ensures
            fs_read_back(*self, path.spec_bytes(), r),
    {
        match self {
            MountedFs::Tmp(t) => {
                let handle = match t.open_file(path) {
                    Ok(h) => h,
                    Err(_) => return None,
                };
                let mut file = handle.file;
                let len = handle.meta.len;
                let mut buf: Vec<u8> = vec![0u8; len];
                match file.read(&t.handle, buf.as_mut_slice()) {
                    Err(_) => None,
                    Ok(n) => Some(prefix_of(&buf, n)),
                }
            },
            MountedFs::Fat(f) => {
                let handle = match f.open_file(path) {
                    Ok(h) => h,
                    Err(_) => return None,
                };
                let mut file = handle.file;
                let len = file.length();
                let mut buf: Vec<u8> = vec![0u8; len];
                proof {
                    f.handle.lemma_read_stop_end(file.current_cluster.0, 0, 0, len as int);
                }
                match file.read(&f.handle, buf.as_mut_slice()) {
                    Err(_) => None,
                    Ok(n) => Some(prefix_of(&buf, n)),
                }
            },
        }
    }

    /// Creates an empty regular file at `path` and opens it; refused on FAT16.
    pub fn create_file(&mut self, path: &str) -> (r: FsResult<FileHandle>)
        requires
            old(self).wf(),
            fs_create_fits(*old(self), path_components(path.spec_bytes()), new_file_bytes()),
        ensures
            final(self).wf(),
            fs_file_created(*old(self), *final(self), path.spec_bytes(), r),
    {
        match self {
            MountedFs::Tmp(t) => t.create_file(path),
            MountedFs::Fat(_) => Err(FsError::NotSupported),
        }
    }

    /// Creates an empty directory at `path`; refused on FAT16.
    pub fn create_dir(&mut self, path: &str) -> (r: FsResult)
        requires
            old(self).wf(),
            fs_create_fits(*old(self), path_components(path.spec_bytes()), new_dir_bytes()),
        ensures
            final(self).wf(),
            fs_dir_created(*old(self), *final(self), path.spec_bytes(), r),
    {
        match self {
            MountedFs::Tmp(t) => t.create_dir(path),
            MountedFs::Fat(_) => Err(FsError::NotSupported),
        }
    }

    /// Enters the regular file at `src` under `dst` as well; refused on FAT16.
    pub fn link(&mut self, src: &str, dst: &str) -> (r: FsResult)
        requires
            old(self).wf(),
            fs_link_fits(*old(self), src.spec_bytes(), dst.spec_bytes()),
        ensures
            final(self).wf(),
            fs_linked(*old(self), *final(self), src.spec_bytes(), dst.spec_bytes(), r),
    {
        match self {
            MountedFs::Tmp(t) => t.link(src, dst),
            MountedFs::Fat(_) => Err(FsError::NotSupported),
        }
    }
}

/// The first `n` bytes of `buf`.
fn prefix_of(buf: &Vec<u8>, n: usize) -> (r: Vec<u8>)
    requires
        n <= buf@.len(),
    ensures
        r@ == buf@.subrange(0, n as int),
{
    let mut out: Vec<u8> = Vec::new();
    let mut k: usize = 0;
    while k < n
        invariant
            k <= n,
            n <= buf@.len(),
            out@ == buf@.subrange(0, k as int),
        decreases n - k,
    {
        out.push(buf[k]);
        k = k + 1;
        assert(out@ =~= buf@.subrange(0, k as int));
    }
    out
}

} // verus!

//! The FAT16 volume as a file system: listing, opening, metadata, lookup.
use vstd::prelude::*;
use vstd::string::StringSliceAdditionalSpecFns;

use crate::bytes::le_u16;
use crate::storage::block::BlockDevice;
use crate::storage::error::{FsError, FsResult};
use crate::storage::fat16::direntry::{slot_directory, slot_meta};
use crate::storage::fat16::file::File;
use crate::storage::fat16::impls::{listing_is, root_meta, Fat16Impl};
use crate::storage::metadata::Metadata;

verus! {

/// An open file of a FAT16 volume with its metadata.
pub struct FileHandle {
    pub meta: Metadata,
    pub file: File,
}

/// A FAT16 file system.
pub struct Fat16<D: BlockDevice> {
    pub handle: Fat16Impl<D>,
}

impl<D: BlockDevice> Fat16<D> {
    pub open spec fn wf(&self) -> bool {
        self.handle.wf()
    }

    /// Opens the volume on `inner`.
    pub fn new(inner: D) -> (r: Self)
        requires
            inner.inv(),
            inner.blocks().len() > 0,
            crate::storage::fat16::bpb::bpb_ok(inner.blocks()[0]),
            crate::storage::fat16::impls::volume_fits(
                crate::storage::fat16::bpb::bpb_of(inner.blocks()[0]),
                inner.blocks().len() as int,
            ),
        ensures
            r.wf(),
            r.handle.bpb == crate::storage::fat16::bpb::bpb_of(inner.blocks()[0]),
            r.handle.inner == inner,
    {
        Fat16 { handle: Fat16Impl::new(inner) }
    }

    /// Lists the directory at `path`.
    pub fn read_dir(&self, path: &str) -> (r: FsResult<Vec<Metadata>>)
        requires
            self.wf(),
        ensures
            listing_is(
                r,
                match self.handle.dir_at(path.spec_bytes()) {
                    Err(e) => Err(e),
                    Ok(d) => self.handle.dir_listing(d),
                },
            ),
    {
        let dir = match self.handle.open_dir(path) {
            Ok(d) => d,
            Err(e) => return Err(e),
        };
        self.handle.traverse_dir(&dir)
    }

    /// Opens the file at `path`, at its start.
    pub fn open_file(&self, path: &str) -> (r: FsResult<FileHandle>)
        requires
            self.wf(),
        ensures
            match self.handle.resolve(path.spec_bytes()) {
                Err(e) => r matches Err(x) && x == e,
                Ok(None) => r matches Err(x) && x == FsError::NotAFile,
                Ok(Some(s)) => if slot_directory(s) {
                    r matches Err(x) && x == FsError::NotAFile
                } else {
                    r matches Ok(h) && h.meta@ == slot_meta(s) && h.file.entry.data@ == s
                        && h.file.offset == 0 && h.file.current_cluster.0 == le_u16(s, 26)
                },
            },
    {
        match self.handle.resolve_path(path) {
            Err(e) => Err(e),
            Ok(Some(entry)) => if !entry.is_directory() {
                let meta = entry.as_meta();
                let file = File::new(entry);
                Ok(FileHandle { meta, file })
            } else {
                Err(FsError::NotAFile)
            },
            Ok(None) => Err(FsError::NotAFile),
        }
    }

    /// The metadata of the file or directory at `path`.
    pub fn metadata(&self, path: &str) -> (r: FsResult<Metadata>)
        requires
            self.wf(),
        ensures
            match self.handle.resolve(path.spec_bytes()) {
                Err(e) => r matches Err(x) && x == e,
                Ok(None) => r matches Ok(m) && m@ == root_meta(),
                Ok(Some(s)) => r matches Ok(m) && m@ == slot_meta(s),
            },
    {
        match self.handle.resolve_path(path) {
            Err(e) => Err(e),
            Ok(Some(entry)) => Ok(entry.as_meta()),
            Ok(None) => Ok(self.handle.root_metadata()),
        }
    }

    /// Whether something is at `path`: a missing component, or a component
    /// that is not a directory where one is needed, says no; other failures
    /// are passed on.
    pub fn path_exists(&self, path: &str) -> (r: FsResult<bool>)
        requires
            self.wf(),
        ensures
            match self.handle.resolve(path.spec_bytes()) {
                Ok(_) => r == Ok::<bool, FsError>(true),
                Err(FsError::FileNotFound) => r == Ok::<bool, FsError>(false),
                Err(FsError::NotADirectory) => r == Ok::<bool, FsError>(false),
                Err(e) => r matches Err(x) && x == e,
            },
    {
        match self.handle.resolve_path(path) {
            Ok(_) => Ok(true),
            Err(FsError::FileNotFound) => Ok(false),
            Err(FsError::NotADirectory) => Ok(false),
            Err(e) => Err(e),
        }
    }
}

} // verus!

//! Errors of the storage layer.
use vstd::prelude::*;

verus! {

/// What a block device or a file system operation can fail with.
#[derive(Debug, PartialEq, Eq)]
pub enum FsError {
    NotSupported,
    FileNotFound,
    FileAlreadyExists,
    InvalidPath(String),
    ReadError,
    WriteError,
    InvalidOperation,
    InvalidOffset,
    NotADirectory,
    NotAFile,
    BadCluster,
    EndOfFile,
}

pub type FsResult<T = ()> = Result<T, FsError>;

} // verus!

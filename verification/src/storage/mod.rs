//! Block storage: devices, file systems and the block cache.
pub mod block;
pub mod cache;
pub mod error;
pub mod fat16;
pub mod metadata;
pub mod ramdisk;
pub mod text;
pub mod tmpfs;

pub use error::{FsError, FsResult};

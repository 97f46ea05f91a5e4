//! An inode-based file system kept on a block device.
pub mod direntry;
pub mod file;
pub mod format;
pub mod fs;
pub mod impls;
pub mod inode;
pub mod laws;
pub mod layout;
pub mod lookup;
pub mod superblock;

//! A read-only FAT16 file system.
pub mod bpb;
pub mod direntry;
pub mod impls;
pub mod file;
pub mod fs;

//! Core logic of a small teaching operating system: an inode-based
//! in-memory file system, a FAT16 reader, a block cache, and the pure
//! decision logic of the kernel (syscall decoding, heap and stack growth,
//! process bookkeeping, time arithmetic).
use vstd::prelude::*;

pub mod bytes;
pub mod config;
pub mod drivers;
pub mod memory;
pub mod proc;
pub mod shell;
pub mod storage;
pub mod syscall;
pub mod time;

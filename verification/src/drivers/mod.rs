//! Kernel-side devices and services built on the storage layer.
pub mod ata;
pub mod cache;
pub mod filesystem;
pub mod input;
pub mod mounted;

[package]
name = "ysos_core"
version = "0.1.0"
edition = "2021"
publish = false

[dependencies]
lru = "*"
crossbeam-queue = { version = "*", default-features = false, features = ["alloc"] }
hashbrown = "*"
ahash = { version = "*", default-features = false }
chrono = { version = "*", default-features = false }
log = "*"

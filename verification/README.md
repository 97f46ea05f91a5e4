# ysos_core

The logic of a small teaching operating system, written in Verus. The
functions of `src/` carry contracts that Verus proves, except the small
`#[verifier::external_body]` wrappers around the outside crates (`lru`,
`crossbeam-queue`, `hashbrown`, `chrono`) and a few std calls: their
contracts, each documented where it stands, are believed, not proved.

- `storage/` — block devices (`block`, `ramdisk`), a write-back block cache
  (`cache`), path and name handling (`text`), a writable inode file system
  (`tmpfs/`) and a read-only FAT16 file system (`fat16/`).
- `drivers/` — the LRU cache manager over the `lru` crate, the virtual file
  system that routes paths by longest prefix to mounted TmpFS or
  (read-only) FAT16 file systems (`mounted`), and keyboard input
  (a bounded key queue over `crossbeam-queue` and a line editor).
- `proc/` — process numbers, the timer counter, and the process manager
  (ready queue, blocking, waiting and killing).
- `memory.rs` — heap growth (`brk`), stack layout, per-process stacks,
  stack growth on page faults, and the registers of a forked child.
- `syscall.rs`, `shell.rs`, `config.rs`, `time.rs` — system call numbers and
  arguments, shell commands, the boot configuration file, and clock
  arithmetic (with `chrono` for calendar dates).

`tmpfs/laws.rs`, and the `law_` proof functions beside the code they speak
of, state what holds across operations: formatting gives an empty root, a
file read gives back what a write put there, a hard link is found under its
new name, allocation and freeing undo each other, and more.

`app/` is the program around the library: console input, printing, the
logger, and the start-up scenario that mounts a FAT16 boot volume at
`/boot` and a RAM disk at `/tmp`, and writes and reads a file through the
virtual file system.

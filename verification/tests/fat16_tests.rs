use ysos_core::drivers::filesystem::VirtualFileSystem;
use ysos_core::drivers::mounted::{MountedFs, OpenFile};
use ysos_core::storage::block::{Block512, BlockDevice};
use ysos_core::storage::fat16::bpb::Fat16Bpb;
use ysos_core::storage::fat16::direntry::{
    Cluster, DirEntry, Directory, ShortFileName, CLUSTER_EMPTY, CLUSTER_END_OF_FILE,
    CLUSTER_ROOT_DIR,
};
use ysos_core::storage::fat16::fs::Fat16;
use ysos_core::storage::fat16::impls::Fat16Impl;
use ysos_core::storage::metadata::FileType;
use ysos_core::storage::ramdisk::RamDisk;
use ysos_core::storage::tmpfs::fs::TmpFs;
use ysos_core::storage::FsError;

fn boot_sector() -> Block512 {
    let mut b = Block512 { data: [0u8; 512] };
    b.data[11] = 0x00; // 512 bytes per sector
    b.data[12] = 0x02;
    b.data[13] = 1; // one sector per cluster
    b.data[14] = 1; // one reserved sector
    b.data[16] = 2; // two FATs
    b.data[17] = 16; // sixteen root entries
    b.data[22] = 1; // one sector per FAT
    b.data[510] = 0x55;
    b.data[511] = 0xAA;
    b
}

fn put_entry(b: &mut Block512, slot: usize, name: &[u8; 11], attr: u8, cluster: u16, size: u32) {
    let off = slot * 32;
    b.data[off..off + 11].copy_from_slice(name);
    b.data[off + 11] = attr;
    b.data[off + 26..off + 28].copy_from_slice(&cluster.to_le_bytes());
    b.data[off + 28..off + 32].copy_from_slice(&size.to_le_bytes());
}

fn set_fat(fat: &mut Block512, cluster: usize, value: u16) {
    fat.data[cluster * 2..cluster * 2 + 2].copy_from_slice(&value.to_le_bytes());
}

/// A small volume: HELLO.TXT (5 bytes, cluster 2), BIG.TXT (700 bytes,
/// clusters 3 and 4), directory SUB (cluster 5) holding INNER.TXT (cluster
/// 6), and a looping directory chain at cluster 7.
fn image() -> RamDisk {
    let mut disk = RamDisk::new(300);
    disk.write_block(0, &boot_sector()).unwrap();

    let mut fat = Block512 { data: [0u8; 512] };
    set_fat(&mut fat, 0, 0xFFF8);
    set_fat(&mut fat, 1, 0xFFFF);
    set_fat(&mut fat, 2, 0xFFFF);
    set_fat(&mut fat, 3, 4);
    set_fat(&mut fat, 4, 0xFFFF);
    set_fat(&mut fat, 5, 0xFFFF);
    set_fat(&mut fat, 6, 0xFFFF);
    set_fat(&mut fat, 7, 7);
    set_fat(&mut fat, 8, 0xFFF7);
    disk.write_block(1, &fat).unwrap();
    disk.write_block(2, &fat).unwrap();

    let mut root = Block512 { data: [0u8; 512] };
    put_entry(&mut root, 0, b"MYDISK     ", 0x08, 0, 0);
    put_entry(&mut root, 1, b"HELLO   TXT", 0x20, 2, 5);
    put_entry(&mut root, 2, b"GONE    TXT", 0x20, 0, 0);
    root.data[64] = 0xE5;
    put_entry(&mut root, 3, b"BIG     TXT", 0x20, 3, 700);
    put_entry(&mut root, 4, b"SUB        ", 0x10, 5, 0);
    put_entry(&mut root, 5, b"LOOP       ", 0x10, 7, 0);
    put_entry(&mut root, 6, b"BROKEN  TXT", 0x20, 8, 1000);
    disk.write_block(3, &root).unwrap();

    let mut hello = Block512 { data: [0u8; 512] };
    hello.data[..5].copy_from_slice(b"hello");
    disk.write_block(4, &hello).unwrap();
    disk.write_block(5, &Block512 { data: [b'a'; 512] }).unwrap();
    let mut tail = Block512 { data: [0u8; 512] };
    tail.data[..188].copy_from_slice(&[b'b'; 188]);
    disk.write_block(6, &tail).unwrap();

    let mut sub = Block512 { data: [0u8; 512] };
    put_entry(&mut sub, 0, b".          ", 0x10, 5, 0);
    put_entry(&mut sub, 1, b"..         ", 0x10, 0, 0);
    put_entry(&mut sub, 2, b"INNER   TXT", 0x20, 6, 3);
    disk.write_block(7, &sub).unwrap();
    let mut inner = Block512 { data: [0u8; 512] };
    inner.data[..3].copy_from_slice(b"abc");
    disk.write_block(8, &inner).unwrap();

    // The looping directory has no end mark: only deleted entries.
    let mut looping = Block512 { data: [0u8; 512] };
    for slot in 0..16 {
        looping.data[slot * 32] = 0xE5;
    }
    disk.write_block(9, &looping).unwrap();
    disk.write_block(10, &Block512 { data: [b'x'; 512] }).unwrap();
    disk
}

fn names(v: &[ysos_core::storage::metadata::Metadata]) -> Vec<String> {
    v.iter().map(|m| m.name.clone()).collect()
}

#[test]
fn fat16_bpb_parse() {
    let b = boot_sector();
    let bpb = Fat16Bpb::new(&b.data).unwrap();
    assert_eq!(bpb.bytes_per_sector, 512);
    assert_eq!(bpb.sectors_per_cluster, 1);
    assert_eq!(bpb.reserved_sector_count, 1);
    assert_eq!(bpb.fat_count, 2);
    assert_eq!(bpb.root_entries_count, 16);
    assert_eq!(bpb.sectors_per_fat, 1);
    let mut bad = boot_sector();
    bad.data[511] = 0;
    assert_eq!(Fat16Bpb::new(&bad.data), Err(FsError::NotSupported));
    let mut odd = boot_sector();
    odd.data[11] = 0x01;
    assert_eq!(Fat16Bpb::new(&odd.data), Err(FsError::NotSupported));
}

#[test]
fn fat16_geometry() {
    let fs = Fat16Impl::new(image());
    assert_eq!(fs.fat_start, 1);
    assert_eq!(fs.first_root_dir_sector, 3);
    assert_eq!(fs.first_data_sector, 4);
    assert_eq!(fs.blocks_per_sector(), 1);
    assert_eq!(fs.sector_to_block(5), 5);
    assert_eq!(fs.cluster_to_sector(&Cluster(3)), 5);
    assert_eq!(fs.cluster_to_sector(&Cluster(CLUSTER_ROOT_DIR)), 3);
}

#[test]
fn fat16_next_cluster() {
    let fs = Fat16Impl::new(image());
    assert_eq!(fs.next_cluster(&Cluster(3)), Cluster(4));
    assert_eq!(fs.next_cluster(&Cluster(4)), Cluster(CLUSTER_END_OF_FILE));
    assert_eq!(fs.next_cluster(&Cluster(CLUSTER_EMPTY)), Cluster(CLUSTER_EMPTY));
    assert_eq!(fs.next_cluster(&Cluster(CLUSTER_ROOT_DIR)), Cluster(CLUSTER_END_OF_FILE));
    assert_eq!(fs.next_cluster(&Cluster(8)).0, 0xFFFF_FFF7);
    assert_eq!(fs.next_cluster(&Cluster(9)), Cluster(CLUSTER_EMPTY));
}

#[test]
fn fat16_short_names() {
    let n = ShortFileName::parse("hello.txt").unwrap();
    assert_eq!(&n.name, b"HELLO   ");
    assert_eq!(&n.ext, b"TXT");
    assert_eq!(&ShortFileName::parse("..").unwrap().name, b"..      ");
    assert!(ShortFileName::parse("toolongname.txt").is_err());
    assert!(ShortFileName::parse("a.b.c").is_err());
    assert!(ShortFileName::parse("bad*name").is_err());
    assert!(ShortFileName::parse("").is_err());
}

#[test]
fn fat16_get_direntry() {
    let fs = Fat16Impl::new(image());
    let e = fs.get_direntry(&Directory::root(), "hello.txt").unwrap();
    assert_eq!(e.size(), 5);
    assert_eq!(e.cluster(), Cluster(2));
    assert!(!e.is_directory());
    assert_eq!(fs.get_direntry(&Directory::root(), "nope.txt").err(), Some(FsError::FileNotFound));
    // The deleted entry and the volume label are not found.
    assert!(fs.get_direntry(&Directory::root(), "mydisk").is_err());
    let sub = fs.get_direntry(&Directory::root(), "SUB").unwrap();
    assert!(sub.is_directory());
    let inner = fs.get_direntry(&Directory::from_entry(sub), "inner.txt").unwrap();
    assert_eq!(inner.size(), 3);
    let parent = fs.get_direntry(&Directory::from_entry(sub), "..").unwrap();
    assert!(parent.is_directory());
}

#[test]
fn fat16_traverse_dir() {
    let fs = Fat16Impl::new(image());
    let root = fs.traverse_dir(&Directory::root()).unwrap();
    assert_eq!(names(&root), vec!["HELLO.TXT", "BIG.TXT", "SUB", "LOOP", "BROKEN.TXT"]);
    assert_eq!(root[1].len, 700);
    assert_eq!(root[2].entry_type, FileType::Directory);
    let sub = fs.traverse_dir(&Directory { cluster: Cluster(5) }).unwrap();
    assert_eq!(names(&sub), vec!["INNER.TXT"]);
    assert_eq!(fs.traverse_dir(&Directory { cluster: Cluster(0) }).err(), Some(FsError::FileNotFound));
    assert_eq!(fs.traverse_dir(&Directory { cluster: Cluster(1) }).err(), Some(FsError::InvalidOperation));
}

#[test]
fn fat16_looping_chain_is_refused() {
    let fs = Fat16Impl::new(image());
    assert_eq!(fs.traverse_dir(&Directory { cluster: Cluster(7) }).err(), Some(FsError::BadCluster));
    assert_eq!(
        fs.get_direntry(&Directory { cluster: Cluster(7) }, "x").err(),
        Some(FsError::BadCluster)
    );
}

#[test]
fn fat16_read_across_clusters() {
    let fs = Fat16::new(image());
    let mut h = fs.open_file("/big.txt").unwrap();
    assert_eq!(h.meta.len, 700);
    assert_eq!(h.file.length(), 700);
    let mut buf = [0u8; 300];
    assert_eq!(h.file.read(&fs.handle, &mut buf), Ok(300));
    assert!(buf.iter().all(|&b| b == b'a'));
    assert_eq!(h.file.read(&fs.handle, &mut buf), Ok(300));
    assert!(buf[..212].iter().all(|&b| b == b'a'));
    assert!(buf[212..].iter().all(|&b| b == b'b'));
    assert_eq!(h.file.read(&fs.handle, &mut buf), Ok(100));
    assert!(buf[..100].iter().all(|&b| b == b'b'));
    assert_eq!(h.file.read(&fs.handle, &mut buf), Ok(0));
    assert_eq!(h.file.offset, 700);
}

#[test]
fn fat16_read_small_file() {
    let fs = Fat16::new(image());
    let mut h = fs.open_file("/SUB/inner.txt").unwrap();
    let mut buf = [0u8; 16];
    assert_eq!(h.file.read(&fs.handle, &mut buf), Ok(3));
    assert_eq!(&buf[..3], b"abc");
    assert_eq!(buf[3], 0);
    let mut h = fs.open_file("hello.txt").unwrap();
    let mut empty: [u8; 0] = [];
    assert_eq!(h.file.read(&fs.handle, &mut empty), Ok(0));
    assert_eq!(h.file.read(&fs.handle, &mut buf), Ok(5));
    assert_eq!(&buf[..5], b"hello");
}

#[test]
fn fat16_read_bad_cluster_fails() {
    let fs = Fat16::new(image());
    let mut h = fs.open_file("/broken.txt").unwrap();
    let mut buf = [0u8; 600];
    assert_eq!(h.file.read(&fs.handle, &mut buf), Err(FsError::BadCluster));
    // The first cluster was read before the chain reached the bad one.
    assert_eq!(h.file.offset, 512);
    assert!(buf[..512].iter().all(|&b| b == b'x'));
}

#[test]
fn fat16_file_system_queries() {
    let fs = Fat16::new(image());
    assert_eq!(names(&fs.read_dir("/sub").unwrap()), vec!["INNER.TXT"]);
    assert_eq!(fs.read_dir("/hello.txt").err(), Some(FsError::NotADirectory));
    assert_eq!(fs.open_file("/sub").err(), Some(FsError::NotAFile));
    assert_eq!(fs.open_file("/").err(), Some(FsError::NotAFile));
    let root = fs.metadata("/").unwrap();
    assert_eq!(root.name, "/");
    assert!(root.is_dir());
    assert_eq!(fs.metadata("/big.txt").unwrap().len, 700);
    assert_eq!(fs.path_exists("/sub/inner.txt"), Ok(true));
    assert_eq!(fs.path_exists("/hello.txt/x"), Ok(false));
    assert_eq!(fs.path_exists("/nope"), Ok(false));
    let d = DirEntry { data: [0u8; 32] };
    assert!(!d.is_valid());
}

#[test]
fn fat16_mounted_at_boot_beside_tmpfs() {
    let mut tmp_disk = RamDisk::new(512);
    TmpFs::<RamDisk>::format(&mut tmp_disk, 512, 64).unwrap();
    let mut vfs = VirtualFileSystem::new();
    vfs.mount(MountedFs::Fat(Fat16::new(image())), "/boot");
    vfs.mount(MountedFs::Tmp(TmpFs::new(tmp_disk)), "/tmp");
    assert_eq!(names(&vfs.read_dir("/").unwrap()), vec!["boot", "tmp"]);
    assert_eq!(names(&vfs.read_dir("/boot/sub").unwrap()), vec!["INNER.TXT"]);
    assert_eq!(vfs.read_file("/boot/hello.txt"), Some(b"hello".to_vec()));
    assert_eq!(vfs.read_file("/boot/sub/inner.txt"), Some(b"abc".to_vec()));
    assert_eq!(vfs.read_file("/boot/big.txt").map(|v| v.len()), Some(700));
    assert_eq!(vfs.read_file("/boot/broken.txt"), None);
    assert_eq!(vfs.read_file("/boot/sub"), None);
    assert_eq!(vfs.metadata("/boot/big.txt").unwrap().len, 700);
    assert_eq!(vfs.path_exists("/boot/nope"), Ok(false));
    assert!(matches!(vfs.open_file("/boot/hello.txt"), Ok(OpenFile::Fat(_))));
    assert!(matches!(vfs.open_file("/boot/sub"), Err(FsError::NotAFile)));
    // FAT16 is mounted read-only.
    assert!(matches!(vfs.create_file("/boot/new.txt"), Err(FsError::NotSupported)));
    assert_eq!(vfs.create_dir("/boot/newdir"), Err(FsError::NotSupported));
    assert_eq!(vfs.link("/boot/hello.txt", "/boot/again.txt"), Err(FsError::NotSupported));
    // The TmpFS beside it still takes writes.
    assert!(matches!(vfs.create_file("/tmp/a.txt"), Ok(_)));
    assert!(matches!(vfs.open_file("/tmp/a.txt"), Ok(OpenFile::Tmp(_))));
    assert_eq!(vfs.read_file("/tmp/a.txt"), Some(Vec::new()));
}

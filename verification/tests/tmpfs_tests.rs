use ysos_core::storage::block::{Block512, BlockDevice};
use ysos_core::storage::error::FsError;
use ysos_core::storage::metadata::FileType;
use ysos_core::storage::ramdisk::RamDisk;
use ysos_core::storage::tmpfs::direntry::DirEntryData;
use ysos_core::storage::tmpfs::file::{SeekFrom, TmpFile};
use ysos_core::storage::tmpfs::fs::TmpFs;
use ysos_core::storage::tmpfs::impls::TmpFsImpl;
use ysos_core::storage::tmpfs::inode::InodeData;
use ysos_core::storage::tmpfs::superblock::{Superblock, TMPFS_MAGIC, TMPFS_VERSION};

const BLOCKS: usize = 4096;
const INODES: usize = 256;

fn fresh_fs() -> TmpFs<RamDisk> {
    let mut disk = RamDisk::new(BLOCKS);
    TmpFs::<RamDisk>::format(&mut disk, BLOCKS, INODES).expect("format");
    TmpFs::new(disk)
}

fn names(entries: &[ysos_core::storage::metadata::Metadata]) -> Vec<String> {
    entries.iter().map(|m| m.name.clone()).collect()
}

#[test]
fn format_writes_superblock_fields() {
    let fs = fresh_fs();
    let sb = &fs.handle.sb;
    assert_eq!(sb.magic(), TMPFS_MAGIC);
    assert_eq!(sb.version(), TMPFS_VERSION);
    assert_eq!(sb.block_size(), 512);
    assert_eq!(sb.total_blocks(), 4096);
    assert_eq!(sb.inode_count(), 256);
    assert_eq!(sb.bitmap_start(), 1);
    assert_eq!(sb.bitmap_blocks(), 1);
    assert_eq!(sb.inode_start(), 2);
    assert_eq!(sb.inode_blocks(), 16);
    assert_eq!(sb.data_start(), 18);
    assert_eq!(sb.data_blocks(), 4078);
    assert_eq!(sb.free_data_blocks(), 4078);
    assert_eq!(sb.next_free_inode(), 1);
}

#[test]
fn format_gives_empty_root() {
    let fs = fresh_fs();
    assert!(fs.read_dir("/").unwrap().is_empty());
    assert!(fs.read_dir("").unwrap().is_empty());
    let root = fs.handle.read_inode(0).unwrap();
    assert!(root.is_dir());
    assert_eq!(root.size(), 0);
    assert_eq!(root.links_count(), 1);
}

#[test]
fn format_refuses_device_too_small() {
    let mut disk = RamDisk::new(10);
    assert_eq!(TmpFs::<RamDisk>::format(&mut disk, 4096, 256), Err(FsError::InvalidOffset));
}

#[test]
fn create_write_read_link_scenario() {
    let mut fs = fresh_fs();
    fs.create_dir("/mydir").unwrap();
    let handle = fs.create_file("/mydir/hello.txt").unwrap();
    assert_eq!(handle.meta.name, "hello.txt");
    assert_eq!(handle.meta.entry_type, FileType::File);
    assert_eq!(handle.meta.len, 0);
    let text = b"Hello from YatSenOS! Student ID: 24353028";
    let mut file = handle.file;
    assert_eq!(file.write(&mut fs.handle, text), Ok(text.len()));

    let opened = fs.open_file("/mydir/hello.txt").unwrap();
    assert_eq!(opened.meta.name, "hello.txt");
    assert_eq!(opened.meta.len, text.len());
    let opened_inode = opened.file.inode_idx;
    let mut reader = opened.file;
    let mut buf = vec![0u8; 100];
    let n = reader.read(&fs.handle, &mut buf).unwrap();
    assert_eq!(&buf[..n], &text[..]);
    assert_eq!(reader.read(&fs.handle, &mut buf), Ok(0));

    assert_eq!(fs.metadata("/mydir/hello.txt").unwrap().links, 1);
    fs.link("/mydir/hello.txt", "/mydir/hello_link.txt").unwrap();
    let linked = fs.open_file("/mydir/hello_link.txt").unwrap();
    assert_eq!(linked.file.inode_idx, opened_inode);
    let mut link_reader = linked.file;
    let mut buf2 = vec![0u8; 100];
    let n2 = link_reader.read(&fs.handle, &mut buf2).unwrap();
    assert_eq!(&buf2[..n2], &text[..]);

    let hello_meta = fs.metadata("/mydir/hello.txt").unwrap();
    let link_meta = fs.metadata("/mydir/hello_link.txt").unwrap();
    assert_eq!(hello_meta.links, 2);
    assert_eq!(link_meta.links, 2);
    assert_eq!(hello_meta.len, text.len());

    let listing = fs.read_dir("/mydir").unwrap();
    assert_eq!(names(&listing), vec!["hello.txt".to_string(), "hello_link.txt".to_string()]);
    let root_listing = fs.read_dir("/").unwrap();
    assert_eq!(names(&root_listing), vec!["mydir".to_string()]);
    assert_eq!(root_listing[0].entry_type, FileType::Directory);
}

#[test]
fn exists_and_errors() {
    let mut fs = fresh_fs();
    fs.create_dir("/d").unwrap();
    fs.create_file("/d/f").unwrap();
    assert_eq!(fs.path_exists("/d/f"), Ok(true));
    assert_eq!(fs.path_exists("/d/g"), Ok(false));
    assert_eq!(fs.path_exists("/"), Ok(true));
    assert_eq!(fs.path_exists("/d/f/x"), Err(FsError::NotADirectory));
    assert!(matches!(fs.open_file("/nope"), Err(FsError::FileNotFound)));
    assert!(matches!(fs.open_file("/d"), Err(FsError::NotAFile)));
    assert!(matches!(fs.read_dir("/d/f"), Err(FsError::NotADirectory)));
    match fs.create_file("/") {
        Err(FsError::InvalidPath(p)) => assert_eq!(p, "/"),
        _ => panic!("expected an invalid path"),
    }
    assert_eq!(fs.create_dir("//"), Err(FsError::InvalidPath("//".to_string())));
    assert_eq!(fs.link("/d", "/d/x"), Err(FsError::NotAFile));
    assert_eq!(fs.link("/d/f", "/"), Err(FsError::InvalidPath("/".to_string())));
    assert_eq!(fs.link("/missing", "/d/x"), Err(FsError::FileNotFound));
}

#[test]
fn metadata_of_root_and_dirs() {
    let mut fs = fresh_fs();
    let root = fs.metadata("/").unwrap();
    assert_eq!(root.name, "/");
    assert_eq!(root.entry_type, FileType::Directory);
    assert_eq!(root.len, 0);
    assert_eq!(root.links, 1);
    assert_eq!(fs.metadata("").unwrap().name, "/");
    fs.create_dir("/a").unwrap();
    let a = fs.metadata("/a").unwrap();
    assert_eq!(a.name, "a");
    assert_eq!(a.entry_type, FileType::Directory);
    assert_eq!(a.links, 1);
    assert_eq!(fs.metadata("/a/").unwrap().name, "");
    assert!(matches!(fs.metadata("/b"), Err(FsError::FileNotFound)));
}

#[test]
fn paths_ignore_repeated_separators() {
    let mut fs = fresh_fs();
    fs.create_dir("//x//").unwrap();
    fs.create_file("/x///y").unwrap();
    assert_eq!(fs.path_exists("x/y"), Ok(true));
    let listing = fs.read_dir("/x/").unwrap();
    assert_eq!(names(&listing), vec!["y".to_string()]);
}

#[test]
fn many_files_spill_into_a_second_directory_block() {
    let mut fs = fresh_fs();
    for i in 0..20 {
        fs.create_file(&format!("/f{}", i)).unwrap();
    }
    let listing = fs.read_dir("/").unwrap();
    assert_eq!(listing.len(), 20);
    assert_eq!(listing[0].name, "f0");
    assert_eq!(listing[19].name, "f19");
    let root = fs.handle.read_inode(0).unwrap();
    assert_eq!(root.size(), 20 * 32);
    assert_ne!(root.direct_block(1), 0);
    assert_eq!(fs.path_exists("/f17"), Ok(true));
}

#[test]
fn file_write_spans_blocks_and_seek() {
    let mut fs = fresh_fs();
    let h = fs.create_file("/big").unwrap();
    let mut f = h.file;
    let data: Vec<u8> = (0..1300u32).map(|i| (i % 251) as u8).collect();
    assert_eq!(f.write(&mut fs.handle, &data), Ok(1300));
    assert_eq!(f.length(&fs.handle), 1300);
    assert_eq!(f.seek(&fs.handle, SeekFrom::Start(600)), Ok(600));
    let mut buf = vec![0u8; 10];
    assert_eq!(f.read(&fs.handle, &mut buf), Ok(10));
    assert_eq!(&buf[..], &data[600..610]);
    assert_eq!(f.seek(&fs.handle, SeekFrom::End(-100)), Ok(1200));
    assert_eq!(f.seek(&fs.handle, SeekFrom::Current(50)), Ok(1250));
    let mut rest = vec![0u8; 100];
    assert_eq!(f.read(&fs.handle, &mut rest), Ok(50));
    assert_eq!(&rest[..50], &data[1250..1300]);
    assert_eq!(f.seek(&fs.handle, SeekFrom::Current(-2000)), Ok((1300isize - 2000) as usize));
    f.seek(&fs.handle, SeekFrom::Start(0)).unwrap();
    assert_eq!(f.write(&mut fs.handle, b"ab"), Ok(2));
    assert_eq!(f.length(&fs.handle), 1300);
    let mut head = vec![0u8; 3];
    f.seek(&fs.handle, SeekFrom::Start(0)).unwrap();
    f.read(&fs.handle, &mut head).unwrap();
    assert_eq!(&head[..], &[b'a', b'b', data[2]]);
}

#[test]
fn write_stops_after_ten_blocks() {
    let mut fs = fresh_fs();
    let h = fs.create_file("/huge").unwrap();
    let mut f = h.file;
    let data = vec![7u8; 512 * 11];
    assert_eq!(f.write(&mut fs.handle, &data), Ok(5120));
    assert_eq!(f.length(&fs.handle), 5120);
    assert_eq!(f.write(&mut fs.handle, b"more"), Ok(0));
}

#[test]
fn superblock_new_checks_magic_version_and_length() {
    let mut raw = vec![0u8; 512];
    assert_eq!(Superblock::new(&raw).err(), Some(FsError::InvalidOperation));
    raw[0..4].copy_from_slice(&TMPFS_MAGIC.to_le_bytes());
    raw[4..8].copy_from_slice(&TMPFS_VERSION.to_le_bytes());
    raw[12..16].copy_from_slice(&77u32.to_le_bytes());
    let sb = Superblock::new(&raw).unwrap();
    assert_eq!(sb.total_blocks(), 77);
    assert_eq!(Superblock::new(&raw[..100]).err(), Some(FsError::InvalidOperation));
    raw[4] = 2;
    assert_eq!(Superblock::new(&raw).err(), Some(FsError::InvalidOperation));
}

#[test]
fn superblock_setters_touch_only_their_field() {
    let mut sb = Superblock::empty();
    sb.set_magic(1);
    sb.set_version(2);
    sb.set_block_size(3);
    sb.set_total_blocks(4);
    sb.set_inode_count(5);
    sb.set_bitmap_start(6);
    sb.set_bitmap_blocks(7);
    sb.set_inode_start(8);
    sb.set_inode_blocks(9);
    sb.set_data_start(10);
    sb.set_data_blocks(11);
    sb.set_free_data_blocks(12);
    sb.set_next_free_inode(0xdead_beef);
    assert_eq!(
        [
            sb.magic(),
            sb.version(),
            sb.block_size(),
            sb.total_blocks(),
            sb.inode_count(),
            sb.bitmap_start(),
            sb.bitmap_blocks(),
            sb.inode_start(),
            sb.inode_blocks(),
            sb.data_start(),
            sb.data_blocks(),
            sb.free_data_blocks(),
            sb.next_free_inode()
        ],
        [1, 2, 3, 4, 5, 6, 7, 8, 9, 10, 11, 12, 0xdead_beef]
    );
    assert_eq!(&sb.data[48..52], &[0xef, 0xbe, 0xad, 0xde]);
    assert!(sb.data[52..].iter().all(|b| *b == 0));
}

#[test]
fn inode_fields() {
    let mut i = InodeData::free();
    assert!(i.is_free());
    i.set_type(1);
    assert!(i.is_file());
    i.set_size(0x0102_0304);
    assert_eq!(i.size(), 0x0102_0304);
    assert_eq!(&i.data[1..5], &[4, 3, 2, 1]);
    i.set_direct_block(9, 0xabcd);
    assert_eq!(i.direct_block(9), 0xabcd);
    assert_eq!(i.direct_block(10), 0);
    i.set_direct_block(10, 5);
    assert_eq!(i.direct_block(8), 0);
    i.set_links_count(3);
    assert_eq!(i.links_count(), 3);
    assert_eq!(i.type_(), 1);
    let d = InodeData::new_dir();
    assert!(d.is_dir());
    assert_eq!(d.links_count(), 1);
    let f = InodeData::new_file();
    assert!(f.is_file());
    assert_eq!(f.links_count(), 1);
}

#[test]
fn direntry_roundtrip_and_truncation() {
    let e = DirEntryData::new("hello.txt", 42);
    assert_eq!(e.name(), "hello.txt");
    assert_eq!(e.inode(), 42);
    assert!(!e.is_empty());
    let long = DirEntryData::new("abcdefghijklmnopqrstuvwxyz0123", 7);
    assert_eq!(long.name(), "abcdefghijklmnopqrstuvwxyz0");
    assert!(DirEntryData::empty().is_empty());
    assert_eq!(DirEntryData::empty().name(), "");
}

#[test]
fn allocate_then_free_restores_bitmap() {
    let fs = fresh_fs();
    let mut imp: TmpFsImpl<RamDisk> = fs.handle;
    let mut before = Block512::zeroed();
    imp.inner.read_block(1, &mut before).unwrap();
    let a = imp.allocate_data_block().unwrap();
    let b = imp.allocate_data_block().unwrap();
    assert_eq!((a, b), (1, 2));
    imp.free_data_block(b).unwrap();
    imp.free_data_block(a).unwrap();
    let mut after = Block512::zeroed();
    imp.inner.read_block(1, &mut after).unwrap();
    assert_eq!(before.data, after.data);
    assert_eq!(imp.free_data_block(0), Ok(()));
}

#[test]
fn allocate_inode_skips_used_ones() {
    let mut fs = fresh_fs();
    assert_eq!(fs.handle.allocate_inode(), Ok(1));
    fs.create_file("/a").unwrap();
    assert_eq!(fs.handle.allocate_inode(), Ok(2));
    assert_eq!(fs.handle.read_inode(300).err(), Some(FsError::InvalidOffset));
}

#[test]
fn write_inode_then_read_inode() {
    let mut fs = fresh_fs();
    let mut i = InodeData::new_file();
    i.set_size(99);
    fs.handle.write_inode(5, &i).unwrap();
    assert_eq!(fs.handle.read_inode(5).unwrap().data, i.data);
    assert!(fs.handle.read_inode(4).unwrap().is_free());
    assert_eq!(fs.handle.find_dir_entry(0, "x"), Err(FsError::FileNotFound));
}

#[test]
fn ramdisk_read_write() {
    let mut d = RamDisk::new(9);
    assert_eq!(d.block_count(), Ok(9));
    let mut b = Block512::zeroed();
    b.data[0] = 9;
    b.data[511] = 8;
    d.write_block(8, &b).unwrap();
    let mut r = Block512::zeroed();
    d.read_block(8, &mut r).unwrap();
    assert_eq!(r.data, b.data);
    assert_eq!(d.read_block(9, &mut r), Err(FsError::InvalidOffset));
    assert_eq!(d.write_block(9, &b), Err(FsError::InvalidOffset));
    let mut z = Block512::zeroed();
    d.read_block(7, &mut z).unwrap();
    assert!(z.data.iter().all(|x| *x == 0));
}

#[test]
fn tmpfile_length_of_unreadable_inode_is_zero() {
    let fs = fresh_fs();
    let f = TmpFile::new(1000);
    assert_eq!(f.length(&fs.handle), 0);
}

#[test]
fn overwrite_reads_back_and_root_link_resolves() {
    let mut fs = fresh_fs();
    let h = fs.create_file("/a.txt").unwrap();
    let inode = h.file.inode_idx;
    let mut f = h.file;
    let data: Vec<u8> = (0..700u32).map(|i| (i % 251) as u8).collect();
    assert_eq!(f.write(&mut fs.handle, &data), Ok(700));
    let mut g = fs.open_file("/a.txt").unwrap().file;
    assert_eq!(g.seek(&fs.handle, SeekFrom::Start(510)), Ok(510));
    assert_eq!(g.write(&mut fs.handle, b"WXYZ"), Ok(4));
    let mut r = fs.open_file("/a.txt").unwrap().file;
    assert_eq!(r.seek(&fs.handle, SeekFrom::Start(508)), Ok(508));
    let mut buf = [0u8; 8];
    assert_eq!(r.read(&fs.handle, &mut buf), Ok(8));
    assert_eq!(&buf, &[data[508], data[509], b'W', b'X', b'Y', b'Z', data[514], data[515]]);
    fs.link("/a.txt", "/b.txt").unwrap();
    let b = fs.open_file("/b.txt").unwrap();
    assert_eq!(b.file.inode_idx, inode);
    assert_eq!(b.meta.len, 700);
    assert_eq!(fs.metadata("/a.txt").unwrap().links, 2);
}

#[test]
fn data_blocks_stay_inside_the_device() {
    let mut disk = RamDisk::new(32);
    TmpFs::<RamDisk>::format(&mut disk, 32, 16).unwrap();
    let mut imp: TmpFsImpl<RamDisk> = TmpFs::new(disk).handle;
    let start = imp.sb.data_start();
    let total = imp.sb.total_blocks();
    let n = imp.sb.data_blocks();
    let mut got: Vec<u16> = Vec::new();
    loop {
        match imp.allocate_data_block() {
            Ok(rel) => {
                assert!(rel >= 1);
                assert!(start + (rel as u32) < total);
                got.push(rel);
            }
            Err(e) => {
                assert_eq!(e, FsError::NotSupported);
                break;
            }
        }
    }
    assert_eq!(got.last().copied(), Some((n - 1) as u16));
    assert_eq!(imp.allocate_data_block(), Err(FsError::NotSupported));
}

#[test]
fn nested_paths_survive_writes_and_links() {
    let mut fs = fresh_fs();
    fs.create_dir("/a").unwrap();
    fs.create_dir("/a/b").unwrap();
    fs.create_dir("/c").unwrap();
    let h = fs.create_file("/a/b/f.txt").unwrap();
    let data: Vec<u8> = (0..1300u32).map(|i| (i % 251) as u8).collect();
    let mut file = h.file;
    assert_eq!(file.write(&mut fs.handle, &data), Ok(data.len()));
    assert_eq!(fs.metadata("/a/b/f.txt").unwrap().len, data.len());
    fs.link("/a/b/f.txt", "/c/g.txt").unwrap();
    for path in ["/a/b/f.txt", "/c/g.txt"] {
        let opened = fs.open_file(path).unwrap();
        let mut reader = opened.file;
        let mut buf = vec![0u8; 2000];
        let n = reader.read(&fs.handle, &mut buf).unwrap();
        assert_eq!(&buf[..n], &data[..]);
        assert_eq!(fs.metadata(path).unwrap().links, 2);
    }
    assert_eq!(fs.path_exists("/a/b"), Ok(true));
    assert_eq!(fs.path_exists("/c/none"), Ok(false));
}

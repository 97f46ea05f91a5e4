use ysos_core::drivers::cache::{create_cached_device, LruCacheManager};
use ysos_core::drivers::filesystem::VirtualFileSystem;
use ysos_core::drivers::mounted::MountedFs;
use ysos_core::storage::block::{Block512, BlockDevice};
use ysos_core::storage::cache::{cache_stats, CacheBlock, CacheManager, CachedDevice};
use ysos_core::storage::error::FsError;
use ysos_core::storage::metadata::FileType;
use ysos_core::storage::ramdisk::RamDisk;
use ysos_core::storage::tmpfs::fs::TmpFs;

fn fresh_fs(blocks: usize) -> MountedFs<RamDisk> {
    let mut disk = RamDisk::new(blocks);
    TmpFs::<RamDisk>::format(&mut disk, blocks, 256).expect("format");
    MountedFs::Tmp(TmpFs::new(disk))
}

fn block_of(v: u8) -> Block512 {
    let mut b = Block512::zeroed();
    b.data[0] = v;
    b.data[511] = v;
    b
}

#[test]
fn vfs_init_scenario() {
    let mut vfs = VirtualFileSystem::new();
    vfs.mount(fresh_fs(4096), "/tmp");
    vfs.create_dir("/tmp/mydir").unwrap();
    let handle = vfs.create_file("/tmp/mydir/hello.txt").unwrap();
    let text = b"Hello from YatSenOS! Student ID: 24353028";
    let mut file = handle.file;
    let i = vfs.find_mount("/tmp/mydir/hello.txt").unwrap();
    match &mut vfs.mounts[i].fs {
        MountedFs::Tmp(t) => assert_eq!(file.write(&mut t.handle, text), Ok(text.len())),
        MountedFs::Fat(_) => panic!("/tmp holds a TmpFS"),
    }
    assert_eq!(vfs.read_file("/tmp/mydir/hello.txt"), Some(text.to_vec()));
    vfs.link("/tmp/mydir/hello.txt", "/tmp/mydir/hello_link.txt").unwrap();
    assert_eq!(vfs.read_file("/tmp/mydir/hello_link.txt"), Some(text.to_vec()));
    assert_eq!(vfs.metadata("/tmp/mydir/hello.txt").unwrap().links, 2);
    assert_eq!(vfs.metadata("/tmp/mydir/hello_link.txt").unwrap().links, 2);
}

#[test]
fn vfs_root_lists_mount_points() {
    let mut vfs = VirtualFileSystem::new();
    vfs.mount(fresh_fs(512), "/boot");
    vfs.mount(fresh_fs(512), "/tmp/");
    let listing = vfs.read_dir("/").unwrap();
    let names: Vec<String> = listing.iter().map(|m| m.name.clone()).collect();
    assert_eq!(names, vec!["boot".to_string(), "tmp".to_string()]);
    assert!(listing.iter().all(|m| m.entry_type == FileType::Directory && m.len == 0));
    assert_eq!(vfs.metadata("/").unwrap().name, "/");
    assert_eq!(vfs.path_exists(""), Ok(true));
}

#[test]
fn vfs_root_mount_adds_its_entries() {
    let mut vfs = VirtualFileSystem::new();
    vfs.mount(fresh_fs(512), "/");
    vfs.create_file("/a").unwrap();
    let names: Vec<String> = vfs.read_dir("/").unwrap().iter().map(|m| m.name.clone()).collect();
    assert_eq!(names, vec!["a".to_string()]);
}

#[test]
fn vfs_longest_prefix_wins() {
    let mut vfs = VirtualFileSystem::new();
    vfs.mount(fresh_fs(512), "/");
    vfs.mount(fresh_fs(512), "/tmp");
    vfs.mount(fresh_fs(512), "/tmp/inner");
    assert_eq!(vfs.find_mount("/tmp/inner/x"), Some(2));
    assert_eq!(vfs.find_mount("/tmp/x"), Some(1));
    assert_eq!(vfs.find_mount("/etc"), Some(0));
    let mut empty: VirtualFileSystem<RamDisk> = VirtualFileSystem::new();
    assert_eq!(empty.find_mount("/x"), None);
    assert!(matches!(empty.open_file("/x"), Err(FsError::FileNotFound)));
    assert_eq!(empty.create_dir("/x"), Err(FsError::FileNotFound));
    assert_eq!(empty.read_file("/x"), None);
}

#[test]
fn vfs_errors_pass_through() {
    let mut vfs = VirtualFileSystem::new();
    vfs.mount(fresh_fs(512), "/tmp");
    assert!(matches!(vfs.open_file("/tmp/none"), Err(FsError::FileNotFound)));
    assert_eq!(vfs.path_exists("/tmp/none"), Ok(false));
    assert_eq!(vfs.path_exists("/other"), Err(FsError::FileNotFound));
    assert!(matches!(vfs.read_dir("/other"), Err(FsError::FileNotFound)));
}

#[test]
fn cached_reads_see_cached_writes() {
    let mut dev = create_cached_device(RamDisk::new(8), 2);
    assert_eq!(dev.block_count(), Ok(8));
    dev.write_block(3, &block_of(3)).unwrap();
    let mut b = Block512::zeroed();
    dev.read_block(3, &mut b).unwrap();
    assert_eq!(b.data, block_of(3).data);
    let mut raw = Block512::zeroed();
    dev.device.read_block(3, &mut raw).unwrap();
    assert_eq!(raw.data[0], 0);
    assert_eq!(dev.read_block(8, &mut b), Err(FsError::InvalidOffset));
}

#[test]
fn blocks_past_the_end_stay_in_the_cache_only() {
    let mut dev = create_cached_device(RamDisk::new(4), 1);
    assert_eq!(dev.write_block(9, &block_of(9)), Ok(()));
    let mut b = Block512::zeroed();
    assert_eq!(dev.read_block(9, &mut b), Ok(()));
    assert_eq!(b.data, block_of(9).data);
    assert_eq!(dev.read_block(10, &mut b), Err(FsError::InvalidOffset));
    // Pushing it out loses it: the device refuses the write-back.
    dev.write_block(1, &block_of(1)).unwrap();
    assert_eq!(dev.read_block(9, &mut b), Err(FsError::InvalidOffset));
    dev.flush();
    let mut raw = Block512::zeroed();
    dev.device.read_block(1, &mut raw).unwrap();
    assert_eq!(raw.data, block_of(1).data);
}

#[test]
fn eviction_writes_dirty_blocks_back() {
    let mut dev = create_cached_device(RamDisk::new(8), 2);
    dev.write_block(1, &block_of(1)).unwrap();
    dev.write_block(2, &block_of(2)).unwrap();
    assert_eq!(cache_stats(&dev), (2, 2, 2));
    dev.write_block(3, &block_of(3)).unwrap();
    let mut raw = Block512::zeroed();
    dev.device.read_block(1, &mut raw).unwrap();
    assert_eq!(raw.data, block_of(1).data);
    assert_eq!(cache_stats(&dev), (2, 2, 2));
    let mut b = Block512::zeroed();
    dev.read_block(1, &mut b).unwrap();
    assert_eq!(b.data, block_of(1).data);
    assert_eq!(cache_stats(&dev), (2, 2, 1));
}

#[test]
fn flush_leaves_everything_on_the_device() {
    let mut dev = create_cached_device(RamDisk::new(8), 4);
    for i in 0..4u8 {
        dev.write_block(i as usize, &block_of(i + 10)).unwrap();
    }
    dev.flush();
    assert_eq!(cache_stats(&dev), (4, 0, 0));
    for i in 0..4u8 {
        let mut raw = Block512::zeroed();
        dev.device.read_block(i as usize, &mut raw).unwrap();
        assert_eq!(raw.data, block_of(i + 10).data);
    }
}

#[test]
fn lru_manager_replaces_and_evicts_least_recent() {
    let mut m = LruCacheManager::new(2);
    assert_eq!(m.capacity(), 2);
    assert!(m.insert(CacheBlock::new(block_of(1), 1)).is_none());
    assert!(m.insert(CacheBlock::new(block_of(2), 2)).is_none());
    assert_eq!(m.read(1).map(|b| b.data[0]), Some(1));
    let evicted = m.insert(CacheBlock::new_dirty(block_of(3), 3)).unwrap();
    assert_eq!(evicted.offset, 2);
    let replaced = m.insert(CacheBlock::new(block_of(9), 3)).unwrap();
    assert_eq!(replaced.offset, 3);
    assert!(replaced.dirty);
    assert_eq!(m.len(), 2);
    assert_eq!(m.dirty_count(), 0);
    assert!(m.read(2).is_none());
    let zero = LruCacheManager::new(0);
    assert_eq!(zero.capacity(), 0);
}

#[test]
fn lru_manager_evicts_in_recency_order() {
    let mut m = LruCacheManager::new(3);
    for k in 1..=3 {
        assert!(m.insert(CacheBlock::new(block_of(k as u8), k)).is_none());
    }
    // Reading 1 and replacing 2 leave 3 as the least recently used.
    assert!(m.read(1).is_some());
    assert_eq!(m.insert(CacheBlock::new(block_of(20), 2)).map(|b| b.offset), Some(2));
    assert_eq!(m.insert(CacheBlock::new(block_of(4), 4)).map(|b| b.offset), Some(3));
    assert_eq!(m.insert(CacheBlock::new(block_of(5), 5)).map(|b| b.offset), Some(1));
    assert_eq!(m.insert(CacheBlock::new(block_of(6), 6)).map(|b| b.offset), Some(2));
    assert_eq!(m.len(), 3);
    // A read that misses changes nothing.
    assert!(m.read(1).is_none());
    assert_eq!(m.insert(CacheBlock::new(block_of(7), 7)).map(|b| b.offset), Some(4));
}

#[test]
fn cache_block_flags() {
    let mut b = CacheBlock::new(block_of(5), 5);
    assert!(!b.dirty);
    b.mark_dirty();
    assert!(b.dirty);
    b.mark_clean();
    assert!(!b.dirty);
    assert!(CacheBlock::new_dirty(block_of(1), 1).dirty);
}

#[test]
fn tmpfs_works_over_a_flushed_cache() {
    let mut dev = create_cached_device(RamDisk::new(64), 4);
    let mut b = Block512::zeroed();
    b.data[0] = 0x46;
    dev.write_block(0, &b).unwrap();
    dev.flush();
    let _ = CachedDevice::new(LruCacheManager::new(1), dev.device);
}

#[test]
fn vfs_operations_no_file_system_supports() {
    let mut vfs = VirtualFileSystem::new();
    vfs.mount(fresh_fs(512), "/tmp");
    vfs.create_file("/tmp/a").unwrap();
    assert!(matches!(vfs.append_file("/tmp/a"), Err(FsError::NotSupported)));
    assert!(matches!(vfs.remove_file("/tmp/a"), Err(FsError::NotSupported)));
    assert!(matches!(vfs.remove_dir("/tmp"), Err(FsError::NotSupported)));
    assert_eq!(vfs.copy_file("/tmp/a", "/tmp/b"), Err(FsError::NotSupported));
    assert_eq!(vfs.move_file("/tmp/a", "/tmp/b"), Err(FsError::NotSupported));
    assert_eq!(vfs.move_dir("/tmp", "/tmp2"), Err(FsError::NotSupported));
    assert!(matches!(vfs.append_file("/other/a"), Err(FsError::FileNotFound)));
    assert_eq!(vfs.copy_file("/other/a", "/tmp/b"), Err(FsError::FileNotFound));
    assert_eq!(vfs.path_exists("/tmp/a"), Ok(true));
}

#[test]
fn read_misses_keep_clean_copies() {
    let mut dev = create_cached_device(RamDisk::new(8), 2);
    let mut b = Block512::zeroed();
    dev.read_block(1, &mut b).unwrap();
    assert_eq!(cache_stats(&dev), (2, 1, 0));
    dev.read_block(2, &mut b).unwrap();
    dev.read_block(1, &mut b).unwrap();
    assert_eq!(cache_stats(&dev), (2, 2, 0));
    dev.write_block(3, &block_of(3)).unwrap();
    assert_eq!(cache_stats(&dev), (2, 2, 1));
    // The write went to the cache only; block 2 was pushed out.
    let mut raw = Block512::zeroed();
    dev.device.read_block(3, &mut raw).unwrap();
    assert_eq!(raw.data[0], 0);
    assert!(dev.cache.read(2).is_none());
    assert!(dev.cache.read(1).is_some());
}

//! A write-back block cache in front of a block device.
use vstd::prelude::*;

use crate::storage::block::{Block512, BlockDevice};
use crate::storage::error::{FsError, FsResult};

verus! {

/// A cached copy of block `offset`; `dirty` when it differs from what the
/// device holds and must be written back before it leaves the cache.
pub struct CacheBlock {
    pub data: Block512,
    pub dirty: bool,
    pub offset: usize,
}

impl CacheBlock {
    /// A clean copy of block `offset`.
    pub fn new(data: Block512, offset: usize) -> (r: Self)
        ensures
            r.data == data,
            r.offset == offset,
            !r.dirty,
    {
        CacheBlock { data, dirty: false, offset }
    }

    /// A copy of block `offset` that the device does not hold yet.
    pub fn new_dirty(data: Block512, offset: usize) -> (r: Self)
        ensures
            r.data == data,
            r.offset == offset,
            r.dirty,
    {
        CacheBlock { data, dirty: true, offset }
    }

    pub fn mark_dirty(&mut self)
        ensures
            *final(self) == (CacheBlock { dirty: true, ..*old(self) }),
    {
        self.dirty = true;
    }

    pub fn mark_clean(&mut self)
        ensures
            *final(self) == (CacheBlock { dirty: false, ..*old(self) }),
    {
        self.dirty = false;
    }
}

/// A store of cached blocks, found by block number.
///
/// `entries()` are the cached blocks by number. Inserting a block may push
/// another one out, which is handed back so that it can be written back.
pub trait CacheManager {
    spec fn entries(&self) -> Map<usize, CacheBlock>;

    /// The store's own consistency condition, kept by every operation.
    spec fn inv(&self) -> bool;

    spec fn spec_capacity(&self) -> nat;

    spec fn spec_len(&self) -> nat;

    spec fn spec_dirty_count(&self) -> nat;

    /// A consistent store holds finitely many blocks.
    proof fn lemma_entries_finite(&self)
        requires
            self.inv(),
        ensures
            self.entries().dom().finite(),
    ;

    /// The data of the cached copy of block `offset`, if there is one.
    fn read(&mut self, offset: usize) -> (r: Option<Block512>)
        requires
            old(self).inv(),
        ensures
            final(self).inv(),
            final(self).entries() == old(self).entries(),
            final(self).spec_capacity() == old(self).spec_capacity(),
            r is Some <==> old(self).entries().contains_key(offset),
            r matches Some(b) ==> b == old(self).entries()[offset].data,
    ;

    /// Caches `block` under its number. Where another block has to leave
    /// the store (the one replaced, or one pushed out for room), it is
    /// returned.
    fn insert(&mut self, block: CacheBlock) -> (r: Option<CacheBlock>)
        requires
            old(self).inv(),
        ensures
            final(self).inv(),
            final(self).spec_capacity() == old(self).spec_capacity(),
            match r {
                None => final(self).entries() == old(self).entries().insert(block.offset, block),
                Some(e) => old(self).entries().contains_key(e.offset) && old(self).entries()[e.offset]
                    == e && final(self).entries() == old(self).entries().remove(e.offset).insert(
                    block.offset,
                    block,
                ),
            },
    ;

    /// Takes some block out of the store, or `None` when it is empty.
    fn take_one(&mut self) -> (r: Option<CacheBlock>)
        requires
            old(self).inv(),
        ensures
            final(self).inv(),
            final(self).spec_capacity() == old(self).spec_capacity(),
            match r {
                None => old(self).entries().dom().is_empty() && final(self).entries() == old(self).entries(),
                Some(e) => old(self).entries().contains_key(e.offset) && old(self).entries()[e.offset]
                    == e && final(self).entries() == old(self).entries().remove(e.offset),
            },
    ;

    fn capacity(&self) -> (r: usize)
        requires
            self.inv(),
        ensures
            r == self.spec_capacity(),
    ;

    fn len(&self) -> (r: usize)
        requires
            self.inv(),
        ensures
            r == self.spec_len(),
    ;

    fn dirty_count(&self) -> (r: usize)
        requires
            self.inv(),
        ensures
            r == self.spec_dirty_count(),
    ;
}

/// A block device seen through a write-back cache.
///
/// Reads are served from the cache where the block is there, and otherwise
/// from the device, keeping a clean copy. Writes go to the cache as dirty
/// blocks; a dirty block reaches the device when it leaves the cache.
pub struct CachedDevice<C: CacheManager, D: BlockDevice> {
    pub cache: C,
    pub device: D,
}

/// The cache agrees with `device`: each block is cached under its own
/// number, and a clean copy is one of a block of the device and holds what
/// the device does.
pub open spec fn cache_consistent(entries: Map<usize, CacheBlock>, device: Seq<Seq<u8>>) -> bool {
    forall|k: usize|
        #![trigger entries[k]]
        entries.contains_key(k) ==> {
            &&& entries[k].offset == k
            &&& !entries[k].dirty ==> k < device.len() && entries[k].data.data@ == device[k as int]
        }
}

/// What reading through the cache gives: the cached copy where there is
/// one, the device's block otherwise.
pub open spec fn cached_view(entries: Map<usize, CacheBlock>, device: Seq<Seq<u8>>) -> Seq<Seq<u8>> {
    Seq::new(
        device.len(),
        |i: int|
            if entries.contains_key(i as usize) {
                entries[i as usize].data.data@
            } else {
                device[i]
            },
    )
}

/// Caching `b` took the cached blocks from `before` to `after`, pushing out
/// `ev` where that is a block.
pub open spec fn cache_put(before: Map<usize, CacheBlock>, b: CacheBlock, ev: Option<CacheBlock>, after: Map<
    usize,
    CacheBlock,
>) -> bool {
    match ev {
        None => after == before.insert(b.offset, b),
        Some(e) => before.contains_key(e.offset) && before[e.offset] == e && after == before.remove(e.offset).insert(
            b.offset,
            b,
        ),
    }
}

/// The device's blocks after a block pushed out of the cache, `ev`, is
/// written back: only a dirty block within the device is.
pub open spec fn written_back(dev: Seq<Seq<u8>>, ev: Option<CacheBlock>) -> Seq<Seq<u8>> {
    match ev {
        Some(e) => if e.dirty && e.offset < dev.len() {
            dev.update(e.offset as int, e.data.data@)
        } else {
            dev
        },
        None => dev,
    }
}

/// A block leaving a consistent cache, written back where it is dirty,
/// leaves the cache consistent and the view unchanged.
proof fn lemma_evict(entries: Map<usize, CacheBlock>, dev: Seq<Seq<u8>>, e: CacheBlock, dev1: Seq<Seq<u8>>)
    requires
        cache_consistent(entries, dev),
        dev.len() <= usize::MAX,
        entries.contains_key(e.offset),
        entries[e.offset] == e,
        dev1 == if e.dirty && e.offset < dev.len() {
            dev.update(e.offset as int, e.data.data@)
        } else {
            dev
        },
    ensures
        cache_consistent(entries.remove(e.offset), dev1),
        cached_view(entries.remove(e.offset), dev1) == cached_view(entries, dev),
{
    let e1 = entries.remove(e.offset);
    assert forall|k: usize| #[trigger] e1.contains_key(k) implies {
        &&& e1[k].offset == k
        &&& !e1[k].dirty ==> k < dev1.len() && e1[k].data.data@ == dev1[k as int]
    } by {
        assert(entries.contains_key(k) && entries[k] == e1[k]);
    }
    assert forall|i: int| 0 <= i < dev.len() implies #[trigger] cached_view(e1, dev1)[i] == cached_view(
        entries,
        dev,
    )[i] by {
        let k = i as usize;
        assert(k as int == i);
        if entries.contains_key(k) {
            assert(entries[k].offset == k);
        }
    }
    assert(cached_view(e1, dev1) =~= cached_view(entries, dev));
}

/// Caching `b` (clean only as a copy of a block of the device) in a
/// consistent cache keeps it consistent and shows `b`'s data at its number,
/// where that is a block of the device.
proof fn lemma_cache_put(entries: Map<usize, CacheBlock>, dev: Seq<Seq<u8>>, b: CacheBlock)
    requires
        cache_consistent(entries, dev),
        dev.len() <= usize::MAX,
        !b.dirty ==> b.offset < dev.len() && b.data.data@ == dev[b.offset as int],
    ensures
        cache_consistent(entries.insert(b.offset, b), dev),
        cached_view(entries.insert(b.offset, b), dev) == if b.offset < dev.len() {
            cached_view(entries, dev).update(b.offset as int, b.data.data@)
        } else {
            cached_view(entries, dev)
        },
{
    let e1 = entries.insert(b.offset, b);
    assert forall|k: usize| #[trigger] e1.contains_key(k) implies {
        &&& e1[k].offset == k
        &&& !e1[k].dirty ==> k < dev.len() && e1[k].data.data@ == dev[k as int]
    } by {
        if k != b.offset {
            assert(entries.contains_key(k) && entries[k] == e1[k]);
        }
    }
    if b.offset < dev.len() {
        assert forall|i: int| 0 <= i < dev.len() implies #[trigger] cached_view(e1, dev)[i] == cached_view(
            entries,
            dev,
        ).update(b.offset as int, b.data.data@)[i] by {
            let k = i as usize;
            assert(k as int == i);
        }
        assert(cached_view(e1, dev) =~= cached_view(entries, dev).update(b.offset as int, b.data.data@));
    } else {
        assert forall|i: int| 0 <= i < dev.len() implies #[trigger] cached_view(e1, dev)[i] == cached_view(
            entries,
            dev,
        )[i] by {
            let k = i as usize;
            assert(k as int == i);
            assert(k != b.offset);
        }
        assert(cached_view(e1, dev) =~= cached_view(entries, dev));
    }
}

impl<C: CacheManager, D: BlockDevice> CachedDevice<C, D> {
    pub open spec fn inv(&self) -> bool {
        &&& self.cache.inv()
        &&& self.device.inv()
        &&& self.cache.entries().dom().finite()
        &&& self.device.blocks().len() <= usize::MAX
    }

    /// The cache agrees with the device (see `cache_consistent`): then
    /// reading through the cache is reading a device whose blocks are
    /// `blocks()`.
    pub open spec fn consistent(&self) -> bool {
        cache_consistent(self.cache.entries(), self.device.blocks())
    }

    /// The blocks as reading through the cache gives them.
    pub open spec fn blocks(&self) -> Seq<Seq<u8>> {
        cached_view(self.cache.entries(), self.device.blocks())
    }

    /// What reading block `offset` gives: the cached copy where there is
    /// one, the device's block otherwise, and nothing past the device's end.
    pub open spec fn cached_at(&self, offset: usize) -> Option<Seq<u8>> {
        if self.cache.entries().contains_key(offset) {
            Some(self.cache.entries()[offset].data.data@)
        } else if offset < self.device.blocks().len() {
            Some(self.device.blocks()[offset as int])
        } else {
            None
        }
    }

    /// Puts `cache` in front of `device`.
    pub fn new(cache: C, device: D) -> (r: Self)
        requires
            cache.inv(),
            device.inv(),
            device.blocks().len() <= usize::MAX,
        ensures
            r.inv(),
            r.cache == cache,
            r.device == device,
            r.blocks() == cached_view(cache.entries(), device.blocks()),
    {
        proof {
            cache.lemma_entries_finite();
        }
        CachedDevice { cache, device }
    }

    pub fn block_count(&self) -> (r: FsResult<usize>)
        requires
            self.inv(),
        ensures
            r matches Ok(n) && n == self.blocks().len(),
    {
        self.device.block_count()
    }

    /// Writes a block that left the cache back to the device, where it is
    /// dirty.
    /// A dirty block past the device's end cannot be written and is lost.
    fn write_back(&mut self, block: CacheBlock)
        requires
            old(self).device.inv(),
        ensures
            final(self).device.inv(),
            final(self).cache == old(self).cache,
            final(self).device.blocks() == if block.dirty && block.offset < old(self).device.blocks().len() {
                old(self).device.blocks().update(block.offset as int, block.data.data@)
            } else {
                old(self).device.blocks()
            },
    {
        if block.dirty {
            let _ = self.device.write_block(block.offset, &block.data);
        }
    }

    /// Reads block `offset` into `block`, from the cache where it is there.
    /// Otherwise it reads the device and keeps a clean copy in the cache; a
    /// block that the copy pushes out is written back where it is dirty.
    pub fn read_block(&mut self, offset: usize, block: &mut Block512) -> (r: FsResult)
        requires
            old(self).inv(),
        ensures
            final(self).inv(),
            old(self).consistent() ==> final(self).consistent() && final(self).blocks() == old(self).blocks(),
            r is Ok <==> old(self).cached_at(offset) is Some,
            r is Ok ==> old(self).cached_at(offset) == Some(final(block).data@),
            r is Err ==> r == Err::<(), FsError>(FsError::InvalidOffset) && *final(block) == *old(block),
            old(self).cache.entries().contains_key(offset) || offset >= old(self).device.blocks().len()
                ==> final(self).cache.entries() == old(self).cache.entries()
                && final(self).device.blocks() == old(self).device.blocks(),
            !old(self).cache.entries().contains_key(offset) && offset < old(self).device.blocks().len()
                ==> exists|ev: Option<CacheBlock>|
                cache_put(
                    old(self).cache.entries(),
                    (CacheBlock { data: *final(block), dirty: false, offset }),
                    ev,
                    final(self).cache.entries(),
                ) && final(self).device.blocks() == written_back(old(self).device.blocks(), ev),
    {
        let ghost view0 = self.blocks();
        if let Some(cached) = self.cache.read(offset) {
            *block = cached;
            assert(self.blocks() =~= view0);
            return Ok(());
        }
        if let Err(e) = self.device.read_block(offset, block) {
            return Err(e);
        }
        let ghost dev = self.device.blocks();
        let ghost entries0 = self.cache.entries();
        let copy = CacheBlock::new(*block, offset);
        assert(cached_view(entries0, dev).update(offset as int, copy.data.data@) =~= view0);
        let ev = self.cache.insert(copy);
        match ev {
            None => {
                proof {
                    if cache_consistent(entries0, dev) {
                        lemma_cache_put(entries0, dev, copy);
                    }
                }
            },
            Some(evicted) => {
                self.write_back(evicted);
                proof {
                    if cache_consistent(entries0, dev) {
                        lemma_evict(entries0, dev, evicted, self.device.blocks());
                        lemma_cache_put(entries0.remove(evicted.offset), self.device.blocks(), copy);
                    }
                }
            },
        }
        proof {
            self.cache.lemma_entries_finite();
        }
        assert(cache_put(entries0, copy, ev, self.cache.entries()) && self.device.blocks() == written_back(dev, ev));
        Ok(())
    }

    /// Writes `block` as block `offset` into the cache, as a dirty block; the
    /// device is written only where a dirty block pushed out is written back.
    /// A block past the device's end is cached too; it is lost when it
    /// leaves the cache, as the device refuses it.
    pub fn write_block(&mut self, offset: usize, block: &Block512) -> (r: FsResult)
        requires
            old(self).inv(),
        ensures
            final(self).inv(),
            r == Ok::<(), FsError>(()),
            final(self).cached_at(offset) == Some(block.data@),
            old(self).consistent() ==> final(self).consistent() && final(self).blocks() == if offset < old(
                self,
            ).blocks().len() {
                old(self).blocks().update(offset as int, block.data@)
            } else {
                old(self).blocks()
            },
            exists|ev: Option<CacheBlock>|
                cache_put(
                    old(self).cache.entries(),
                    (CacheBlock { data: *block, dirty: true, offset }),
                    ev,
                    final(self).cache.entries(),
                ) && final(self).device.blocks() == written_back(old(self).device.blocks(), ev),
    {
        let ghost view0 = self.blocks();
        let ghost dev = self.device.blocks();
        let ghost entries0 = self.cache.entries();
        let copy = CacheBlock::new_dirty(*block, offset);
        let ev = self.cache.insert(copy);
        match ev {
            None => {
                proof {
                    if cache_consistent(entries0, dev) {
                        lemma_cache_put(entries0, dev, copy);
                    }
                }
            },
            Some(evicted) => {
                self.write_back(evicted);
                proof {
                    if cache_consistent(entries0, dev) {
                        lemma_evict(entries0, dev, evicted, self.device.blocks());
                        lemma_cache_put(entries0.remove(evicted.offset), self.device.blocks(), copy);
                    }
                }
            },
        }
        proof {
            self.cache.lemma_entries_finite();
        }
        assert(cache_put(entries0, copy, ev, self.cache.entries()) && self.device.blocks() == written_back(dev, ev));
        Ok(())
    }

    /// Writes every dirty cached block back and empties the cache.
    #[verifier::loop_isolation(false)]
    pub fn flush(&mut self)
        requires
            old(self).inv(),
        ensures
            final(self).inv(),
            final(self).cache.entries().dom().is_empty(),
            old(self).consistent() ==> final(self).consistent() && final(self).blocks() == old(self).blocks()
                && final(self).device.blocks() == old(self).blocks(),
    {
        let ghost view0 = self.blocks();
        let ghost c0 = self.consistent();
        loop
            invariant
                self.inv(),
                c0 ==> self.consistent() && self.blocks() == view0,
            decreases self.cache.entries().dom().len(),
        {
            let ghost entries0 = self.cache.entries();
            let ghost dev = self.device.blocks();
            match self.cache.take_one() {
                None => {
                    proof {
                        if c0 {
                            assert(self.device.blocks() =~= view0) by {
                                assert forall|i: int| 0 <= i < dev.len() implies #[trigger] view0[i] == dev[i] by {
                                    assert(!entries0.dom().contains(i as usize));
                                }
                            }
                        }
                    }
                    return;
                },
                Some(b) => {
                    self.write_back(b);
                    proof {
                        if c0 {
                            lemma_evict(entries0, dev, b, self.device.blocks());
                        }
                        self.cache.lemma_entries_finite();
                    }
                },
            }
        }
    }
}

/// The cache's capacity, the number of blocks in it, and how many of them
/// are dirty.
pub fn cache_stats<C: CacheManager, D: BlockDevice>(cached: &CachedDevice<C, D>) -> (r: (usize, usize, usize))
    requires
        cached.inv(),
    ensures
        r == (
            cached.cache.spec_capacity() as usize,
            cached.cache.spec_len() as usize,
            cached.cache.spec_dirty_count() as usize,
        ),
{
    (cached.cache.capacity(), cached.cache.len(), cached.cache.dirty_count())
}

} // verus!

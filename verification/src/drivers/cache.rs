//! A least-recently-used block cache over the `lru` crate.
use core::num::NonZeroUsize;
use lru::LruCache;
use vstd::prelude::*;

use crate::storage::block::{Block512, BlockDevice};
use crate::storage::cache::{cache_consistent, CacheBlock, CacheManager, CachedDevice};

verus! {

#[verifier::external_type_specification]
#[verifier::external_body]
#[verifier::reject_recursive_types(K)]
#[verifier::reject_recursive_types(V)]
#[verifier::reject_recursive_types(S)]
pub struct ExLruCache<K, V, S>(LruCache<K, V, S>);

#[verifier::external_type_specification]
#[verifier::external_body]
pub struct ExDefaultHashBuilder(hashbrown::DefaultHashBuilder);

/// What an LRU cache of blocks holds: its entries, from the least recently
/// used one to the most recently used one.
pub uninterp spec fn lru_items(c: LruCache<usize, CacheBlock>) -> Seq<(usize, CacheBlock)>;

/// How many entries an LRU cache of blocks was made to hold.
pub uninterp spec fn lru_cap(c: LruCache<usize, CacheBlock>) -> nat;

/// The keys of `items`, in order.
pub open spec fn item_keys(items: Seq<(usize, CacheBlock)>) -> Seq<usize> {
    items.map_values(|p: (usize, CacheBlock)| p.0)
}

/// `items` as a map from key to value.
pub open spec fn item_map(items: Seq<(usize, CacheBlock)>) -> Map<usize, CacheBlock>
    decreases items.len(),
{
    if items.len() == 0 {
        Map::empty()
    } else {
        item_map(items.drop_last()).insert(items.last().0, items.last().1)
    }
}

/// How many of `items` are dirty.
pub open spec fn dirty_in(items: Seq<(usize, CacheBlock)>) -> nat
    decreases items.len(),
{
    if items.len() == 0 {
        0
    } else {
        dirty_in(items.drop_last()) + if items.last().1.dirty {
            1nat
        } else {
            0nat
        }
    }
}

/// `LruCache::new`: an empty cache that holds at most `cap` entries.
#[verifier::external_body]
fn lru_new(cap: usize) -> (r: LruCache<usize, CacheBlock>)
    requires
        cap > 0,
    ensures
        lru_items(r) == Seq::<(usize, CacheBlock)>::empty(),
        lru_cap(r) == cap,
{
    LruCache::new(NonZeroUsize::new(cap).unwrap())
}

/// `LruCache::get`, giving the block data: where `k` is cached, its data,
/// and the entry becomes the most recently used one.
#[verifier::external_body]
fn lru_get_data(c: &mut LruCache<usize, CacheBlock>, k: usize) -> (r: Option<Block512>)
    ensures
        lru_cap(*final(c)) == lru_cap(*old(c)),
        item_keys(lru_items(*old(c))).contains(k) ==> exists|i: int|
            0 <= i < lru_items(*old(c)).len() && lru_items(*old(c))[i].0 == k && r == Some(lru_items(*old(c))[i].1.data) && lru_items(*final(c)) == lru_items(*old(c)).remove(i).push(lru_items(*old(c))[i]),
        !item_keys(lru_items(*old(c))).contains(k) ==> r is None && lru_items(*final(c)) == lru_items(*old(c)),
{
    c.get(&k).map(|cb| cb.data)
}

/// `LruCache::contains`: whether `k` is cached; the order does not change.
#[verifier::external_body]
fn lru_contains(c: &LruCache<usize, CacheBlock>, k: usize) -> (r: bool)
    ensures
        r == item_keys(lru_items(*c)).contains(k),
{
    c.contains(&k)
}

/// `LruCache::put`: where `k` is cached, its value is replaced and handed
/// back; otherwise, in a full cache, the least recently used entry is
/// dropped. Either way `k` becomes the most recently used entry.
#[verifier::external_body]
fn lru_put(c: &mut LruCache<usize, CacheBlock>, k: usize, v: CacheBlock) -> (r: Option<CacheBlock>)
    ensures
        lru_cap(*final(c)) == lru_cap(*old(c)),
        item_keys(lru_items(*old(c))).contains(k) ==> exists|i: int|
            0 <= i < lru_items(*old(c)).len() && lru_items(*old(c))[i].0 == k && r == Some(lru_items(*old(c))[i].1) && lru_items(*final(c)) == lru_items(*old(c)).remove(i).push((k, v)),
        !item_keys(lru_items(*old(c))).contains(k) && lru_items(*old(c)).len() == lru_cap(*old(c))
            ==> r is None && lru_items(*final(c)) == lru_items(*old(c)).drop_first().push((k, v)),
        !item_keys(lru_items(*old(c))).contains(k) && lru_items(*old(c)).len() != lru_cap(*old(c))
            ==> r is None && lru_items(*final(c)) == lru_items(*old(c)).push((k, v)),
{
    c.put(k, v)
}

/// `LruCache::pop_lru`: removes and returns the least recently used entry.
#[verifier::external_body]
fn lru_pop_lru(c: &mut LruCache<usize, CacheBlock>) -> (r: Option<(usize, CacheBlock)>)
    ensures
        lru_cap(*final(c)) == lru_cap(*old(c)),
        lru_items(*old(c)).len() == 0 ==> r is None && lru_items(*final(c)) == lru_items(*old(c)),
        lru_items(*old(c)).len() > 0 ==> r == Some(lru_items(*old(c))[0]) && lru_items(*final(c))
            == lru_items(*old(c)).drop_first(),
{
    c.pop_lru()
}

/// `LruCache::len`: the number of entries.
#[verifier::external_body]
fn lru_len(c: &LruCache<usize, CacheBlock>) -> (r: usize)
    ensures
        r == lru_items(*c).len(),
{
    c.len()
}

/// `LruCache::iter`, giving each entry's dirty flag: from the most recently
/// used entry to the least recently used one.
#[verifier::external_body]
fn lru_dirty_flags(c: &LruCache<usize, CacheBlock>) -> (r: Vec<bool>)
    ensures
        r@.len() == lru_items(*c).len(),
        forall|j: int| 0 <= j < r@.len() ==> r@[j] == lru_items(*c)[lru_items(*c).len() - 1 - j].1.dirty,
{
    c.iter().map(|(_, cb)| cb.dirty).collect()
}

proof fn lemma_keys_drop_last(items: Seq<(usize, CacheBlock)>)
    requires
        items.len() > 0,
    ensures
        item_keys(items.drop_last()) == item_keys(items).drop_last(),
{
    assert(item_keys(items.drop_last()) =~= item_keys(items).drop_last());
}

/// A key is in the map exactly when some item has it.
proof fn lemma_item_map_dom(items: Seq<(usize, CacheBlock)>, k: usize)
    ensures
        item_map(items).contains_key(k) <==> item_keys(items).contains(k),
        item_map(items).dom().finite(),
    decreases items.len(),
{
    if items.len() > 0 {
        lemma_item_map_dom(items.drop_last(), k);
        lemma_keys_drop_last(items);
        let ks = item_keys(items);
        if ks.contains(k) && k != items.last().0 {
            let i = choose|i: int| 0 <= i < ks.len() && ks[i] == k;
            assert(i != ks.len() - 1);
            assert(ks.drop_last()[i] == k);
        }
        if item_keys(items.drop_last()).contains(k) {
            let i = choose|i: int| 0 <= i < ks.len() - 1 && item_keys(items.drop_last())[i] == k;
            assert(ks[i] == k);
        }
        if k == items.last().0 {
            assert(ks[ks.len() - 1] == k);
        }
    }
}

/// With distinct keys, the map gives each item's value under its key.
proof fn lemma_item_map_get(items: Seq<(usize, CacheBlock)>, i: int)
    requires
        item_keys(items).no_duplicates(),
        0 <= i < items.len(),
    ensures
        item_map(items).contains_key(items[i].0),
        item_map(items)[items[i].0] == items[i].1,
    decreases items.len(),
{
    if i < items.len() - 1 {
        lemma_keys_drop_last(items);
        assert(item_keys(items)[i] != item_keys(items)[items.len() - 1]);
        lemma_item_map_get(items.drop_last(), i);
    }
}

/// With distinct keys, removing the item with key `items[i].0` removes the
/// key from the map.
proof fn lemma_item_map_remove(items: Seq<(usize, CacheBlock)>, i: int)
    requires
        item_keys(items).no_duplicates(),
        0 <= i < items.len(),
    ensures
        item_map(items.remove(i)) == item_map(items).remove(items[i].0),
        item_keys(items.remove(i)) == item_keys(items).remove(i),
    decreases items.len(),
{
    let k = items[i].0;
    let n = items.len();
    assert(item_keys(items.remove(i)) =~= item_keys(items).remove(i));
    lemma_keys_drop_last(items);
    if i == n - 1 {
        assert(items.remove(i) =~= items.drop_last());
        lemma_item_map_dom(items.drop_last(), k);
        if item_keys(items.drop_last()).contains(k) {
            let j = choose|j: int| 0 <= j < n - 1 && item_keys(items.drop_last())[j] == k;
            assert(item_keys(items)[j] == item_keys(items)[n - 1]);
        }
        assert(item_map(items.drop_last()) =~= item_map(items).remove(k));
    } else {
        let r = items.remove(i);
        assert(r.drop_last() =~= items.drop_last().remove(i));
        assert(r.last() == items.last());
        lemma_item_map_remove(items.drop_last(), i);
        assert(item_keys(items)[i] != item_keys(items)[n - 1]);
        assert(item_map(r) =~= item_map(items).remove(k));
    }
}

/// Moving the item with key `items[i].0` to the end with value `v` stores
/// `v` under that key, and keeps the keys distinct.
proof fn lemma_item_map_replace(items: Seq<(usize, CacheBlock)>, i: int, v: CacheBlock)
    requires
        item_keys(items).no_duplicates(),
        0 <= i < items.len(),
    ensures
        item_map(items.remove(i).push((items[i].0, v))) == item_map(items).insert(items[i].0, v),
        item_keys(items.remove(i).push((items[i].0, v))).no_duplicates(),
        items.remove(i).push((items[i].0, v)).len() == items.len(),
{
    let k = items[i].0;
    let s = items.remove(i).push((k, v));
    lemma_item_map_remove(items, i);
    assert(s.drop_last() =~= items.remove(i));
    assert(item_map(s) =~= item_map(items).insert(k, v));
    let ks = item_keys(items);
    assert(item_keys(s) =~= ks.remove(i).push(k));
    assert forall|a: int, b: int| 0 <= a < b < item_keys(s).len() implies item_keys(s)[a] != item_keys(s)[b] by {
        if b == item_keys(s).len() - 1 {
            if a < i {
                assert(ks[a] != ks[i]);
            } else {
                assert(ks[a + 1] != ks[i]);
            }
        } else {
            let a1 = if a < i { a } else { a + 1 };
            let b1 = if b < i { b } else { b + 1 };
            assert(ks[a1] != ks[b1]);
        }
    }
}

/// Appending an item with a new key stores it, and keeps the keys distinct.
proof fn lemma_item_map_push(items: Seq<(usize, CacheBlock)>, k: usize, v: CacheBlock)
    requires
        item_keys(items).no_duplicates(),
        !item_keys(items).contains(k),
    ensures
        item_map(items.push((k, v))) == item_map(items).insert(k, v),
        item_keys(items.push((k, v))).no_duplicates(),
{
    let s = items.push((k, v));
    assert(s.drop_last() =~= items);
    assert(item_keys(s) =~= item_keys(items).push(k));
    assert forall|a: int, b: int| 0 <= a < b < item_keys(s).len() implies item_keys(s)[a] != item_keys(s)[b] by {
        if b == item_keys(s).len() - 1 {
            assert(item_keys(items)[a] == item_keys(s)[a]);
        }
    }
}

/// A block cache with least-recently-used replacement, of `cap` blocks.
pub struct LruCacheManager {
    pub cache: LruCache<usize, CacheBlock>,
    pub cap: usize,
}

impl LruCacheManager {
    /// An empty cache of `capacity` blocks (room for one block when
    /// `capacity` is 0).
    pub fn new(capacity: usize) -> (r: Self)
        ensures
            r.inv(),
            r.entries() == Map::<usize, CacheBlock>::empty(),
            r.spec_capacity() == capacity,
            r.spec_len() == 0,
    {
        let lru_capacity = if capacity == 0 {
            16
        } else {
            capacity
        };
        let r = LruCacheManager { cache: lru_new(lru_capacity), cap: capacity };
        assert(item_keys(lru_items(r.cache)) =~= Seq::<usize>::empty());
        r
    }
}

impl LruCacheManager {
    /// The numbers of the cached blocks, from the least recently used one
    /// to the most recently used one.
    pub open spec fn recency(&self) -> Seq<usize> {
        item_keys(lru_items(self.cache))
    }
}

impl CacheManager for LruCacheManager {
    open spec fn entries(&self) -> Map<usize, CacheBlock> {
        item_map(lru_items(self.cache))
    }

    open spec fn inv(&self) -> bool {
        let items = lru_items(self.cache);
        &&& item_keys(items).no_duplicates()
        &&& forall|i: int| 0 <= i < items.len() ==> (#[trigger] items[i]).1.offset == items[i].0
        &&& items.len() <= lru_cap(self.cache)
        &&& self.cap > 0 ==> lru_cap(self.cache) == self.cap
        &&& self.cap == 0 ==> lru_cap(self.cache) == 16 && items.len() <= 1
    }

    open spec fn spec_capacity(&self) -> nat {
        self.cap as nat
    }

    open spec fn spec_len(&self) -> nat {
        lru_items(self.cache).len()
    }

    proof fn lemma_entries_finite(&self) {
        lemma_item_map_dom(lru_items(self.cache), 0);
    }

    open spec fn spec_dirty_count(&self) -> nat {
        dirty_in(lru_items(self.cache))
    }

    /// A hit makes the block the most recently used one; a miss changes
    /// nothing.
    fn read(&mut self, offset: usize) -> (r: Option<Block512>)
        ensures
            old(self).recency().contains(offset) ==> exists|i: int|
                0 <= i < old(self).recency().len() && old(self).recency()[i] == offset && final(self).recency()
                    == old(self).recency().remove(i).push(offset),
            !old(self).recency().contains(offset) ==> final(self).recency() == old(self).recency(),
    {
        let ghost items = lru_items(self.cache);
        let r = lru_get_data(&mut self.cache, offset);
        proof {
            lemma_item_map_dom(items, offset);
            if item_keys(items).contains(offset) {
                let i = choose|i: int|
                    0 <= i < items.len() && items[i].0 == offset && r == Some(items[i].1.data)
                        && lru_items(self.cache) == items.remove(i).push(items[i]);
                lemma_item_map_get(items, i);
                lemma_item_map_replace(items, i, items[i].1);
                assert(item_keys(items)[i] == offset);
                assert(item_keys(lru_items(self.cache)) =~= item_keys(items).remove(i).push(offset));
                assert(items[i] == (items[i].0, items[i].1));
                assert(item_map(items).insert(offset, items[i].1) =~= item_map(items));
                let s = lru_items(self.cache);
                assert forall|j: int| 0 <= j < s.len() implies (#[trigger] s[j]).1.offset == s[j].0 by {
                    if j < i {
                        assert(s[j] == items[j]);
                    } else if j < s.len() - 1 {
                        assert(s[j] == items[j + 1]);
                    }
                }
            }
        }
        r
    }

    /// A cached block is replaced and becomes the most recently used one.
    /// A new block is added as the most recently used one; while fewer than
    /// `cap` blocks are cached nothing leaves, otherwise the least recently
    /// used block leaves and is returned.
    fn insert(&mut self, block: CacheBlock) -> (r: Option<CacheBlock>)
        ensures
            old(self).recency().contains(block.offset) ==> exists|i: int|
                0 <= i < old(self).recency().len() && old(self).recency()[i] == block.offset
                    && final(self).recency() == old(self).recency().remove(i).push(block.offset),
            !old(self).recency().contains(block.offset) && old(self).recency().len() < old(self).cap ==> r is None
                && final(self).recency() == old(self).recency().push(block.offset),
            !old(self).recency().contains(block.offset) && old(self).recency().len() >= old(self).cap
                && old(self).recency().len() > 0 ==> final(self).recency() == old(self).recency().drop_first().push(
                block.offset,
            ) && (r matches Some(e) && e.offset == old(self).recency()[0]),
            !old(self).recency().contains(block.offset) && old(self).recency().len() == 0 ==> r is None
                && final(self).recency() == seq![block.offset],
    {
        let ghost items = lru_items(self.cache);
        let offset = block.offset;
        proof {
            lemma_item_map_dom(items, offset);
        }
        if lru_contains(&self.cache, offset) {
            let r = lru_put(&mut self.cache, offset, block);
            proof {
                let i = choose|i: int|
                    0 <= i < items.len() && items[i].0 == offset && r == Some(items[i].1)
                        && lru_items(self.cache) == items.remove(i).push((offset, block));
                lemma_item_map_get(items, i);
                lemma_item_map_replace(items, i, block);
                assert(item_keys(items)[i] == offset);
                assert(item_keys(lru_items(self.cache)) =~= item_keys(items).remove(i).push(offset));
                assert(item_map(items).remove(offset).insert(offset, block) =~= item_map(items).insert(
                    offset,
                    block,
                ));
                let s = lru_items(self.cache);
                assert forall|j: int| 0 <= j < s.len() implies (#[trigger] s[j]).1.offset == s[j].0 by {
                    if j < i {
                        assert(s[j] == items[j]);
                    } else if j < s.len() - 1 {
                        assert(s[j] == items[j + 1]);
                    }
                }
            }
            return r;
        }
        if lru_len(&self.cache) >= self.cap {
            let evicted = lru_pop_lru(&mut self.cache);
            let ghost mid = lru_items(self.cache);
            proof {
                if items.len() > 0 {
                    lemma_item_map_remove(items, 0);
                    assert(items.remove(0) =~= items.drop_first());
                    lemma_item_map_get(items, 0);
                    lemma_item_map_dom(mid, offset);
                    if item_keys(mid).contains(offset) {
                        let j = choose|j: int| 0 <= j < item_keys(mid).len() && item_keys(mid)[j] == offset;
                        assert(item_keys(items)[j + 1] == offset);
                    }
                }
                lemma_item_map_push(mid, offset, block);
            }
            let _ = lru_put(&mut self.cache, offset, block);
            proof {
                let s = lru_items(self.cache);
                assert(s == mid.push((offset, block)));
                if items.len() > 0 {
                    assert(item_keys(s) =~= item_keys(items).drop_first().push(offset));
                } else {
                    assert(item_keys(s) =~= seq![offset]);
                }
                assert forall|j: int| 0 <= j < s.len() implies (#[trigger] s[j]).1.offset == s[j].0 by {
                    if j < s.len() - 1 {
                        assert(s[j] == items[j + 1]);
                    }
                }
            }
            return match evicted {
                Some(pair) => {
                    proof {
                        assert(items[0].1.offset == items[0].0);
                    }
                    Some(pair.1)
                },
                None => None,
            };
        }
        proof {
            lemma_item_map_push(items, offset, block);
        }
        let _ = lru_put(&mut self.cache, offset, block);
        proof {
            let s = lru_items(self.cache);
            assert forall|j: int| 0 <= j < s.len() implies (#[trigger] s[j]).1.offset == s[j].0 by {
                if j < s.len() - 1 {
                    assert(s[j] == items[j]);
                }
            }
        }
        None
    }

    fn take_one(&mut self) -> (r: Option<CacheBlock>) {
        let ghost items = lru_items(self.cache);
        let popped = lru_pop_lru(&mut self.cache);
        match popped {
            Some(pair) => {
                proof {
                    lemma_item_map_remove(items, 0);
                    assert(items.remove(0) =~= items.drop_first());
                    lemma_item_map_get(items, 0);
                    assert(items[0].1.offset == items[0].0);
                    let s = lru_items(self.cache);
                    assert forall|j: int| 0 <= j < s.len() implies (#[trigger] s[j]).1.offset == s[j].0 by {
                        assert(s[j] == items[j + 1]);
                    }
                }
                Some(pair.1)
            },
            None => {
                proof {
                    assert(item_map(items) =~= Map::<usize, CacheBlock>::empty());
                }
                None
            },
        }
    }

    fn capacity(&self) -> (r: usize) {
        self.cap
    }

    fn len(&self) -> (r: usize) {
        lru_len(&self.cache)
    }

    fn dirty_count(&self) -> (r: usize) {
        let ghost items = lru_items(self.cache);
        let flags = lru_dirty_flags(&self.cache);
        let n = flags.len();
        let mut count: usize = 0;
        let mut j: usize = 0;
        assert(items.subrange(0, n as int) =~= items);
        while j < n
            invariant
                n == flags@.len(),
                n == items.len(),
                j <= n,
                n <= lru_cap(self.cache),
                forall|m: int| 0 <= m < n ==> flags@[m] == items[n - 1 - m].1.dirty,
                count + dirty_in(items.subrange(0, n - j)) == dirty_in(items),
                count <= j,
            decreases n - j,
        {
            let ghost pre = items.subrange(0, n - j);
            assert(pre.drop_last() =~= items.subrange(0, n - j - 1));
            assert(pre.last() == items[n - 1 - j]);
            if flags[j] {
                count = count + 1;
            }
            j = j + 1;
        }
        assert(items.subrange(0, 0) =~= Seq::<(usize, CacheBlock)>::empty());
        count
    }
}

proof fn lemma_dirty_in_bound(items: Seq<(usize, CacheBlock)>)
    ensures
        dirty_in(items) <= items.len(),
    decreases items.len(),
{
    if items.len() > 0 {
        lemma_dirty_in_bound(items.drop_last());
    }
}

/// An LRU cache never holds more blocks than its capacity (one, when made
/// with capacity 0), and no more of them are dirty than it holds.
pub proof fn law_lru_within_capacity(m: LruCacheManager)
    requires
        m.inv(),
    ensures
        m.spec_len() <= if m.cap == 0 {
            1
        } else {
            m.cap as nat
        },
        m.spec_dirty_count() <= m.spec_len(),
{
    lemma_dirty_in_bound(lru_items(m.cache));
}

/// A cached view of `device`, with an LRU cache of `cache_capacity` blocks.
pub fn create_cached_device<D: BlockDevice>(device: D, cache_capacity: usize) -> (r: CachedDevice<
    LruCacheManager,
    D,
>)
    requires
        device.inv(),
        device.blocks().len() <= usize::MAX,
    ensures
        r.inv(),
        r.consistent(),
        r.device == device,
        r.cache.spec_capacity() == cache_capacity,
        r.blocks() == device.blocks(),
{
    let cache = LruCacheManager::new(cache_capacity);
    assert(cache_consistent(cache.entries(), device.blocks()));
    proof {
        lemma_item_map_dom(lru_items(cache.cache), 0);
    }
    let r = CachedDevice::new(cache, device);
    assert(r.blocks() =~= device.blocks());
    r
}

} // verus!

//! What holds across the file system's operations.
use vstd::prelude::*;

use crate::bytes::{le_u16, le_u32, splice, u16_le, u32_le};
use crate::storage::error::{FsError, FsResult};
use crate::storage::metadata::MetaView;
use crate::storage::text::{lemma_prefix_before_zero, path_components};
use vstd::utf8::valid_utf8;
use crate::storage::tmpfs::direntry::{entry_name_of, stored_name};
use crate::storage::tmpfs::format::{
    formatted_block, formatted_fields, is_formatted_superblock, layout_of, root_inode_block,
};
use crate::storage::tmpfs::fs::{create_outcome, dir_listing, link_outcome, new_file_bytes, open_outcome};
use crate::storage::tmpfs::impls::{add_entry_outcome_in, entry_bytes};
use crate::storage::tmpfs::file::{file_byte, read_stop, write_from, WriteState};
use crate::storage::tmpfs::layout::{
    alloc_inode_in, alloc_limit_of, lemma_first_inode_stop_unique, bitmap_bit, first_inode_stop_in, ino_is_free, bitmap_in, clear_bit_in, data_block_of, has_clear_bit, ino_direct,
    ino_is_dir, ino_is_file, ino_links, ino_size, inode_block_of, inode_in, inode_slot, lemma_first_clear_bit, put_inode, readable_in,
    set_bit_in, splice_block, the_first_clear_bit, lemma_with_bit, lemma_without_bit, bit_of, with_bit, without_bit,
};
use crate::storage::tmpfs::lookup::{
    blocks_spanned, find_from, find_in_block, list_from, listing, lookup, resolve_parts, resolve_step,
};
use crate::storage::tmpfs::superblock::{Superblock, TMPFS_MAGIC, TMPFS_VERSION};
use crate::storage::block::BlockDevice;
use crate::storage::tmpfs::impls::TmpFsImpl;

verus! {

/// Formatting a device and mounting it reads back what formatting wrote:
/// the magic number, version, block and inode counts, a root directory
/// (inode 0) whose listing, like that of `/`, is empty, and inode 1 as the
/// first free inode where there are at least two.
pub proof fn law_format_gives_empty_root(
    before: Seq<Seq<u8>>,
    after: Seq<Seq<u8>>,
    sb: Superblock,
    total_blocks: usize,
    inode_count: usize,
)
    requires
        after.len() == before.len(),
        layout_of(total_blocks, inode_count).inode_start < before.len(),
        layout_of(total_blocks, inode_count).data_start <= before.len(),
        is_formatted_superblock(after[0], total_blocks, inode_count),
        forall|i: int|
            1 <= i < before.len() ==> #[trigger] after[i] == formatted_block(
                before[i],
                i,
                total_blocks,
                inode_count,
            ),
        sb.data@ == after[0],
        (inode_count as u32) >= 1,
    ensures
        sb.spec_magic() == TMPFS_MAGIC,
        sb.spec_version() == TMPFS_VERSION,
        sb.spec_total_blocks() == total_blocks as u32,
        sb.spec_inode_count() == inode_count as u32,
        readable_in(after, sb, 0),
        ino_is_dir(inode_in(after, sb, 0)),
        (inode_count as u32) >= 2 ==> alloc_inode_in(after, sb) == Ok::<u16, FsError>(1),
        listing(after, sb, 0) == Ok::<Seq<MetaView>, FsError>(Seq::empty()),
        dir_listing(after, sb, path_components(seq![0x2fu8])) == Ok::<Seq<MetaView>, FsError>(
            Seq::empty(),
        ),
{
    let l = layout_of(total_blocks, inode_count);
    reveal(is_formatted_superblock);
    assert(le_u32(after[0], 28) == formatted_fields(total_blocks, inode_count)[7]);
    assert(le_u32(after[0], 16) == formatted_fields(total_blocks, inode_count)[4]);
    assert(le_u32(after[0], 0) == formatted_fields(total_blocks, inode_count)[0]);
    assert(le_u32(after[0], 4) == formatted_fields(total_blocks, inode_count)[1]);
    assert(le_u32(after[0], 12) == formatted_fields(total_blocks, inode_count)[3]);
    assert(sb.spec_inode_start() == l.inode_start);
    assert(sb.spec_inode_count() == (inode_count as u32));
    assert(inode_block_of(sb, 0) == l.inode_start);
    assert(after[l.inode_start] == root_inode_block());
    let ino = inode_in(after, sb, 0);
    assert(ino =~= Seq::new(32, |_j: int| 0u8).update(0, 2u8).update(25, 1u8));
    assert(le_u32(ino, 1) == 0);
    assert(blocks_spanned(0) == 0);
    assert(path_components(seq![0x2fu8]) =~= Seq::<Seq<u8>>::empty()) by {
        reveal_with_fuel(crate::storage::text::split_state, 2);
    }
    if (inode_count as u32) >= 2 {
        assert(inode_block_of(sb, 1) == l.inode_start);
        assert(inode_in(after, sb, 1)[0] == root_inode_block()[32]);
        assert(first_inode_stop_in(after, sb, 1));
        assert forall|i: int| first_inode_stop_in(after, sb, i) implies i == 1 by {
            lemma_first_inode_stop_unique(after, sb, 1, i);
        }
    }
}

/// Writing inode `idx` and reading it back gives the bytes written; every
/// other inode reads as before.
pub proof fn law_inode_write_then_read(disk: Seq<Seq<u8>>, sb: Superblock, idx: int, bytes: Seq<u8>)
    requires
        0 <= idx,
        inode_block_of(sb, idx) < disk.len(),
        disk[inode_block_of(sb, idx)].len() == 512,
        bytes.len() == 32,
    ensures
        inode_in(put_inode(disk, sb, idx, bytes), sb, idx) == bytes,
        forall|j: int|
            0 <= j && j != idx && inode_block_of(sb, j) < disk.len() ==> #[trigger] inode_in(
                put_inode(disk, sb, idx, bytes),
                sb,
                j,
            ) == inode_in(disk, sb, j),
        forall|j: int| readable_in(put_inode(disk, sb, idx, bytes), sb, j) == #[trigger] readable_in(disk, sb, j),
{
    let d1 = put_inode(disk, sb, idx, bytes);
    assert(inode_in(d1, sb, idx) =~= bytes);
    assert forall|j: int|
        0 <= j && j != idx && inode_block_of(sb, j) < disk.len() implies #[trigger] inode_in(d1, sb, j)
        == inode_in(disk, sb, j) by {
        if inode_block_of(sb, j) == inode_block_of(sb, idx) {
            assert(j / 16 == idx / 16);
            assert(j % 16 != idx % 16);
            assert(inode_in(d1, sb, j) =~= inode_in(disk, sb, j));
        }
    }
}

/// Marking a clear bitmap bit used sets that bit and no other; clearing it
/// again gives back the blocks as they were. Allocating a data block and
/// freeing the block it returned is such a pair.
pub proof fn law_allocate_then_free_restores(disk: Seq<Seq<u8>>, sb: Superblock, i: int)
    requires
        sb.spec_bitmap_start() < disk.len(),
        bitmap_in(disk, sb).len() == 512,
        0 <= i < 4096,
        !bitmap_bit(bitmap_in(disk, sb), i),
    ensures
        bitmap_bit(bitmap_in(set_bit_in(disk, sb, i), sb), i),
        forall|k: int|
            0 <= k < 4096 && k != i ==> #[trigger] bitmap_bit(bitmap_in(set_bit_in(disk, sb, i), sb), k)
                == bitmap_bit(bitmap_in(disk, sb), k),
        clear_bit_in(set_bit_in(disk, sb, i), sb, i) == disk,
{
    let bm = bitmap_in(disk, sb);
    let d1 = set_bit_in(disk, sb, i);
    let byte = bm[i / 8];
    let k = (i % 8) as u8;
    lemma_with_bit(byte, k);
    assert forall|m: int|
        0 <= m < 4096 && m != i implies #[trigger] bitmap_bit(bitmap_in(d1, sb), m) == bitmap_bit(bm, m) by {
        if m / 8 == i / 8 {
            assert((m % 8) as u8 != k);
            assert(bit_of(with_bit(byte, k as int), (m % 8) as u8 as int) == bit_of(byte, (m % 8) as u8 as int));
        }
    }
    assert(!bit_of(byte, k as int));
    assert((((byte | (1u8 << k)) & !(1u8 << k))) == byte) by (bit_vector)
        requires
            k < 8,
            ((byte >> k) & 1u8) != 1u8,
    ;
    assert(without_bit(with_bit(byte, k as int), k as int) == byte);
    assert(bitmap_in(d1, sb) =~= bm.update(i / 8, with_bit(byte, k as int)));
    assert(clear_bit_in(d1, sb, i) =~= disk) by {
        assert(bitmap_in(d1, sb).update(i / 8, without_bit(with_bit(byte, k as int), k as int)) =~= bm);
    }
}

/// Writing inode `idx` of a file system on a consistent device and reading
/// it back gives the bytes written; every other inode reads as before, and
/// which inodes can be read does not change.
pub proof fn law_write_inode_then_read_inode<D: BlockDevice>(
    before: TmpFsImpl<D>,
    after: TmpFsImpl<D>,
    idx: u16,
    bytes: Seq<u8>,
)
    requires
        before.wf(),
        bytes.len() == 32,
        before.inode_block(idx as int) < before.disk().len(),
        after.sb == before.sb,
        after.disk() == before.disk_with_inode(idx as int, bytes),
    ensures
        after.inode_at(idx as int) == bytes,
        forall|j: int|
            0 <= j && j != idx && before.inode_block(j) < before.disk().len() ==> #[trigger] after.inode_at(j)
                == before.inode_at(j),
        forall|j: int| #[trigger] after.inode_readable(j) == before.inode_readable(j),
{
    before.inner.lemma_block_len();
    law_inode_write_then_read(before.disk(), before.sb, idx as int, bytes);
}

/// On a consistent device, allocating a data block and then freeing the
/// block it returned gives back the blocks as they were.
pub proof fn law_allocate_then_free<D: BlockDevice>(
    before: TmpFsImpl<D>,
    mid: TmpFsImpl<D>,
    after: TmpFsImpl<D>,
    rel: u16,
)
    requires
        before.wf(),
        before.sb.spec_bitmap_start() < before.disk().len(),
        before.first_free_bit(rel - 1),
        mid.sb == before.sb,
        mid.disk() == before.disk_with_bit(rel - 1),
        after.disk() == mid.disk_without_bit(rel - 1),
    ensures
        after.disk() == before.disk(),
{
    before.inner.lemma_block_len();
    law_allocate_then_free_restores(before.disk(), before.sb, rel - 1);
}

/// Slot `e` of directory block `blk` does not hold `name`: it is empty or
/// holds another name.
pub open spec fn slot_lacks(blk: Seq<u8>, e: int, name: Seq<u8>) -> bool {
    let ent = blk.subrange(e * 32, e * 32 + 32);
    ent[0] == 0 || entry_name_of(ent) != name
}

/// Among the slots of directory inode `ino` that its size covers, none
/// holds `name`, and each block that holds such slots can be read.
pub open spec fn dir_lacks(disk: Seq<Seq<u8>>, sb: Superblock, ino: Seq<u8>, name: Seq<u8>) -> bool {
    forall|b: int|
        0 <= b < 10 && b < blocks_spanned(ino_size(ino)) && #[trigger] ino_direct(ino, b) != 0 ==> {
            &&& data_block_of(sb, ino_direct(ino, b)) < disk.len()
            &&& forall|e: int|
                0 <= e < 16 && b * 512 + e * 32 < ino_size(ino) ==> #[trigger] slot_lacks(
                    disk[data_block_of(sb, ino_direct(ino, b))],
                    e,
                    name,
                )
        }
}

proof fn lemma_block_lacks(blk: Seq<u8>, rem: int, name: Seq<u8>, e: int)
    requires
        forall|k: int| e <= k < 16 && 0 <= k && k * 32 < rem ==> #[trigger] slot_lacks(blk, k, name),
    ensures
        find_in_block(blk, rem, name, e) is None,
    decreases 16 - e,
{
    if 0 <= e < 16 && e * 32 < rem {
        assert(slot_lacks(blk, e, name));
        lemma_block_lacks(blk, rem, name, e + 1);
    }
}

proof fn lemma_find_from_lacks(disk: Seq<Seq<u8>>, sb: Superblock, ino: Seq<u8>, name: Seq<u8>, b: int)
    requires
        0 <= b,
        dir_lacks(disk, sb, ino, name),
    ensures
        find_from(disk, sb, ino, name, b) == Err::<u16, FsError>(FsError::FileNotFound),
    decreases 10 - b,
{
    let size = ino_size(ino);
    if b < blocks_spanned(size) && b < 10 {
        let rel = ino_direct(ino, b);
        if rel != 0 {
            let blk = disk[data_block_of(sb, rel)];
            assert forall|k: int| 0 <= k < 16 && k * 32 < size - b * 512 implies #[trigger] slot_lacks(
                blk,
                k,
                name,
            ) by {
                assert(b * 512 + k * 32 < size);
            }
            lemma_block_lacks(blk, size - b * 512, name, 0);
        }
        lemma_find_from_lacks(disk, sb, ino, name, b + 1);
    }
}

/// Looking up a name that no slot of a readable directory holds, where
/// every block of the directory can be read, finds nothing: the answer is
/// `FileNotFound`.
pub proof fn law_lookup_absent_name(disk: Seq<Seq<u8>>, sb: Superblock, dir: int, name: Seq<u8>)
    requires
        readable_in(disk, sb, dir),
        dir_lacks(disk, sb, inode_in(disk, sb, dir), name),
    ensures
        lookup(disk, sb, dir, name) == Err::<u16, FsError>(FsError::FileNotFound),
{
    lemma_find_from_lacks(disk, sb, inode_in(disk, sb, dir), name, 0);
}

/// Storing one superblock parameter leaves every other parameter as it was,
/// and reading it back gives the value stored.
pub proof fn law_superblock_set_keeps_others(s: Seq<u8>, slot: int, other: int, v: u32)
    requires
        s.len() == 512,
        0 <= slot < 13,
        0 <= other < 13,
        slot != other,
    ensures
        le_u32(splice(s, 4 * slot, u32_le(v)), 4 * slot) == v,
        le_u32(splice(s, 4 * slot, u32_le(v)), 4 * other) == le_u32(s, 4 * other),
{
    let t = splice(s, 4 * slot, u32_le(v));
    crate::bytes::lemma_le_u32_of_u32_le(v);
    assert(t.subrange(4 * slot, 4 * slot + 4) =~= u32_le(v));
    assert(le_u32(t, 4 * slot) == le_u32(u32_le(v), 0));
    assert(t[4 * other] == s[4 * other]);
    assert(t[4 * other + 1] == s[4 * other + 1]);
    assert(t[4 * other + 2] == s[4 * other + 2]);
    assert(t[4 * other + 3] == s[4 * other + 3]);
}

/// A directory entry made from a name of at most 27 bytes (UTF-8, with no
/// zero byte) and an inode number gives both back.
pub proof fn law_direntry_roundtrip(name: Seq<u8>, ino: u16)
    requires
        name.len() <= 27,
        forall|i: int| 0 <= i < name.len() ==> name[i] != 0,
        valid_utf8(name),
    ensures
        entry_name_of(stored_name(name) + u16_le(ino) + seq![0u8, 0u8]) == name,
        le_u16(stored_name(name) + u16_le(ino) + seq![0u8, 0u8], 28) == ino,
{
    let d = stored_name(name) + u16_le(ino) + seq![0u8, 0u8];
    let n = name.len() as int;
    assert(d.subrange(0, 28) =~= stored_name(name));
    assert(name.subrange(0, n) =~= name);
    lemma_prefix_before_zero(d.subrange(0, 28), n);
    assert(d.subrange(0, 28).subrange(0, n) =~= name);
    crate::bytes::lemma_le_u16_of_u16_le(ino);
    assert(d.subrange(28, 30) =~= u16_le(ino));
    assert(le_u16(d, 28) == le_u16(u16_le(ino), 0));
}

/// The bitmap block exists, it and the block of inode `idx` are distinct
/// and lie before the data area, inode `idx` can be read, and every block
/// holds 512 bytes.
pub open spec fn layout_sane(disk: Seq<Seq<u8>>, sb: Superblock, idx: int) -> bool {
    &&& 0 <= idx
    &&& sb.spec_bitmap_start() < disk.len()
    &&& sb.spec_bitmap_start() < sb.spec_data_start()
    &&& inode_block_of(sb, idx) < sb.spec_data_start()
    &&& sb.spec_bitmap_start() != inode_block_of(sb, idx)
    &&& readable_in(disk, sb, idx)
    &&& forall|i: int| 0 <= i < disk.len() ==> #[trigger] disk[i].len() == 512
}

/// The direct slots of inode bytes `ino` agree with the bitmap of `disk`:
/// every used slot names a data block within the bitmap's 4096 whose bit is
/// set, and no two used slots name the same block.
pub open spec fn slots_consistent(disk: Seq<Seq<u8>>, sb: Superblock, ino: Seq<u8>) -> bool {
    &&& ino.len() == 32
    &&& forall|b: int|
        0 <= b < 10 && #[trigger] ino_direct(ino, b) != 0 ==> ino_direct(ino, b) <= 4096 && bitmap_bit(
            bitmap_in(disk, sb),
            ino_direct(ino, b) - 1,
        )
    &&& forall|b1: int, b2: int|
        0 <= b1 < 10 && 0 <= b2 < 10 && b1 != b2 && #[trigger] ino_direct(ino, b1) != 0 ==> ino_direct(ino, b1)
            != #[trigger] ino_direct(ino, b2)
}

/// Bytes `0..t` of `buf` stand at positions `p..p + t` of the file with
/// inode bytes `ino`, each in a used slot among the ten whose block exists.
pub open spec fn bytes_in_place(disk: Seq<Seq<u8>>, sb: Superblock, ino: Seq<u8>, buf: Seq<u8>, p: int, t: int) -> bool {
    forall|k: int| 0 <= k < t ==> #[trigger] byte_in_place(disk, sb, ino, buf, p, k)
}

/// Byte `k` of `buf` stands at position `p + k` of the file with inode
/// bytes `ino`, in a used slot among the ten whose block exists.
pub open spec fn byte_in_place(disk: Seq<Seq<u8>>, sb: Superblock, ino: Seq<u8>, buf: Seq<u8>, p: int, k: int) -> bool {
    let b = (p + k) / 512;
    &&& b < 10
    &&& ino_direct(ino, b) != 0
    &&& data_block_of(sb, ino_direct(ino, b)) < disk.len()
    &&& disk[data_block_of(sb, ino_direct(ino, b))][(p + k) % 512] == buf[k]
}

/// Splicing two bytes at `5 + 2 * b` sets slot `b` and leaves the others.
proof fn lemma_set_slot(ino: Seq<u8>, b: int, rel: u16)
    requires
        ino.len() == 32,
        0 <= b < 10,
    ensures
        splice(ino, 5 + 2 * b, u16_le(rel)).len() == 32,
        ino_direct(splice(ino, 5 + 2 * b, u16_le(rel)), b) == rel,
        forall|c: int| 0 <= c < 10 && c != b ==> #[trigger] ino_direct(splice(ino, 5 + 2 * b, u16_le(rel)), c) == ino_direct(ino, c),
{
    let t = splice(ino, 5 + 2 * b, u16_le(rel));
    crate::bytes::lemma_le_u16_of_u16_le(rel);
    assert(t.subrange(5 + 2 * b, 7 + 2 * b) =~= u16_le(rel));
    assert(le_u16(t, 5 + 2 * b) == le_u16(u16_le(rel), 0));
    assert forall|c: int| 0 <= c < 10 && c != b implies #[trigger] ino_direct(t, c) == ino_direct(ino, c) by {
        assert(t[5 + 2 * c] == ino[5 + 2 * c]);
        assert(t[6 + 2 * c] == ino[6 + 2 * c]);
    }
}

/// Writing from state `st` on keeps the layout and the slots consistent,
/// and leaves every byte of `buf` written so far in place.
proof fn lemma_write_from_places(sb: Superblock, idx: int, buf: Seq<u8>, p: int, st: WriteState)
    requires
        layout_sane(st.disk, sb, idx),
        slots_consistent(st.disk, sb, st.ino),
        p >= 0,
        0 <= st.done <= buf.len(),
        st.pos == p + st.done,
        bytes_in_place(st.disk, sb, st.ino, buf, p, st.done),
    ensures
        ({
            let (res, fin) = write_from(sb, idx, buf, st);
            &&& layout_sane(fin.disk, sb, idx)
            &&& slots_consistent(fin.disk, sb, fin.ino)
            &&& fin.pos == p + fin.done
            &&& st.done <= fin.done <= buf.len()
            &&& bytes_in_place(fin.disk, sb, fin.ino, buf, p, fin.done)
        }),
    decreases buf.len() - st.done,
{
    let disk = st.disk;
    let ino = st.ino;
    let pos = st.pos;
    let t = st.done;
    if t >= buf.len() || t < 0 || pos < 0 {
        return;
    }
    let b = pos / 512;
    if b >= 10 {
        return;
    }
    let slot = ino_direct(ino, b);
    let bm = bitmap_in(disk, sb);
    let limit = alloc_limit_of(sb);
    if slot == 0 && sb.spec_bitmap_start() >= disk.len() {
        return;
    }
    if slot == 0 && !has_clear_bit(bm, limit) {
        return;
    }
    let fb = the_first_clear_bit(bm, limit);
    let rel = if slot == 0 {
        fb + 1
    } else {
        slot
    };
    let disk1 = if slot == 0 {
        set_bit_in(disk, sb, fb)
    } else {
        disk
    };
    let ino1 = if slot == 0 {
        splice(ino, 5 + 2 * b, u16_le(rel as u16))
    } else {
        ino
    };
    if slot == 0 {
        lemma_first_clear_bit(bm, limit);
        law_allocate_then_free_restores(disk, sb, fb);
        lemma_set_slot(ino, b, rel as u16);
        assert(disk1.len() == disk.len());
        assert forall|i: int| 0 <= i < disk1.len() implies #[trigger] disk1[i].len() == 512 by {
            if i != sb.spec_bitmap_start() {
                assert(disk1[i] == disk[i]);
            }
        }
        assert forall|c: int| 0 <= c < 10 && #[trigger] ino_direct(ino1, c) != 0 implies ino_direct(ino1, c) <= 4096
            && bitmap_bit(bitmap_in(disk1, sb), ino_direct(ino1, c) - 1) by {
            if c != b {
                assert(ino_direct(ino1, c) == ino_direct(ino, c));
                assert(bitmap_bit(bm, ino_direct(ino, c) - 1));
                assert(ino_direct(ino, c) - 1 != fb);
            }
        }
        assert forall|b1: int, b2: int|
            0 <= b1 < 10 && 0 <= b2 < 10 && b1 != b2 && #[trigger] ino_direct(ino1, b1) != 0 implies ino_direct(ino1, b1)
            != #[trigger] ino_direct(ino1, b2) by {
            if b1 == b {
                assert(ino_direct(ino1, b2) == ino_direct(ino, b2));
                if ino_direct(ino, b2) != 0 {
                    assert(bitmap_bit(bm, ino_direct(ino, b2) - 1));
                }
            } else if b2 == b {
                assert(ino_direct(ino1, b1) == ino_direct(ino, b1));
                assert(bitmap_bit(bm, ino_direct(ino, b1) - 1));
            } else {
                assert(ino_direct(ino1, b1) == ino_direct(ino, b1));
                assert(ino_direct(ino1, b2) == ino_direct(ino, b2));
            }
        }
        assert forall|k: int| 0 <= k < t implies #[trigger] byte_in_place(disk1, sb, ino1, buf, p, k) by {
            let bk = (p + k) / 512;
            assert(byte_in_place(disk, sb, ino, buf, p, k));
            assert(ino_direct(ino, bk) != 0);
            assert(bk != b);
            assert(ino_direct(ino1, bk) == ino_direct(ino, bk));
        }
    }
    assert(layout_sane(disk1, sb, idx));
    assert(slots_consistent(disk1, sb, ino1));
    assert(bytes_in_place(disk1, sb, ino1, buf, p, t));
    if slot == 0 && inode_block_of(sb, idx) >= disk.len() {
        return;
    }
    let disk2 = if slot == 0 {
        put_inode(disk1, sb, idx, ino1)
    } else {
        disk1
    };
    if slot == 0 {
        let ib = inode_block_of(sb, idx);
        assert(inode_slot(idx) + 32 <= 512);
        assert forall|i: int| 0 <= i < disk2.len() implies #[trigger] disk2[i].len() == 512 by {
            if i != ib {
                assert(disk2[i] == disk1[i]);
            }
        }
        assert(bitmap_in(disk2, sb) == bitmap_in(disk1, sb));
        assert forall|k: int| 0 <= k < t implies #[trigger] byte_in_place(disk2, sb, ino1, buf, p, k) by {
            let bk = (p + k) / 512;
            assert(byte_in_place(disk1, sb, ino1, buf, p, k));
            assert(data_block_of(sb, ino_direct(ino1, bk)) != ib);
        }
    }
    assert(layout_sane(disk2, sb, idx));
    assert(slots_consistent(disk2, sb, ino1));
    assert(bytes_in_place(disk2, sb, ino1, buf, p, t));
    let blk = data_block_of(sb, rel);
    let off = pos % 512;
    if blk >= disk.len() {
        return;
    }
    let base = if off > 0 || buf.len() - t < 512 {
        disk2[blk]
    } else {
        Seq::new(512, |_j: int| 0u8)
    };
    let count = if buf.len() - t < 512 - off {
        buf.len() - t
    } else {
        512 - off
    };
    let chunk = buf.subrange(t, t + count);
    let disk3 = disk2.update(blk, splice(base, off, chunk));
    assert(ino_direct(ino1, b) == rel);
    assert(rel >= 1);
    assert(disk3.len() == disk.len());
    assert forall|i: int| 0 <= i < disk3.len() implies #[trigger] disk3[i].len() == 512 by {
        if i != blk {
            assert(disk3[i] == disk2[i]);
        }
    }
    assert(bitmap_in(disk3, sb) == bitmap_in(disk2, sb));
    assert(layout_sane(disk3, sb, idx));
    assert(slots_consistent(disk3, sb, ino1));
    assert forall|k: int| 0 <= k < t + count implies #[trigger] byte_in_place(disk3, sb, ino1, buf, p, k) by {
        let bk = (p + k) / 512;
        if k < t {
            assert(byte_in_place(disk2, sb, ino1, buf, p, k));
            assert(ino_direct(ino1, bk) != 0);
            if bk == b {
                assert((p + k) % 512 < off);
                assert(off > 0);
                assert(splice(base, off, chunk)[(p + k) % 512] == base[(p + k) % 512]);
            } else {
                assert(ino_direct(ino1, bk) != ino_direct(ino1, b));
            }
        } else {
            let j = k - t;
            assert(p + k == pos + j);
            assert(0 <= j < count);
            assert(off + count <= 512);
            assert(bk == b);
            assert((p + k) % 512 == off + j);
            assert(base.len() == 512);
            assert(splice(base, off, chunk)[off + j] == chunk[j]);
            assert(chunk[j] == buf[k]);
            assert(disk3[blk] == splice(base, off, chunk));
        }
    }
    assert(bytes_in_place(disk3, sb, ino1, buf, p, t + count));
    lemma_write_from_places(
        sb,
        idx,
        buf,
        p,
        WriteState { disk: disk3, ino: ino1, pos: pos + count, done: t + count },
    );
}

/// Data block `r` is used by the bitmap of `disk` and named by no slot of
/// inode bytes `ino`.
pub open spec fn guarded(disk: Seq<Seq<u8>>, sb: Superblock, ino: Seq<u8>, r: int) -> bool {
    &&& 1 <= r <= 4096
    &&& bitmap_bit(bitmap_in(disk, sb), r - 1)
    &&& forall|k: int| 0 <= k < 10 ==> #[trigger] ino_direct(ino, k) != r
}

/// Writing a file changes no data block that the bitmap marks used and the
/// file does not hold, clears no bitmap bit, and leaves every other inode
/// before the data area as it was.
proof fn lemma_write_from_frame(sb: Superblock, idx: int, buf: Seq<u8>, st: WriteState)
    requires
        layout_sane(st.disk, sb, idx),
        st.ino.len() == 32,
    ensures
        ({
            let fin = write_from(sb, idx, buf, st).1;
            &&& fin.disk.len() == st.disk.len()
            &&& layout_sane(fin.disk, sb, idx)
            &&& fin.ino.len() == 32
            &&& fin.ino[0] == st.ino[0]
            &&& ino_size(fin.ino) == ino_size(st.ino)
            &&& forall|r: int|
                #[trigger] guarded(st.disk, sb, st.ino, r) && data_block_of(sb, r) < st.disk.len()
                    ==> fin.disk[data_block_of(sb, r)] == st.disk[data_block_of(sb, r)]
            &&& forall|i: int|
                0 <= i < 4096 && #[trigger] bitmap_bit(bitmap_in(st.disk, sb), i) ==> bitmap_bit(
                    bitmap_in(fin.disk, sb),
                    i,
                )
            &&& forall|j: int|
                0 <= j && j != idx && inode_block_of(sb, j) < st.disk.len() && inode_block_of(sb, j)
                    < sb.spec_data_start() && inode_block_of(sb, j) != sb.spec_bitmap_start() ==> #[trigger] inode_in(
                    fin.disk,
                    sb,
                    j,
                ) == inode_in(st.disk, sb, j)
        }),
    decreases buf.len() - st.done,
{
    let disk = st.disk;
    let ino = st.ino;
    let pos = st.pos;
    let t = st.done;
    if t >= buf.len() || t < 0 || pos < 0 {
        return;
    }
    let b = pos / 512;
    if b >= 10 {
        return;
    }
    let slot = ino_direct(ino, b);
    let bm = bitmap_in(disk, sb);
    let limit = alloc_limit_of(sb);
    if slot == 0 && sb.spec_bitmap_start() >= disk.len() {
        return;
    }
    if slot == 0 && !has_clear_bit(bm, limit) {
        return;
    }
    let fb = the_first_clear_bit(bm, limit);
    let rel = if slot == 0 {
        fb + 1
    } else {
        slot
    };
    let disk1 = if slot == 0 {
        set_bit_in(disk, sb, fb)
    } else {
        disk
    };
    let ino1 = if slot == 0 {
        splice(ino, 5 + 2 * b, u16_le(rel as u16))
    } else {
        ino
    };
    if slot == 0 {
        lemma_first_clear_bit(bm, limit);
        law_allocate_then_free_restores(disk, sb, fb);
        lemma_set_slot(ino, b, rel as u16);
        assert forall|i: int| 0 <= i < disk1.len() implies #[trigger] disk1[i].len() == 512 by {
            if i != sb.spec_bitmap_start() {
                assert(disk1[i] == disk[i]);
            }
        }
        assert forall|j: int|
            0 <= j && j != idx && inode_block_of(sb, j) < disk.len() && inode_block_of(sb, j) < sb.spec_data_start()
                && inode_block_of(sb, j) != sb.spec_bitmap_start() implies #[trigger] inode_in(disk1, sb, j)
            == inode_in(disk, sb, j) by {
            assert(disk1[inode_block_of(sb, j)] == disk[inode_block_of(sb, j)]);
        }
    }
    assert(layout_sane(disk1, sb, idx));
    if slot == 0 && inode_block_of(sb, idx) >= disk.len() {
        return;
    }
    let disk2 = if slot == 0 {
        put_inode(disk1, sb, idx, ino1)
    } else {
        disk1
    };
    let ib = inode_block_of(sb, idx);
    if slot == 0 {
        assert(inode_slot(idx) + 32 <= 512);
        assert forall|i: int| 0 <= i < disk2.len() implies #[trigger] disk2[i].len() == 512 by {
            if i != ib {
                assert(disk2[i] == disk1[i]);
            }
        }
        assert(bitmap_in(disk2, sb) == bitmap_in(disk1, sb));
        assert forall|j: int|
            0 <= j && j != idx && inode_block_of(sb, j) < disk.len() && inode_block_of(sb, j) < sb.spec_data_start()
                && inode_block_of(sb, j) != sb.spec_bitmap_start() implies #[trigger] inode_in(disk2, sb, j)
            == inode_in(disk1, sb, j) by {
            law_inode_write_then_read(disk1, sb, idx, ino1);
        }
    }
    assert(layout_sane(disk2, sb, idx));
    let blk = data_block_of(sb, rel);
    let off = pos % 512;
    if blk >= disk.len() {
        return;
    }
    let base = if off > 0 || buf.len() - t < 512 {
        disk2[blk]
    } else {
        Seq::new(512, |_j: int| 0u8)
    };
    let count = if buf.len() - t < 512 - off {
        buf.len() - t
    } else {
        512 - off
    };
    let chunk = buf.subrange(t, t + count);
    let disk3 = disk2.update(blk, splice(base, off, chunk));
    assert(rel >= 1);
    assert(disk3.len() == disk.len());
    assert forall|i: int| 0 <= i < disk3.len() implies #[trigger] disk3[i].len() == 512 by {
        if i != blk {
            assert(disk3[i] == disk2[i]);
        }
    }
    assert(bitmap_in(disk3, sb) == bitmap_in(disk2, sb));
    assert(layout_sane(disk3, sb, idx));
    let nxt = WriteState { disk: disk3, ino: ino1, pos: pos + count, done: t + count };
    lemma_write_from_frame(sb, idx, buf, nxt);
    assert(write_from(sb, idx, buf, st).1 == write_from(sb, idx, buf, nxt).1);
    if slot == 0 {
        assert(ino1[0] == ino[0] && ino1[1] == ino[1] && ino1[2] == ino[2] && ino1[3] == ino[3] && ino1[4] == ino[4]);
    }
    assert forall|r: int| #[trigger] guarded(disk, sb, ino, r) && data_block_of(sb, r) < disk.len() implies guarded(
        disk3,
        sb,
        ino1,
        r,
    ) && disk3[data_block_of(sb, r)] == disk[data_block_of(sb, r)] by {
        assert(ino_direct(ino, b) != r);
        if slot == 0 {
            assert(r - 1 != fb);
            assert forall|k: int| 0 <= k < 10 implies #[trigger] ino_direct(ino1, k) != r by {
                if k != b {
                    assert(ino_direct(ino1, k) == ino_direct(ino, k));
                }
            }
        }
        assert(r != rel);
        let x = data_block_of(sb, r);
        assert(x != blk);
        assert(x != ib);
        assert(disk3[x] == disk2[x]);
        assert(disk2[x] == disk1[x]);
    }
    assert forall|i: int| 0 <= i < 4096 && #[trigger] bitmap_bit(bm, i) implies bitmap_bit(bitmap_in(disk3, sb), i) by {
        if slot == 0 {
            assert(i != fb);
        }
    }
    assert forall|j: int|
        0 <= j && j != idx && inode_block_of(sb, j) < disk.len() && inode_block_of(sb, j) < sb.spec_data_start()
            && inode_block_of(sb, j) != sb.spec_bitmap_start() implies #[trigger] inode_in(disk3, sb, j) == inode_in(
        disk,
        sb,
        j,
    ) by {
        assert(disk3[inode_block_of(sb, j)] == disk2[inode_block_of(sb, j)]);
        assert(inode_in(disk3, sb, j) == inode_in(disk2, sb, j));
    }
}

/// Reading from `pos` towards `end` reaches `end` where every byte in
/// between is in place.
proof fn lemma_read_reaches(disk: Seq<Seq<u8>>, sb: Superblock, ino: Seq<u8>, buf: Seq<u8>, p: int, pos: int, end: int)
    requires
        0 <= p <= pos <= end,
        bytes_in_place(disk, sb, ino, buf, p, end - p),
    ensures
        read_stop(disk, sb, ino, pos, end) == Ok::<int, FsError>(end),
    decreases end - pos,
{
    if pos < end {
        assert(byte_in_place(disk, sb, ino, buf, p, pos - p));
        let b = pos / 512;
        let next = if end < (b + 1) * 512 {
            end
        } else {
            (b + 1) * 512
        };
        lemma_read_reaches(disk, sb, ino, buf, p, next, end);
    }
}

/// What a read gives back of a write: once `TmpFile::write` from position
/// `p` has written `n` bytes of `buf` (`n` is what it reports), the file
/// holds at least `p + n` bytes, reading from `p` towards `p + n` reaches
/// `p + n`, and byte `p + k` of the file is byte `k` of `buf` for every
/// `k < n`. The file stays consistent, so later writes are covered too.
///
/// This holds of a consistent file system: the bitmap block exists, it and
/// the file's inode lie in separate blocks before the data area, every
/// block holds 512 bytes, and the file's used slots name distinct blocks
/// that the bitmap marks used.
pub proof fn law_file_write_then_read(disk: Seq<Seq<u8>>, sb: Superblock, idx: int, buf: Seq<u8>, p: int)
    requires
        layout_sane(disk, sb, idx),
        slots_consistent(disk, sb, inode_in(disk, sb, idx)),
        p >= 0,
    ensures
        ({
            let (res, st) = write_from(
                sb,
                idx,
                buf,
                WriteState { disk, ino: inode_in(disk, sb, idx), pos: p, done: 0 },
            );
            let size = if ino_size(st.ino) < st.pos {
                st.pos
            } else {
                ino_size(st.ino)
            };
            let after = put_inode(st.disk, sb, idx, splice(st.ino, 1, u32_le(size as u32)));
            let ino = inode_in(after, sb, idx);
            res is Ok ==> {
                &&& readable_in(after, sb, idx)
                &&& layout_sane(after, sb, idx)
                &&& slots_consistent(after, sb, ino)
                &&& st.pos == p + st.done
                &&& (st.done > 0 ==> p + st.done <= ino_size(ino))
                &&& read_stop(after, sb, ino, p, p + st.done) == Ok::<int, FsError>(p + st.done)
                &&& forall|k: int| 0 <= k < st.done ==> file_byte(after, sb, ino, p + k) == buf[k]
            }
        }),
{
    let ino0 = inode_in(disk, sb, idx);
    let st0 = WriteState { disk, ino: ino0, pos: p, done: 0 };
    lemma_write_from_places(sb, idx, buf, p, st0);
    let (res, st) = write_from(sb, idx, buf, st0);
    let size = if ino_size(st.ino) < st.pos {
        st.pos
    } else {
        ino_size(st.ino)
    };
    let ino2 = splice(st.ino, 1, u32_le(size as u32));
    let after = put_inode(st.disk, sb, idx, ino2);
    let ib = inode_block_of(sb, idx);
    assert(ino2.len() == 32);
    law_inode_write_then_read(st.disk, sb, idx, ino2);
    assert(inode_in(after, sb, idx) == ino2);
    assert forall|c: int| 0 <= c < 10 implies #[trigger] ino_direct(ino2, c) == ino_direct(st.ino, c) by {
        assert(ino2[5 + 2 * c] == st.ino[5 + 2 * c]);
        assert(ino2[6 + 2 * c] == st.ino[6 + 2 * c]);
    }
    assert forall|k: int| 0 <= k < st.done implies #[trigger] byte_in_place(after, sb, ino2, buf, p, k) by {
        assert(byte_in_place(st.disk, sb, st.ino, buf, p, k));
        let bk = (p + k) / 512;
        assert(data_block_of(sb, ino_direct(st.ino, bk)) != ib);
        assert(after[data_block_of(sb, ino_direct(st.ino, bk))] == st.disk[data_block_of(sb, ino_direct(st.ino, bk))]);
    }
    lemma_read_reaches(after, sb, ino2, buf, p, p, p + st.done);
    assert(bitmap_in(after, sb) == bitmap_in(st.disk, sb));
    assert forall|x: int| 0 <= x < after.len() implies #[trigger] after[x].len() == 512 by {
        if x != ib {
            assert(after[x] == st.disk[x]);
        }
    }
    if st.done > 0 {
        assert(byte_in_place(st.disk, sb, st.ino, buf, p, st.done - 1));
        assert(size <= u32::MAX);
        crate::bytes::lemma_le_u32_of_u32_le(size as u32);
        assert(ino2.subrange(1, 5) =~= u32_le(size as u32));
        assert(ino_size(ino2) == le_u32(u32_le(size as u32), 0));
    }
    assert forall|k: int| 0 <= k < st.done implies file_byte(after, sb, ino2, p + k) == buf[k] by {
        assert(byte_in_place(after, sb, ino2, buf, p, k));
    }
}

/// Directory `dir` of `disk` is as the laws on creating and linking need
/// it: the layout is sane, its used slots agree with the bitmap and cover
/// its size, and its size is a whole number of entries.
pub open spec fn dir_consistent(disk: Seq<Seq<u8>>, sb: Superblock, dir: int) -> bool {
    &&& layout_sane(disk, sb, dir)
    &&& slots_consistent(disk, sb, inode_in(disk, sb, dir))
    &&& dir_blocks_allocated(inode_in(disk, sb, dir))
    &&& ino_size(inode_in(disk, sb, dir)) % 32 == 0
}

/// Every block that directory inode `ino` spans has a data block.
pub open spec fn dir_blocks_allocated(ino: Seq<u8>) -> bool {
    forall|b: int| 0 <= b < blocks_spanned(ino_size(ino)) && b < 10 ==> #[trigger] ino_direct(ino, b) != 0
}

/// A name that an entry can hold and give back: one to 27 bytes of UTF-8
/// with no zero byte.
pub open spec fn storable_name(name: Seq<u8>) -> bool {
    &&& 0 < name.len() <= 27
    &&& forall|i: int| 0 <= i < name.len() ==> name[i] != 0
    &&& valid_utf8(name)
}

/// Looking a name up among whole blocks' worth of entries does not depend
/// on how far past the block the directory goes.
proof fn lemma_find_in_full_block(blk: Seq<u8>, r1: int, r2: int, name: Seq<u8>, e: int)
    requires
        r1 >= 512,
        r2 >= 512,
    ensures
        find_in_block(blk, r1, name, e) == find_in_block(blk, r2, name, e),
    decreases 16 - e,
{
    if 0 <= e < 16 {
        lemma_find_in_full_block(blk, r1, r2, name, e + 1);
    }
}

/// After the entry `ent` for `name` is written at byte `off` of a block
/// whose entries before `off` do not hold `name`, looking `name` up in the
/// block, with the entry counted in, finds the entry's inode.
proof fn lemma_find_new_entry(old: Seq<u8>, off: int, ent: Seq<u8>, name: Seq<u8>, child: u16, e: int)
    requires
        old.len() == 512,
        ent.len() == 32,
        0 <= off <= 480,
        off % 32 == 0,
        0 <= e <= off / 32,
        ent[0] != 0,
        entry_name_of(ent) == name,
        le_u16(ent, 28) == child,
        off == 0 || find_in_block(old, off, name, e) is None,
    ensures
        find_in_block(splice(old, off, ent), off + 32, name, e) == Some(child),
    decreases off / 32 - e,
{
    let new = splice(old, off, ent);
    if e < off / 32 {
        assert(new.subrange(e * 32, e * 32 + 32) =~= old.subrange(e * 32, e * 32 + 32));
        lemma_find_new_entry(old, off, ent, name, child, e + 1);
    } else {
        assert(e * 32 == off);
        assert(new.subrange(e * 32, e * 32 + 32) =~= ent);
    }
}

/// The blocks of directory inode `ino` before the one at its size keep
/// their slots in `ino2` and their contents in `dnew`.
pub open spec fn early_blocks_kept(disk: Seq<Seq<u8>>, dnew: Seq<Seq<u8>>, sb: Superblock, ino: Seq<u8>, ino2: Seq<u8>) -> bool {
    forall|c: int|
        0 <= c < ino_size(ino) / 512 ==> #[trigger] ino_direct(ino2, c) == ino_direct(ino, c) && (data_block_of(
            sb,
            ino_direct(ino, c),
        ) < disk.len() ==> dnew[data_block_of(sb, ino_direct(ino, c))] == disk[data_block_of(sb, ino_direct(ino, c))])
}

/// Looking `name` up from block `b` on, in a directory that grew by one
/// entry for `name` at its old size and kept its earlier blocks, finds the
/// new entry's inode where the old directory held no `name`.
/// Writing an entry at `off` leaves what lookup finds before `off`.
proof fn lemma_find_spliced_other(old: Seq<u8>, off: int, ent: Seq<u8>, n: Seq<u8>, e: int)
    requires
        old.len() == 512,
        ent.len() == 32,
        0 <= off <= 480,
        off % 32 == 0,
        0 <= e,
        find_in_block(old, off, n, e) is Some,
    ensures
        find_in_block(splice(old, off, ent), off + 32, n, e) == find_in_block(old, off, n, e),
    decreases 16 - e,
{
    let new = splice(old, off, ent);
    if e < 16 && e * 32 < off {
        assert(new.subrange(e * 32, e * 32 + 32) =~= old.subrange(e * 32, e * 32 + 32));
        let ent_e = old.subrange(e * 32, e * 32 + 32);
        if !(ent_e[0] != 0 && entry_name_of(ent_e) == n) {
            lemma_find_spliced_other(old, off, ent, n, e + 1);
        }
    }
}

/// Looking up a name that a directory held before an entry was added at its
/// end finds the same inode afterwards.
proof fn lemma_find_from_added_other(
    disk: Seq<Seq<u8>>,
    dnew: Seq<Seq<u8>>,
    sb: Superblock,
    ino: Seq<u8>,
    ino2: Seq<u8>,
    oldb: Seq<u8>,
    ent: Seq<u8>,
    n: Seq<u8>,
    b: int,
)
    requires
        0 <= b <= ino_size(ino) / 512,
        ino_size(ino) / 512 < 10,
        ino_size(ino) % 32 == 0,
        ino_size(ino2) == ino_size(ino) + 32,
        dir_blocks_allocated(ino),
        dnew.len() == disk.len(),
        early_blocks_kept(disk, dnew, sb, ino, ino2),
        ino_direct(ino2, ino_size(ino) / 512) != 0,
        data_block_of(sb, ino_direct(ino2, ino_size(ino) / 512)) < dnew.len(),
        dnew[data_block_of(sb, ino_direct(ino2, ino_size(ino) / 512))] == splice(oldb, ino_size(ino) % 512, ent),
        oldb.len() == 512,
        ino_size(ino) % 512 > 0 ==> ino_direct(ino, ino_size(ino) / 512) == ino_direct(ino2, ino_size(ino) / 512)
            && (data_block_of(sb, ino_direct(ino, ino_size(ino) / 512)) < disk.len() ==> oldb == disk[data_block_of(
            sb,
            ino_direct(ino, ino_size(ino) / 512),
        )]),
        ent.len() == 32,
        find_from(disk, sb, ino, n, b) is Ok,
    ensures
        find_from(dnew, sb, ino2, n, b) == find_from(disk, sb, ino, n, b),
    decreases ino_size(ino) / 512 - b,
{
    let size = ino_size(ino);
    let bidx = size / 512;
    let off = size % 512;
    assert(off % 32 == 0 && off <= 480) by {
        assert(size == 512 * bidx + off);
    }
    assert(blocks_spanned(size + 32) > b);
    if b < bidx {
        assert(blocks_spanned(size) > b);
        let rel = ino_direct(ino, b);
        assert(rel != 0);
        assert(ino_direct(ino2, b) == rel);
        let db = data_block_of(sb, rel);
        assert(db < disk.len());
        lemma_find_in_full_block(disk[db], size - b * 512, size + 32 - b * 512, n, 0);
        if find_in_block(disk[db], size - b * 512, n, 0) is None {
            lemma_find_from_added_other(disk, dnew, sb, ino, ino2, oldb, ent, n, b + 1);
        }
    } else {
        assert(b == bidx);
        let rel = ino_direct(ino2, b);
        let db = data_block_of(sb, rel);
        assert(size + 32 - b * 512 == off + 32);
        if off > 0 {
            assert(blocks_spanned(size) > b);
            assert(ino_direct(ino, b) == rel);
            assert(db < disk.len());
            assert(oldb == disk[db]);
            assert(size - b * 512 == off);
            assert(blocks_spanned(size) == b + 1);
            if find_in_block(oldb, off, n, 0) is None {
                assert(find_from(disk, sb, ino, n, b + 1) == Err::<u16, FsError>(FsError::FileNotFound));
            }
            lemma_find_spliced_other(oldb, off, ent, n, 0);
        } else {
            assert(blocks_spanned(size) == b);
        }
    }
}

proof fn lemma_find_from_added(
    disk: Seq<Seq<u8>>,
    dnew: Seq<Seq<u8>>,
    sb: Superblock,
    ino: Seq<u8>,
    ino2: Seq<u8>,
    oldb: Seq<u8>,
    ent: Seq<u8>,
    name: Seq<u8>,
    child: u16,
    b: int,
)
    requires
        0 <= b <= ino_size(ino) / 512,
        ino_size(ino) / 512 < 10,
        ino_size(ino) % 32 == 0,
        ino_size(ino2) == ino_size(ino) + 32,
        dir_blocks_allocated(ino),
        dnew.len() == disk.len(),
        early_blocks_kept(disk, dnew, sb, ino, ino2),
        ino_direct(ino2, ino_size(ino) / 512) != 0,
        data_block_of(sb, ino_direct(ino2, ino_size(ino) / 512)) < dnew.len(),
        dnew[data_block_of(sb, ino_direct(ino2, ino_size(ino) / 512))] == splice(oldb, ino_size(ino) % 512, ent),
        oldb.len() == 512,
        ino_size(ino) % 512 > 0 ==> ino_direct(ino, ino_size(ino) / 512) == ino_direct(ino2, ino_size(ino) / 512)
            && (data_block_of(sb, ino_direct(ino, ino_size(ino) / 512)) < disk.len() ==> oldb == disk[data_block_of(
            sb,
            ino_direct(ino, ino_size(ino) / 512),
        )]),
        ent.len() == 32,
        ent[0] != 0,
        entry_name_of(ent) == name,
        le_u16(ent, 28) == child,
        find_from(disk, sb, ino, name, b) == Err::<u16, FsError>(FsError::FileNotFound),
    ensures
        find_from(dnew, sb, ino2, name, b) == Ok::<u16, FsError>(child),
    decreases ino_size(ino) / 512 - b,
{
    let size = ino_size(ino);
    let bidx = size / 512;
    let off = size % 512;
    assert(off % 32 == 0 && off <= 480) by {
        assert(size == 512 * bidx + off);
    }
    assert(blocks_spanned(size + 32) > b);
    if b < bidx {
        assert(blocks_spanned(size) > b);
        let rel = ino_direct(ino, b);
        assert(rel != 0);
        assert(ino_direct(ino2, b) == rel);
        let db = data_block_of(sb, rel);
        assert(db < disk.len());
        assert(find_in_block(disk[db], size - b * 512, name, 0) is None);
        lemma_find_in_full_block(disk[db], size - b * 512, size + 32 - b * 512, name, 0);
        lemma_find_from_added(disk, dnew, sb, ino, ino2, oldb, ent, name, child, b + 1);
    } else {
        assert(b == bidx);
        let rel = ino_direct(ino2, b);
        let db = data_block_of(sb, rel);
        assert(size + 32 - b * 512 == off + 32);
        if off > 0 {
            assert(blocks_spanned(size) > b);
            assert(ino_direct(ino, b) == rel);
            assert(db < disk.len());
            assert(oldb == disk[db]);
            assert(size - b * 512 == off);
        }
        lemma_find_new_entry(oldb, off, ent, name, child, 0);
    }
}

/// The direct slot that holds the block an entry added to `dir` went into:
/// the one at the directory's old size, read after the addition.
pub open spec fn entry_slot(disk: Seq<Seq<u8>>, d: Seq<Seq<u8>>, sb: Superblock, dir: int) -> int {
    ino_direct(inode_in(d, sb, dir), ino_size(inode_in(disk, sb, dir)) / 512)
}

/// Adding an entry to a directory whose inode lies before the data area
/// changes one data block: the one in the slot at the directory's old size,
/// which it already held or which was free in the bitmap. Its other slots
/// stay, and no bitmap bit is cleared.
#[verifier::rlimit(100)]
pub proof fn law_add_entry_changes_one_block(disk: Seq<Seq<u8>>, sb: Superblock, dir: int, name: Seq<u8>, child: u16)
    requires
        layout_sane(disk, sb, dir),
    ensures
        add_entry_outcome_in(disk, sb, dir, name, child).0 is Ok ==> {
            let d = add_entry_outcome_in(disk, sb, dir, name, child).1;
            let ino = inode_in(disk, sb, dir);
            &&& entry_slot(disk, d, sb, dir) == ino_direct(ino, ino_size(ino) / 512) || (ino_direct(
                ino,
                ino_size(ino) / 512,
            ) == 0 && !bitmap_bit(bitmap_in(disk, sb), entry_slot(disk, d, sb, dir) - 1))
            &&& forall|x: int|
                sb.spec_data_start() <= x < disk.len() && x != data_block_of(sb, entry_slot(disk, d, sb, dir))
                    ==> #[trigger] d[x] == disk[x]
            &&& forall|k: int|
                0 <= k < 10 && k != ino_size(ino) / 512 ==> #[trigger] ino_direct(inode_in(d, sb, dir), k)
                    == ino_direct(ino, k)
            &&& forall|i: int|
                0 <= i < 4096 && #[trigger] bitmap_bit(bitmap_in(disk, sb), i) ==> bitmap_bit(bitmap_in(d, sb), i)
        },
{
    reveal(add_entry_outcome_in);
    let ino = inode_in(disk, sb, dir);
    let size = ino_size(ino);
    let bidx = size / 512;
    let slot = ino_direct(ino, bidx);
    let bm = bitmap_in(disk, sb);
    let limit = alloc_limit_of(sb);
    let out = add_entry_outcome_in(disk, sb, dir, name, child);
    if out.0 is Ok {
        assert(bidx < 10);
        let fb = the_first_clear_bit(bm, limit);
        let rel = if slot == 0 {
            fb + 1
        } else {
            slot
        };
        let d1 = if slot == 0 {
            set_bit_in(disk, sb, fb)
        } else {
            disk
        };
        let mid = if slot == 0 {
            splice(ino, 5 + 2 * bidx, u16_le(rel as u16))
        } else {
            ino
        };
        let d2 = if slot == 0 && size % 32 == 0 && size > 0 {
            put_inode(d1, sb, dir, mid)
        } else {
            d1
        };
        let blk = data_block_of(sb, rel);
        let ent = entry_bytes(name, child);
        let off = size % 512;
        let d3 = splice_block(d2, blk, off, ent);
        let ino2 = splice(mid, 1, u32_le((size + 32) as u32));
        let d4 = put_inode(d3, sb, dir, ino2);
        assert(out.1 == d4);
        assert(ino.len() == 32);
        if slot == 0 {
            lemma_first_clear_bit(bm, limit);
            lemma_set_slot(ino, bidx, rel as u16);
        }
        assert(mid.len() == 32);
        assert(ino_direct(mid, bidx) == rel);
        assert(inode_slot(dir) + 32 <= 512);
        law_inode_write_then_read(d3, sb, dir, ino2);
        assert(inode_in(d4, sb, dir) == ino2);
        assert(ino2[5 + 2 * bidx] == mid[5 + 2 * bidx]);
        assert(ino2[6 + 2 * bidx] == mid[6 + 2 * bidx]);
        assert(ino_direct(ino2, bidx) == rel);
        assert(entry_slot(disk, d4, sb, dir) == rel);
        assert forall|k: int| 0 <= k < 10 && k != bidx implies #[trigger] ino_direct(inode_in(d4, sb, dir), k)
            == ino_direct(ino, k) by {
            assert(ino2[5 + 2 * k] == mid[5 + 2 * k]);
            assert(ino2[6 + 2 * k] == mid[6 + 2 * k]);
            assert(ino_direct(mid, k) == ino_direct(ino, k));
        }
        assert(blk != sb.spec_bitmap_start());
        assert(bitmap_in(d4, sb) == bitmap_in(d1, sb)) by {
            assert(d4[sb.spec_bitmap_start() as int] == d3[sb.spec_bitmap_start() as int]);
            assert(d3[sb.spec_bitmap_start() as int] == d2[sb.spec_bitmap_start() as int]);
        }
        if slot == 0 {
            law_allocate_then_free_restores(disk, sb, the_first_clear_bit(bm, limit));
        }
        assert forall|x: int|
            sb.spec_data_start() <= x < disk.len() && x != blk implies #[trigger] d4[x] == disk[x] by {
            assert(d4[x] == d3[x]);
            assert(d3[x] == d2[x]);
            assert(d2[x] == d1[x]);
            assert(d1[x] == disk[x]);
        }
    }
}

/// What adding an entry to `dir` writes: the directory grows by one entry,
/// whose bytes land at the old size's offset in the block of `entry_slot`.
#[verifier::rlimit(100)]
pub proof fn law_add_entry_writes_one_entry(disk: Seq<Seq<u8>>, sb: Superblock, dir: int, name: Seq<u8>, child: u16)
    requires
        layout_sane(disk, sb, dir),
    ensures
        add_entry_outcome_in(disk, sb, dir, name, child).0 is Ok ==> {
            let d = add_entry_outcome_in(disk, sb, dir, name, child).1;
            let ino = inode_in(disk, sb, dir);
            let x = data_block_of(sb, entry_slot(disk, d, sb, dir));
            &&& d.len() == disk.len()
            &&& readable_in(d, sb, dir)
            &&& ino_size(ino) / 512 < 10
            &&& ino_size(inode_in(d, sb, dir)) == ino_size(ino) + 32
            &&& entry_slot(disk, d, sb, dir) >= 1
            &&& x < disk.len()
            &&& d[x] == splice(disk[x], ino_size(ino) % 512, entry_bytes(name, child))
        },
{
    reveal(add_entry_outcome_in);
    let ino = inode_in(disk, sb, dir);
    let size = ino_size(ino);
    let bidx = size / 512;
    let slot = ino_direct(ino, bidx);
    let bm = bitmap_in(disk, sb);
    let limit = alloc_limit_of(sb);
    let out = add_entry_outcome_in(disk, sb, dir, name, child);
    if out.0 is Ok {
        assert(bidx < 10);
        let fb = the_first_clear_bit(bm, limit);
        let rel = if slot == 0 {
            fb + 1
        } else {
            slot
        };
        let d1 = if slot == 0 {
            set_bit_in(disk, sb, fb)
        } else {
            disk
        };
        let mid = if slot == 0 {
            splice(ino, 5 + 2 * bidx, u16_le(rel as u16))
        } else {
            ino
        };
        let d2 = if slot == 0 && size % 32 == 0 && size > 0 {
            put_inode(d1, sb, dir, mid)
        } else {
            d1
        };
        let blk = data_block_of(sb, rel);
        let ent = entry_bytes(name, child);
        let off = size % 512;
        let d3 = splice_block(d2, blk, off, ent);
        let ino2 = splice(mid, 1, u32_le((size + 32) as u32));
        let d4 = put_inode(d3, sb, dir, ino2);
        assert(out.1 == d4);
        assert(ino.len() == 32);
        if slot == 0 {
            lemma_first_clear_bit(bm, limit);
            lemma_set_slot(ino, bidx, rel as u16);
            assert forall|i: int| 0 <= i < d1.len() implies #[trigger] d1[i].len() == 512 by {
                if i != sb.spec_bitmap_start() {
                    assert(d1[i] == disk[i]);
                }
            }
        }
        assert(mid.len() == 32);
        assert(ino_direct(mid, bidx) == rel);
        assert(inode_slot(dir) + 32 <= 512);
        let ib = inode_block_of(sb, dir);
        assert forall|i: int| 0 <= i < d2.len() implies #[trigger] d2[i].len() == 512 by {
            if i != ib {
                assert(d2[i] == d1[i]);
            }
        }
        assert(blk < disk.len());
        assert(d3[ib] == d2[ib]);
        law_inode_write_then_read(d3, sb, dir, ino2);
        assert(inode_in(d4, sb, dir) == ino2);
        crate::bytes::lemma_le_u32_of_u32_le((size + 32) as u32);
        assert(ino2.subrange(1, 5) =~= u32_le((size + 32) as u32));
        assert(ino_size(ino2) == le_u32(u32_le((size + 32) as u32), 0));
        assert(ino2[5 + 2 * bidx] == mid[5 + 2 * bidx]);
        assert(ino2[6 + 2 * bidx] == mid[6 + 2 * bidx]);
        assert(ino_direct(ino2, bidx) == rel);
        assert(entry_slot(disk, d4, sb, dir) == rel);
        assert(rel >= 1);
        assert(d4[blk] == d3[blk]);
        assert(d2[blk] == d1[blk]);
        assert(d1[blk] == disk[blk]);
    }
}

/// Slot `e` of `blk` holds `name` and points at `child`.
pub open spec fn slot_gives(blk: Seq<u8>, e: int, name: Seq<u8>, child: u16) -> bool {
    let ent = blk.subrange(e * 32, e * 32 + 32);
    ent[0] != 0 && entry_name_of(ent) == name && le_u16(ent, 28) == child
}

/// Slot `e` of block `b` of the directory with inode bytes `ino` lies
/// within its size, in a used slot.
pub open spec fn scanned(ino: Seq<u8>, b: int, e: int) -> bool {
    &&& 0 <= b < 10
    &&& b < blocks_spanned(ino_size(ino))
    &&& ino_direct(ino, b) != 0
    &&& 0 <= e < 16
    &&& e * 32 < ino_size(ino) - b * 512
}

proof fn lemma_block_none_lacks(blk: Seq<u8>, rem: int, name: Seq<u8>, e: int)
    requires
        0 <= e,
        find_in_block(blk, rem, name, e) is None,
    ensures
        forall|k: int| e <= k < 16 && k * 32 < rem ==> #[trigger] slot_lacks(blk, k, name),
    decreases 16 - e,
{
    if e < 16 && e * 32 < rem {
        lemma_block_none_lacks(blk, rem, name, e + 1);
    }
}

/// A name that lookup does not find is in no slot it reads, and each block
/// it reads exists.
proof fn lemma_not_found_lacks(disk: Seq<Seq<u8>>, sb: Superblock, ino: Seq<u8>, name: Seq<u8>, b: int)
    requires
        0 <= b,
        find_from(disk, sb, ino, name, b) == Err::<u16, FsError>(FsError::FileNotFound),
    ensures
        forall|b2: int, e: int|
            b <= b2 && #[trigger] scanned(ino, b2, e) ==> data_block_of(sb, ino_direct(ino, b2)) < disk.len()
                && slot_lacks(disk[data_block_of(sb, ino_direct(ino, b2))], e, name),
    decreases 10 - b,
{
    let size = ino_size(ino);
    if b < blocks_spanned(size) && b < 10 {
        let rel = ino_direct(ino, b);
        lemma_not_found_lacks(disk, sb, ino, name, b + 1);
        if rel != 0 {
            let blk = disk[data_block_of(sb, rel)];
            lemma_block_none_lacks(blk, size - b * 512, name, 0);
        }
    }
}

proof fn lemma_block_finds(blk: Seq<u8>, rem: int, name: Seq<u8>, child: u16, e: int)
    requires
        0 <= e,
        forall|k: int| e <= k < 16 && k * 32 < rem ==> slot_lacks(blk, k, name) || #[trigger] slot_gives(blk, k, name, child),
    ensures
        find_in_block(blk, rem, name, e) is None || find_in_block(blk, rem, name, e) == Some(child),
        forall|k: int| e <= k < 16 && k * 32 < rem && #[trigger] slot_gives(blk, k, name, child) ==> find_in_block(blk, rem, name, e) == Some(child),
    decreases 16 - e,
{
    if e < 16 && e * 32 < rem {
        lemma_block_finds(blk, rem, name, child, e + 1);
        assert(slot_lacks(blk, e, name) || slot_gives(blk, e, name, child));
    }
}

/// Where every slot that lookup reads lacks `name` or points at `child`,
/// every block it reads exists, and one slot it reads holds `name`, lookup
/// finds `child`.
proof fn lemma_finds_child(disk: Seq<Seq<u8>>, sb: Superblock, ino: Seq<u8>, name: Seq<u8>, child: u16, b: int, bw: int, ew: int)
    requires
        0 <= b <= bw,
        scanned(ino, bw, ew),
        slot_gives(disk[data_block_of(sb, ino_direct(ino, bw))], ew, name, child),
        forall|b2: int|
            b <= b2 < 10 && b2 < blocks_spanned(ino_size(ino)) && #[trigger] ino_direct(ino, b2) != 0 ==> data_block_of(
                sb,
                ino_direct(ino, b2),
            ) < disk.len(),
        forall|b2: int, e: int|
            b <= b2 && #[trigger] scanned(ino, b2, e) ==> slot_lacks(disk[data_block_of(sb, ino_direct(ino, b2))], e, name)
                || slot_gives(disk[data_block_of(sb, ino_direct(ino, b2))], e, name, child),
    ensures
        find_from(disk, sb, ino, name, b) == Ok::<u16, FsError>(child),
    decreases bw - b,
{
    let size = ino_size(ino);
    let rel = ino_direct(ino, b);
    if rel == 0 {
        lemma_finds_child(disk, sb, ino, name, child, b + 1, bw, ew);
    } else {
        let blk = disk[data_block_of(sb, rel)];
        assert forall|k: int| 0 <= k < 16 && k * 32 < size - b * 512 implies slot_lacks(blk, k, name) || #[trigger] slot_gives(
            blk,
            k,
            name,
            child,
        ) by {
            assert(scanned(ino, b, k));
        }
        lemma_block_finds(blk, size - b * 512, name, child, 0);
        if b == bw {
            assert(slot_gives(blk, ew, name, child));
        } else if find_in_block(blk, size - b * 512, name, 0) is None {
            lemma_finds_child(disk, sb, ino, name, child, b + 1, bw, ew);
        }
    }
}

/// Adding an entry for `name`, absent before, to a directory whose size is
/// a whole number of entries and whose slots cover that size, on a layout
/// where the bitmap and the inode lie before the data area: looking `name`
/// up there then finds `child`.
///
/// It fails without those conditions: an entry written at an offset that is
/// not a whole number of entries is not where lookup reads; a directory
/// with no block in the slot of its last entry gets a fresh block whose old
/// slots lookup reads too; and a bitmap or inode block in the data area can
/// overwrite the entry or put `name` into another slot.
pub proof fn law_add_entry_then_find(disk: Seq<Seq<u8>>, sb: Superblock, dir: int, name: Seq<u8>, child: u16)
    requires
        layout_sane(disk, sb, dir),
        dir_blocks_allocated(inode_in(disk, sb, dir)),
        ino_size(inode_in(disk, sb, dir)) % 32 == 0,
        storable_name(name),
        lookup(disk, sb, dir, name) == Err::<u16, FsError>(FsError::FileNotFound),
    ensures
        add_entry_outcome_in(disk, sb, dir, name, child).0 is Ok ==> lookup(
            add_entry_outcome_in(disk, sb, dir, name, child).1,
            sb,
            dir,
            name,
        ) == Ok::<u16, FsError>(child),
{
    let out = add_entry_outcome_in(disk, sb, dir, name, child);
    if out.0 is Ok {
        law_add_entry_changes_one_block(disk, sb, dir, name, child);
        law_add_entry_writes_one_entry(disk, sb, dir, name, child);
        let d = out.1;
        let ino = inode_in(disk, sb, dir);
        let ino2 = inode_in(d, sb, dir);
        let size = ino_size(ino);
        let bidx = size / 512;
        let off = size % 512;
        let es = entry_slot(disk, d, sb, dir);
        let x = data_block_of(sb, es);
        let ent = entry_bytes(name, child);
        law_direntry_roundtrip(name, child);
        assert(ent.len() == 32);
        assert(ent[0] == name[0]);
        assert(off % 32 == 0 && off <= 480) by {
            assert(size == 512 * bidx + off);
        }
        assert(ino_direct(ino2, bidx) == es);
        assert(disk[x].len() == 512);
        lemma_not_found_lacks(disk, sb, ino, name, 0);
        let newb = splice(disk[x], off, ent);
        assert(newb.subrange(off, off + 32) =~= ent);
        assert(slot_gives(d[x], off / 32, name, child)) by {
            assert((off / 32) * 32 == off);
        }
        assert forall|b2: int, e: int| 0 <= b2 && #[trigger] scanned(ino2, b2, e) implies slot_lacks(
            d[data_block_of(sb, ino_direct(ino2, b2))],
            e,
            name,
        ) || slot_gives(d[data_block_of(sb, ino_direct(ino2, b2))], e, name, child) by {
            let pb = data_block_of(sb, ino_direct(ino2, b2));
            if b2 != bidx {
                assert(ino_direct(ino2, b2) == ino_direct(ino, b2));
                assert(b2 < bidx);
                assert(scanned(ino, b2, e));
                if pb != x {
                    assert(d[pb] == disk[pb]);
                } else if e != off / 32 {
                    assert(newb.subrange(e * 32, e * 32 + 32) =~= disk[x].subrange(e * 32, e * 32 + 32));
                } else {
                    assert((off / 32) * 32 == off);
                }
            } else {
                assert(pb == x);
                if e != off / 32 {
                    assert(e < off / 32);
                    assert(off > 0);
                    assert(blocks_spanned(size) > bidx);
                    assert(ino_direct(ino, bidx) != 0);
                    assert(es == ino_direct(ino, bidx));
                    assert(scanned(ino, bidx, e));
                    assert(newb.subrange(e * 32, e * 32 + 32) =~= disk[x].subrange(e * 32, e * 32 + 32));
                }
            }
        }
        assert forall|b2: int|
            0 <= b2 < 10 && b2 < blocks_spanned(ino_size(ino2)) && #[trigger] ino_direct(ino2, b2) != 0 implies data_block_of(
            sb,
            ino_direct(ino2, b2),
        ) < d.len() by {
            if b2 != bidx {
                assert(ino_direct(ino2, b2) == ino_direct(ino, b2));
                assert(scanned(ino, b2, 0));
            }
        }
        assert(scanned(ino2, bidx, off / 32));
        lemma_finds_child(d, sb, ino2, name, child, 0, bidx, off / 32);
    }
}

/// Adding an entry for `name` (absent before) to a consistent directory
/// `dir`: looking `name` up there then finds `child`, every name found
/// there before is found as before, and every other inode
/// outside the bitmap block stays as it was.
#[verifier::rlimit(100)]
#[verifier::spinoff_prover]
pub proof fn law_add_entry_then_lookup(disk: Seq<Seq<u8>>, sb: Superblock, dir: int, name: Seq<u8>, child: u16)
    requires
        layout_sane(disk, sb, dir),
        slots_consistent(disk, sb, inode_in(disk, sb, dir)),
        dir_blocks_allocated(inode_in(disk, sb, dir)),
        ino_size(inode_in(disk, sb, dir)) % 32 == 0,
        storable_name(name),
        lookup(disk, sb, dir, name) == Err::<u16, FsError>(FsError::FileNotFound),
    ensures
        add_entry_outcome_in(disk, sb, dir, name, child).0 is Ok ==> {
            let d = add_entry_outcome_in(disk, sb, dir, name, child).1;
            &&& lookup(d, sb, dir, name) == Ok::<u16, FsError>(child)
            &&& forall|n: Seq<u8>|
                #[trigger] lookup(disk, sb, dir, n) is Ok ==> lookup(d, sb, dir, n) == lookup(disk, sb, dir, n)
            &&& inode_in(d, sb, dir)[0] == inode_in(disk, sb, dir)[0]
            &&& layout_sane(d, sb, dir)
            &&& slots_consistent(d, sb, inode_in(d, sb, dir))
            &&& dir_blocks_allocated(inode_in(d, sb, dir))
            &&& ino_size(inode_in(d, sb, dir)) % 32 == 0
            &&& d.len() == disk.len()
            &&& forall|i: int| 0 <= i < d.len() ==> #[trigger] d[i].len() == 512
            &&& forall|j: int|
                0 <= j && j != dir && inode_block_of(sb, j) < disk.len() && inode_block_of(sb, j)
                    < sb.spec_data_start() && inode_block_of(sb, j) != sb.spec_bitmap_start() ==> #[trigger] inode_in(
                    d,
                    sb,
                    j,
                ) == inode_in(disk, sb, j)
        },
{
    reveal(add_entry_outcome_in);
    let ino = inode_in(disk, sb, dir);
    let size = ino_size(ino);
    let bidx = size / 512;
    let slot = ino_direct(ino, bidx);
    let bm = bitmap_in(disk, sb);
    let limit = alloc_limit_of(sb);
    let out = add_entry_outcome_in(disk, sb, dir, name, child);
    if out.0 is Ok {
        assert(bidx < 10);
        let fb = the_first_clear_bit(bm, limit);
        let rel = if slot == 0 {
            fb + 1
        } else {
            slot
        };
        let d1 = if slot == 0 {
            set_bit_in(disk, sb, fb)
        } else {
            disk
        };
        let mid = if slot == 0 {
            splice(ino, 5 + 2 * bidx, u16_le(rel as u16))
        } else {
            ino
        };
        let d2 = if slot == 0 && size % 32 == 0 && size > 0 {
            put_inode(d1, sb, dir, mid)
        } else {
            d1
        };
        let blk = data_block_of(sb, rel);
        let ent = entry_bytes(name, child);
        let off = size % 512;
        let d3 = splice_block(d2, blk, off, ent);
        let ino2 = splice(mid, 1, u32_le((size + 32) as u32));
        let d4 = put_inode(d3, sb, dir, ino2);
        assert(out.1 == d4);
        let ib = inode_block_of(sb, dir);
        assert(blk < disk.len());
        assert(ino.len() == 32);
        // Lengths, and what the bitmap step leaves.
        if slot == 0 {
            lemma_first_clear_bit(bm, limit);
            lemma_set_slot(ino, bidx, rel as u16);
            assert forall|i: int| 0 <= i < d1.len() implies #[trigger] d1[i].len() == 512 by {
                if i != sb.spec_bitmap_start() {
                    assert(d1[i] == disk[i]);
                }
            }
        }
        assert(mid.len() == 32);
        assert(ino_direct(mid, bidx) == rel);
        assert forall|c: int| 0 <= c < 10 && c != bidx implies #[trigger] ino_direct(mid, c) == ino_direct(ino, c) by {}
        assert(rel >= 1);
        assert(inode_slot(dir) + 32 <= 512);
        assert forall|i: int| 0 <= i < d2.len() implies #[trigger] d2[i].len() == 512 by {
            if i != ib {
                assert(d2[i] == d1[i]);
            }
        }
        law_direntry_roundtrip(name, child);
        assert(ent.len() == 32);
        assert(ent[0] == name[0]);
        assert(off % 32 == 0 && off <= 480) by {
            assert(size == 512 * bidx + off);
        }
        assert forall|i: int| 0 <= i < d3.len() implies #[trigger] d3[i].len() == 512 by {
            if i != blk {
                assert(d3[i] == d2[i]);
            }
        }
        law_inode_write_then_read(d3, sb, dir, ino2);
        assert(inode_in(d4, sb, dir) == ino2);
        crate::bytes::lemma_le_u32_of_u32_le((size + 32) as u32);
        assert(ino2.subrange(1, 5) =~= u32_le((size + 32) as u32));
        assert(ino_size(ino2) == le_u32(u32_le((size + 32) as u32), 0));
        assert(ino_size(ino2) == size + 32);
        assert forall|c: int| 0 <= c < 10 implies #[trigger] ino_direct(ino2, c) == ino_direct(mid, c) by {
            assert(ino2[5 + 2 * c] == mid[5 + 2 * c]);
            assert(ino2[6 + 2 * c] == mid[6 + 2 * c]);
        }
        // Data blocks other than the entry's are as they were.
        assert forall|x: int|
            sb.spec_data_start() <= x < disk.len() && x != blk implies #[trigger] d4[x] == disk[x] by {
            assert(d4[x] == d3[x]);
            assert(d3[x] == d2[x]);
            assert(d2[x] == d1[x]);
            assert(d1[x] == disk[x]);
        }
        assert(d4[blk] == d3[blk]);
        let oldb = d2[blk];
        assert(d2[blk] == disk[blk]);
        assert(d3[blk] == splice(oldb, off, ent));
        assert(early_blocks_kept(disk, d4, sb, ino, ino2)) by {
            assert forall|c: int| 0 <= c < bidx implies #[trigger] ino_direct(ino2, c) == ino_direct(ino, c) && (data_block_of(
                sb,
                ino_direct(ino, c),
            ) < disk.len() ==> d4[data_block_of(sb, ino_direct(ino, c))] == disk[data_block_of(sb, ino_direct(ino, c))]) by {
                assert(blocks_spanned(size) > c);
                assert(ino_direct(ino, c) != 0);
                if slot != 0 {
                    assert(ino_direct(ino, c) != ino_direct(ino, bidx));
                } else {
                    assert(bitmap_bit(bm, ino_direct(ino, c) - 1));
                    assert(ino_direct(ino, c) - 1 != fb);
                }
            }
        }
        assert(readable_in(disk, sb, dir));
        assert(lookup(disk, sb, dir, name) == find_from(disk, sb, ino, name, 0));
        lemma_find_from_added(disk, d4, sb, ino, ino2, oldb, ent, name, child, 0);
        assert(readable_in(d4, sb, dir));
        assert forall|n: Seq<u8>| #[trigger] lookup(disk, sb, dir, n) is Ok implies lookup(d4, sb, dir, n) == lookup(
            disk,
            sb,
            dir,
            n,
        ) by {
            lemma_find_from_added_other(disk, d4, sb, ino, ino2, oldb, ent, n, 0);
        }
        // The directory stays consistent.
        assert(bitmap_in(d4, sb) == bitmap_in(d1, sb)) by {
            assert(sb.spec_bitmap_start() != blk);
            assert(d4[sb.spec_bitmap_start() as int] == d3[sb.spec_bitmap_start() as int]);
            assert(d3[sb.spec_bitmap_start() as int] == d2[sb.spec_bitmap_start() as int]);
        }
        if slot == 0 {
            law_allocate_then_free_restores(disk, sb, fb);
        }
        assert forall|c: int| 0 <= c < 10 && #[trigger] ino_direct(ino2, c) != 0 implies ino_direct(ino2, c) <= 4096
            && bitmap_bit(bitmap_in(d4, sb), ino_direct(ino2, c) - 1) by {
            if c != bidx {
                assert(ino_direct(ino2, c) == ino_direct(ino, c));
                assert(bitmap_bit(bm, ino_direct(ino, c) - 1));
                if slot == 0 {
                    assert(ino_direct(ino, c) - 1 != fb);
                }
            }
        }
        assert forall|b1: int, b2: int|
            0 <= b1 < 10 && 0 <= b2 < 10 && b1 != b2 && #[trigger] ino_direct(ino2, b1) != 0 implies ino_direct(ino2, b1)
            != #[trigger] ino_direct(ino2, b2) by {
            if slot != 0 {
                assert(ino_direct(ino2, b1) == ino_direct(ino, b1));
                assert(ino_direct(ino2, b2) == ino_direct(ino, b2));
            } else if b1 == bidx {
                if ino_direct(ino, b2) != 0 {
                    assert(bitmap_bit(bm, ino_direct(ino, b2) - 1));
                }
            } else if b2 == bidx {
                assert(bitmap_bit(bm, ino_direct(ino, b1) - 1));
            }
        }
        assert(slots_consistent(d4, sb, ino2));
        assert forall|c: int| 0 <= c < blocks_spanned(ino_size(ino2)) && c < 10 implies #[trigger] ino_direct(ino2, c) != 0 by {
            if c != bidx {
                assert(c < bidx || (c == bidx));
                assert(blocks_spanned(size) > c);
            }
        }
        assert(dir_blocks_allocated(ino2));
        assert forall|i: int| 0 <= i < d4.len() implies #[trigger] d4[i].len() == 512 by {
            if i != ib {
                assert(d4[i] == d3[i]);
            }
        }
        assert(layout_sane(d4, sb, dir));
        // Other inodes.
        assert forall|j: int|
            0 <= j && j != dir && inode_block_of(sb, j) < disk.len() && inode_block_of(sb, j)
                < sb.spec_data_start() && inode_block_of(sb, j) != sb.spec_bitmap_start() implies #[trigger] inode_in(
                d4,
                sb,
                j,
            ) == inode_in(disk, sb, j) by {
            law_inode_write_then_read(d3, sb, dir, ino2);
            assert(inode_in(d4, sb, j) == inode_in(d3, sb, j));
            assert(inode_block_of(sb, j) != blk);
            assert(inode_in(d3, sb, j) == inode_in(d2, sb, j));
            if slot == 0 && size % 32 == 0 && size > 0 {
                law_inode_write_then_read(d1, sb, dir, mid);
            }
            assert(inode_in(d2, sb, j) == inode_in(d1, sb, j));
        }
    }
}

/// Looking a name up in a directory reads only data blocks: two devices of
/// the same length that agree on the data area give the same result.
proof fn lemma_find_from_same_data(d1: Seq<Seq<u8>>, d2: Seq<Seq<u8>>, sb: Superblock, ino: Seq<u8>, name: Seq<u8>, b: int)
    requires
        d1.len() == d2.len(),
        forall|x: int| sb.spec_data_start() <= x < d1.len() ==> #[trigger] d1[x] == d2[x],
    ensures
        find_from(d1, sb, ino, name, b) == find_from(d2, sb, ino, name, b),
    decreases 10 - b,
{
    if 0 <= b < 10 {
        lemma_find_from_same_data(d1, d2, sb, ino, name, b + 1);
    }
}

/// Directory `c` reads the same on `d2` as on `d1`: where it can be read,
/// its inode and the blocks its direct slots name are unchanged.
pub open spec fn dir_kept(d1: Seq<Seq<u8>>, d2: Seq<Seq<u8>>, sb: Superblock, c: int) -> bool {
    readable_in(d1, sb, c) ==> {
        &&& inode_in(d2, sb, c) == inode_in(d1, sb, c)
        &&& forall|b: int|
            0 <= b < 10 && #[trigger] ino_direct(inode_in(d1, sb, c), b) != 0 && data_block_of(
                sb,
                ino_direct(inode_in(d1, sb, c), b),
            ) < d1.len() ==> d2[data_block_of(sb, ino_direct(inode_in(d1, sb, c), b))] == d1[data_block_of(
                sb,
                ino_direct(inode_in(d1, sb, c), b),
            )]
    }
}

/// No used slot of inode bytes `a` names a block that a slot of `b` names.
pub open spec fn slots_apart(a: Seq<u8>, b: Seq<u8>) -> bool {
    forall|i: int, k: int| 0 <= i < 10 && 0 <= k < 10 && #[trigger] ino_direct(a, i) != 0 ==> ino_direct(a, i) != #[trigger] ino_direct(b, k)
}

/// The directories met resolving `parts` are neither `dir` nor `src`, are
/// consistent, and share no data block with `dir`.
pub open spec fn path_apart(disk: Seq<Seq<u8>>, sb: Superblock, parts: Seq<Seq<u8>>, dir: int, src: int) -> bool {
    forall|j: int|
        0 <= j < parts.len() ==> match #[trigger] resolve_parts(disk, sb, parts.subrange(0, j)) {
            Ok(c) => c != dir && c != src && dir_consistent(disk, sb, c as int) && slots_apart(
                inode_in(disk, sb, c as int),
                inode_in(disk, sb, dir),
            ),
            Err(_) => true,
        }
}

proof fn lemma_find_from_kept(d1: Seq<Seq<u8>>, d2: Seq<Seq<u8>>, sb: Superblock, ino: Seq<u8>, name: Seq<u8>, b: int)
    requires
        d1.len() == d2.len(),
        forall|k: int|
            0 <= k < 10 && #[trigger] ino_direct(ino, k) != 0 && data_block_of(sb, ino_direct(ino, k)) < d1.len()
                ==> d2[data_block_of(sb, ino_direct(ino, k))] == d1[data_block_of(sb, ino_direct(ino, k))],
    ensures
        find_from(d1, sb, ino, name, b) == find_from(d2, sb, ino, name, b),
    decreases 10 - b,
{
    if 0 <= b < 10 {
        lemma_find_from_kept(d1, d2, sb, ino, name, b + 1);
    }
}

/// Resolving a path gives the same on two devices of one length on which
/// every directory met on the way reads the same.
pub proof fn lemma_resolve_kept(d1: Seq<Seq<u8>>, d2: Seq<Seq<u8>>, sb: Superblock, parts: Seq<Seq<u8>>)
    requires
        d1.len() == d2.len(),
        forall|j: int|
            0 <= j < parts.len() ==> match #[trigger] resolve_parts(d1, sb, parts.subrange(0, j)) {
                Ok(c) => dir_kept(d1, d2, sb, c as int),
                Err(_) => true,
            },
    ensures
        resolve_parts(d2, sb, parts) == resolve_parts(d1, sb, parts),
    decreases parts.len(),
{
    if parts.len() > 0 {
        let p = parts.drop_last();
        assert forall|j: int| 0 <= j < p.len() implies match #[trigger] resolve_parts(d1, sb, p.subrange(0, j)) {
            Ok(c) => dir_kept(d1, d2, sb, c as int),
            Err(_) => true,
        } by {
            assert(p.subrange(0, j) =~= parts.subrange(0, j));
            assert(resolve_parts(d1, sb, parts.subrange(0, j)) == resolve_parts(d1, sb, p.subrange(0, j)));
        }
        lemma_resolve_kept(d1, d2, sb, p);
        assert(p =~= parts.subrange(0, parts.len() - 1));
        assert(resolve_parts(d1, sb, parts.subrange(0, parts.len() - 1)) == resolve_parts(d1, sb, p));
        match resolve_parts(d1, sb, p) {
            Ok(cur) => {
                assert(dir_kept(d1, d2, sb, cur as int));
                if readable_in(d1, sb, cur as int) {
                    lemma_find_from_kept(d1, d2, sb, inode_in(d1, sb, cur as int), parts.last(), 0);
                }
            },
            Err(_) => {},
        }
    }
}

/// Resolving `part` in directory `c` gives on `d2` what it gave on `d1`,
/// wherever it succeeded on `d1`.
pub open spec fn step_kept(d1: Seq<Seq<u8>>, d2: Seq<Seq<u8>>, sb: Superblock, c: u16, part: Seq<u8>) -> bool {
    resolve_step(d1, sb, c, part) is Ok ==> resolve_step(d2, sb, c, part) == resolve_step(d1, sb, c, part)
}

/// A path that resolves on `d1` resolves the same on `d2` where each step
/// along it does.
pub proof fn lemma_resolve_steps_kept(d1: Seq<Seq<u8>>, d2: Seq<Seq<u8>>, sb: Superblock, parts: Seq<Seq<u8>>)
    requires
        resolve_parts(d1, sb, parts) is Ok,
        forall|j: int|
            0 <= j < parts.len() ==> match #[trigger] resolve_parts(d1, sb, parts.subrange(0, j)) {
                Ok(c) => step_kept(d1, d2, sb, c, parts[j]),
                Err(_) => true,
            },
    ensures
        resolve_parts(d2, sb, parts) == resolve_parts(d1, sb, parts),
    decreases parts.len(),
{
    if parts.len() > 0 {
        let p = parts.drop_last();
        assert(resolve_parts(d1, sb, p) is Ok);
        assert forall|j: int| 0 <= j < p.len() implies match #[trigger] resolve_parts(d1, sb, p.subrange(0, j)) {
            Ok(c) => step_kept(d1, d2, sb, c, p[j]),
            Err(_) => true,
        } by {
            assert(p.subrange(0, j) =~= parts.subrange(0, j));
            assert(resolve_parts(d1, sb, parts.subrange(0, j)) == resolve_parts(d1, sb, p.subrange(0, j)));
            assert(p[j] == parts[j]);
        }
        lemma_resolve_steps_kept(d1, d2, sb, p);
        assert(p =~= parts.subrange(0, parts.len() - 1));
        assert(resolve_parts(d1, sb, parts.subrange(0, parts.len() - 1)) == resolve_parts(d1, sb, p));
    }
}

/// The directories met resolving `sparts` are `dir`, or consistent
/// directories other than `src` that share no data block with `dir`.
pub open spec fn path_beside(disk: Seq<Seq<u8>>, sb: Superblock, sparts: Seq<Seq<u8>>, dir: int, src: int) -> bool {
    forall|j: int|
        0 <= j < sparts.len() ==> match #[trigger] resolve_parts(disk, sb, sparts.subrange(0, j)) {
            Ok(c) => c == dir || (c != src && dir_consistent(disk, sb, c as int) && slots_apart(
                inode_in(disk, sb, c as int),
                inode_in(disk, sb, dir),
            )),
            Err(_) => true,
        }
}

/// Linking keeps the paths that resolved before: in particular the path of
/// the linked file still leads to it, so reads through the old and the new
/// name reach the same inode. This holds of the paths whose directories are
/// the one linked into, or consistent ones apart from it, on the
/// conditions of `law_link_then_lookup`.
pub proof fn law_link_keeps_paths(
    disk: Seq<Seq<u8>>,
    sb: Superblock,
    src: u16,
    dparts: Seq<Seq<u8>>,
    dir: u16,
    sparts: Seq<Seq<u8>>,
)
    requires
        dparts.len() > 0,
        resolve_parts(disk, sb, dparts.drop_last()) == Ok::<u16, FsError>(dir),
        dir_consistent(disk, sb, dir as int),
        storable_name(dparts.last()),
        lookup(disk, sb, dir as int, dparts.last()) == Err::<u16, FsError>(FsError::FileNotFound),
        src != dir,
        inode_block_of(sb, src as int) < sb.spec_data_start(),
        inode_block_of(sb, src as int) != sb.spec_bitmap_start(),
        resolve_parts(disk, sb, sparts) is Ok,
        path_beside(disk, sb, sparts, dir as int, src as int),
    ensures
        ({
            let (r, after) = link_outcome(disk, sb, src, dparts);
            r is Ok ==> resolve_parts(after, sb, sparts) == resolve_parts(disk, sb, sparts)
        }),
{
    let name = dparts.last();
    let d = dir as int;
    law_add_entry_then_lookup(disk, sb, d, name, src);
    law_add_entry_changes_one_block(disk, sb, d, name, src);
    let out = add_entry_outcome_in(disk, sb, d, name, src);
    let d1 = out.1;
    let (r, after) = link_outcome(disk, sb, src, dparts);
    if r is Ok {
        assert(out.0 is Ok);
        let ino = inode_in(d1, sb, src as int);
        let bumped = ino.update(25, ((ino_links(ino) + 1) % 256) as u8);
        assert(after == put_inode(d1, sb, src as int, bumped));
        let sib = inode_block_of(sb, src as int);
        assert(inode_slot(src as int) + 32 <= 512);
        assert(ino.len() == 32);
        law_inode_write_then_read(d1, sb, src as int, bumped);
        assert forall|x: int| sb.spec_data_start() <= x < after.len() implies #[trigger] after[x] == d1[x] by {
            assert(x != sib);
        }
        let es = entry_slot(disk, d1, sb, d);
        let dino = inode_in(disk, sb, d);
        assert forall|j: int| 0 <= j < sparts.len() implies match #[trigger] resolve_parts(
            disk,
            sb,
            sparts.subrange(0, j),
        ) {
            Ok(c) => step_kept(disk, after, sb, c, sparts[j]),
            Err(_) => true,
        } by {
            if let Ok(c) = resolve_parts(disk, sb, sparts.subrange(0, j)) {
                let ci = c as int;
                let part = sparts[j];
                if ci == d {
                    if resolve_step(disk, sb, c, part) is Ok {
                        assert(lookup(disk, sb, d, part) is Ok);
                        assert(lookup(d1, sb, d, part) == lookup(disk, sb, d, part));
                        assert(inode_in(after, sb, d) == inode_in(d1, sb, d));
                        lemma_find_from_same_data(after, d1, sb, inode_in(d1, sb, d), part, 0);
                    }
                } else {
                    assert(dir_consistent(disk, sb, ci));
                    let cino = inode_in(disk, sb, ci);
                    assert(inode_in(d1, sb, ci) == cino);
                    assert(inode_in(after, sb, ci) == cino);
                    assert forall|b: int|
                        0 <= b < 10 && #[trigger] ino_direct(cino, b) != 0 && data_block_of(sb, ino_direct(cino, b))
                            < disk.len() implies after[data_block_of(sb, ino_direct(cino, b))] == disk[data_block_of(
                        sb,
                        ino_direct(cino, b),
                    )] by {
                        let x = data_block_of(sb, ino_direct(cino, b));
                        assert(bitmap_bit(bitmap_in(disk, sb), ino_direct(cino, b) - 1));
                        assert(ino_direct(cino, b) != ino_direct(dino, ino_size(dino) / 512));
                        assert(ino_direct(cino, b) != es);
                        assert(d1[x] == disk[x]);
                    }
                    if readable_in(disk, sb, ci) {
                        lemma_find_from_kept(disk, after, sb, cino, part, 0);
                    }
                }
            }
        }
        lemma_resolve_steps_kept(disk, after, sb, sparts);
    }
}

/// Hard links: once inode `src` is linked under the name `dparts.last()`
/// in the directory `dir` that the other components of `dparts` lead to,
/// looking that name up in `dir` gives `src`, `src` counts one link more
/// (modulo 256: the count is one byte), and `dir` stays consistent, so
/// later links and creations there are covered too. Where `dir` is a
/// directory and the directories met on the way to it are consistent, share
/// no block with it and are neither it nor `src`, resolving the new path
/// gives `src`.
///
/// This holds of a consistent directory that does not hold the name yet
/// (where it does, lookup finds the older entry first), for a name that
/// fits an entry and a source `src` that is another inode whose block lies
/// before the data area, apart from the bitmap.
pub proof fn law_link_then_lookup(disk: Seq<Seq<u8>>, sb: Superblock, src: u16, dparts: Seq<Seq<u8>>, dir: u16)
    requires
        dparts.len() > 0,
        resolve_parts(disk, sb, dparts.drop_last()) == Ok::<u16, FsError>(dir),
        dir_consistent(disk, sb, dir as int),
        storable_name(dparts.last()),
        lookup(disk, sb, dir as int, dparts.last()) == Err::<u16, FsError>(FsError::FileNotFound),
        src != dir,
        inode_block_of(sb, src as int) < sb.spec_data_start(),
        inode_block_of(sb, src as int) != sb.spec_bitmap_start(),
    ensures
        ({
            let (r, after) = link_outcome(disk, sb, src, dparts);
            r is Ok ==> {
                &&& lookup(after, sb, dir as int, dparts.last()) == Ok::<u16, FsError>(src)
                &&& dir_consistent(after, sb, dir as int)
                &&& ino_links(inode_in(after, sb, src as int)) == (ino_links(inode_in(disk, sb, src as int)) + 1) % 256
                &&& (ino_is_dir(inode_in(disk, sb, dir as int)) && path_apart(
                    disk,
                    sb,
                    dparts.drop_last(),
                    dir as int,
                    src as int,
                ) ==> resolve_parts(after, sb, dparts) == Ok::<u16, FsError>(src))
            }
        }),
{
    let name = dparts.last();
    let d = dir as int;
    law_add_entry_then_lookup(disk, sb, d, name, src);
    let out = add_entry_outcome_in(disk, sb, d, name, src);
    let d1 = out.1;
    let (r, after) = link_outcome(disk, sb, src, dparts);
    if r is Ok {
        assert(out.0 is Ok);
        assert(readable_in(d1, sb, src as int));
        let ino = inode_in(d1, sb, src as int);
        let bumped = ino.update(25, ((ino_links(ino) + 1) % 256) as u8);
        assert(after == put_inode(d1, sb, src as int, bumped));
        let sib = inode_block_of(sb, src as int);
        assert(inode_slot(src as int) + 32 <= 512);
        assert(ino.len() == 32);
        law_inode_write_then_read(d1, sb, src as int, bumped);
        assert(inode_in(after, sb, src as int) == bumped);
        assert(inode_in(d1, sb, src as int) == inode_in(disk, sb, src as int));
        assert(inode_in(after, sb, d) == inode_in(d1, sb, d));
        assert forall|x: int| sb.spec_data_start() <= x < after.len() implies #[trigger] after[x] == d1[x] by {
            assert(x != sib);
        }
        lemma_find_from_same_data(after, d1, sb, inode_in(d1, sb, d), name, 0);
        assert(bitmap_in(after, sb) == bitmap_in(d1, sb));
        assert forall|x: int| 0 <= x < after.len() implies #[trigger] after[x].len() == 512 by {
            if x != sib {
                assert(after[x] == d1[x]);
            }
        }
        assert(readable_in(after, sb, d));
        assert(lookup(after, sb, d, name) == lookup(d1, sb, d, name));
        let prefix = dparts.drop_last();
        if ino_is_dir(inode_in(disk, sb, d)) && path_apart(disk, sb, prefix, d, src as int) {
            law_add_entry_changes_one_block(disk, sb, d, name, src);
            let es = entry_slot(disk, d1, sb, d);
            let dino = inode_in(disk, sb, d);
            assert forall|j: int| 0 <= j < prefix.len() implies match #[trigger] resolve_parts(
                disk,
                sb,
                prefix.subrange(0, j),
            ) {
                Ok(c) => dir_kept(disk, after, sb, c as int),
                Err(_) => true,
            } by {
                if let Ok(c) = resolve_parts(disk, sb, prefix.subrange(0, j)) {
                    let ci = c as int;
                    assert(dir_consistent(disk, sb, ci));
                    let cino = inode_in(disk, sb, ci);
                    assert(inode_in(d1, sb, ci) == inode_in(disk, sb, ci));
                    assert(inode_in(after, sb, ci) == inode_in(d1, sb, ci));
                    assert forall|b: int|
                        0 <= b < 10 && #[trigger] ino_direct(cino, b) != 0 && data_block_of(sb, ino_direct(cino, b))
                            < disk.len() implies after[data_block_of(sb, ino_direct(cino, b))] == disk[data_block_of(
                        sb,
                        ino_direct(cino, b),
                    )] by {
                        let x = data_block_of(sb, ino_direct(cino, b));
                        assert(ino_direct(cino, b) <= 4096 && bitmap_bit(bitmap_in(disk, sb), ino_direct(cino, b) - 1));
                        assert(ino_direct(cino, b) != ino_direct(dino, ino_size(dino) / 512));
                        assert(ino_direct(cino, b) != es);
                        assert(x != data_block_of(sb, es));
                        assert(d1[x] == disk[x]);
                        assert(x != sib);
                    }
                }
            }
            lemma_resolve_kept(disk, after, sb, prefix);
            assert(resolve_parts(after, sb, prefix) == Ok::<u16, FsError>(dir));
            assert(ino_is_dir(inode_in(after, sb, d)));
        }
    }
}

/// The directories met resolving `parts` are consistent directories other
/// than `dir` that share no data block with it.
pub open spec fn path_dirs_apart(disk: Seq<Seq<u8>>, sb: Superblock, parts: Seq<Seq<u8>>, dir: int) -> bool {
    forall|j: int|
        0 <= j < parts.len() ==> match #[trigger] resolve_parts(disk, sb, parts.subrange(0, j)) {
            Ok(c) => c != dir && ino_is_dir(inode_in(disk, sb, c as int)) && dir_consistent(disk, sb, c as int)
                && slots_apart(inode_in(disk, sb, c as int), inode_in(disk, sb, dir)),
            Err(_) => true,
        }
}

/// Creating a file or directory under `parts`: once created, looking its
/// name up in the directory `dir` that the other components lead to gives
/// the new inode, which holds `bytes`, and `dir` stays consistent. Where the
/// directories met on the way to `dir` are consistent, share no block with
/// it and are not it, resolving the new path gives the new inode, and those
/// directories stay so.
///
/// This holds of a consistent directory that does not hold the name yet,
/// as for hard links, on a layout where every inode block lies before the
/// data area, apart from the bitmap.
pub proof fn law_create_then_lookup(disk: Seq<Seq<u8>>, sb: Superblock, parts: Seq<Seq<u8>>, bytes: Seq<u8>, dir: u16)
    requires
        parts.len() > 0,
        resolve_parts(disk, sb, parts.drop_last()) == Ok::<u16, FsError>(dir),
        dir_consistent(disk, sb, dir as int),
        ino_is_dir(inode_in(disk, sb, dir as int)),
        storable_name(parts.last()),
        lookup(disk, sb, dir as int, parts.last()) == Err::<u16, FsError>(FsError::FileNotFound),
        bytes.len() == 32,
        forall|i: int|
            0 <= i < sb.spec_inode_count() ==> #[trigger] inode_block_of(sb, i) < sb.spec_data_start()
                && inode_block_of(sb, i) != sb.spec_bitmap_start(),
    ensures
        ({
            let (r, after) = create_outcome(disk, sb, parts, bytes);
            r matches Ok(idx) ==> {
                &&& lookup(after, sb, dir as int, parts.last()) == Ok::<u16, FsError>(idx)
                &&& dir_consistent(after, sb, dir as int)
                &&& inode_in(after, sb, idx as int) == bytes
                &&& ino_is_dir(inode_in(after, sb, dir as int))
                &&& after.len() == disk.len()
                &&& readable_in(after, sb, idx as int)
                &&& (path_dirs_apart(disk, sb, parts.drop_last(), dir as int) ==> {
                    &&& resolve_parts(after, sb, parts.drop_last()) == Ok::<u16, FsError>(dir)
                    &&& resolve_parts(after, sb, parts) == Ok::<u16, FsError>(idx)
                    &&& path_dirs_apart(after, sb, parts.drop_last(), dir as int)
                })
            }
        }),
{
    let name = parts.last();
    let d = dir as int;
    let (r, after) = create_outcome(disk, sb, parts, bytes);
    if r is Ok {
        let a = alloc_inode_in(disk, sb);
        assert(a is Ok);
        let idx = a->Ok_0;
        let i = choose|i: int| first_inode_stop_in(disk, sb, i);
        assert(readable_in(disk, sb, i % 0x1_0000));
        assert(idx as int == i % 0x1_0000);
        assert(ino_is_free(inode_in(disk, sb, idx as int)));
        assert(idx as int != d);
        let ib = inode_block_of(sb, idx as int);
        assert(ib < sb.spec_data_start() && ib != sb.spec_bitmap_start());
        let d1 = put_inode(disk, sb, idx as int, bytes);
        assert(inode_slot(idx as int) + 32 <= 512);
        law_inode_write_then_read(disk, sb, idx as int, bytes);
        assert(inode_in(d1, sb, d) == inode_in(disk, sb, d));
        assert(inode_in(d1, sb, idx as int) == bytes);
        assert(bitmap_in(d1, sb) == bitmap_in(disk, sb));
        assert forall|x: int| 0 <= x < d1.len() implies #[trigger] d1[x].len() == 512 by {
            if x != ib {
                assert(d1[x] == disk[x]);
            }
        }
        assert(layout_sane(d1, sb, d));
        assert forall|x: int| sb.spec_data_start() <= x < d1.len() implies #[trigger] d1[x] == disk[x] by {}
        lemma_find_from_same_data(d1, disk, sb, inode_in(disk, sb, d), name, 0);
        assert(lookup(d1, sb, d, name) == lookup(disk, sb, d, name));
        law_add_entry_then_lookup(d1, sb, d, name, idx);
        let out = add_entry_outcome_in(d1, sb, d, name, idx);
        assert(out.0 is Ok);
        assert(after == out.1);
        assert(inode_in(after, sb, idx as int) == inode_in(d1, sb, idx as int));
        assert(inode_in(after, sb, d)[0] == inode_in(d1, sb, d)[0]);
        let prefix = parts.drop_last();
        if path_dirs_apart(disk, sb, prefix, d) {
            law_add_entry_changes_one_block(d1, sb, d, name, idx);
            let es = entry_slot(d1, after, sb, d);
            let dino = inode_in(disk, sb, d);
            let bidx = ino_size(dino) / 512;
            // Every directory met on the way reads the same afterwards, and
            // keeps its blocks marked and apart from those of `dir`.
            assert forall|j: int| 0 <= j < prefix.len() implies match #[trigger] resolve_parts(
                disk,
                sb,
                prefix.subrange(0, j),
            ) {
                Ok(c) => dir_kept(disk, after, sb, c as int) && c != d && ino_is_dir(inode_in(after, sb, c as int))
                    && dir_consistent(after, sb, c as int) && slots_apart(
                    inode_in(after, sb, c as int),
                    inode_in(after, sb, d),
                ),
                Err(_) => true,
            } by {
                if let Ok(c) = resolve_parts(disk, sb, prefix.subrange(0, j)) {
                    let ci = c as int;
                    assert(dir_consistent(disk, sb, ci));
                    let cino = inode_in(disk, sb, ci);
                    assert(ino_is_dir(cino));
                    assert(ci != idx as int);
                    assert(inode_in(d1, sb, ci) == cino);
                    assert(inode_in(after, sb, ci) == cino);
                    assert forall|b: int|
                        0 <= b < 10 && #[trigger] ino_direct(cino, b) != 0 && data_block_of(sb, ino_direct(cino, b))
                            < disk.len() implies after[data_block_of(sb, ino_direct(cino, b))] == disk[data_block_of(
                        sb,
                        ino_direct(cino, b),
                    )] by {
                        let x = data_block_of(sb, ino_direct(cino, b));
                        assert(bitmap_bit(bitmap_in(d1, sb), ino_direct(cino, b) - 1));
                        assert(ino_direct(cino, b) != ino_direct(dino, bidx));
                        assert(ino_direct(cino, b) != es);
                        assert(after[x] == d1[x]);
                    }
                    assert forall|b: int| 0 <= b < 10 && #[trigger] ino_direct(cino, b) != 0 implies ino_direct(
                        cino,
                        b,
                    ) <= 4096 && bitmap_bit(bitmap_in(after, sb), ino_direct(cino, b) - 1) by {
                        assert(bitmap_bit(bitmap_in(d1, sb), ino_direct(cino, b) - 1));
                    }
                    assert(slots_consistent(after, sb, cino));
                    assert(layout_sane(after, sb, ci));
                    assert forall|i: int, k: int| 0 <= i < 10 && 0 <= k < 10 && #[trigger] ino_direct(cino, i) != 0 implies ino_direct(
                        cino,
                        i,
                    ) != #[trigger] ino_direct(inode_in(after, sb, d), k) by {
                        if k != bidx {
                            assert(ino_direct(inode_in(after, sb, d), k) == ino_direct(dino, k));
                        } else {
                            assert(bitmap_bit(bitmap_in(d1, sb), ino_direct(cino, i) - 1));
                        }
                    }
                }
            }
            lemma_resolve_kept(disk, after, sb, prefix);
            assert(prefix =~= parts.subrange(0, parts.len() - 1));
            assert(resolve_parts(after, sb, prefix) == Ok::<u16, FsError>(dir));
            assert forall|j: int| 0 <= j < prefix.len() implies match #[trigger] resolve_parts(
                after,
                sb,
                prefix.subrange(0, j),
            ) {
                Ok(c) => c != d && ino_is_dir(inode_in(after, sb, c as int)) && dir_consistent(after, sb, c as int)
                    && slots_apart(inode_in(after, sb, c as int), inode_in(after, sb, d)),
                Err(_) => true,
            } by {
                let q = prefix.subrange(0, j);
                assert forall|i: int| 0 <= i < q.len() implies match #[trigger] resolve_parts(disk, sb, q.subrange(0, i)) {
                    Ok(c) => dir_kept(disk, after, sb, c as int),
                    Err(_) => true,
                } by {
                    assert(q.subrange(0, i) =~= prefix.subrange(0, i));
                    assert(resolve_parts(disk, sb, prefix.subrange(0, i)) == resolve_parts(disk, sb, q.subrange(0, i)));
                }
                lemma_resolve_kept(disk, after, sb, q);
            }
        }
    }
}

/// The state that writing `buf` into the file with inode `idx` from its
/// start leaves on `disk`, with the file's size recorded.
#[verifier::opaque]
pub open spec fn written(disk: Seq<Seq<u8>>, sb: Superblock, idx: int, buf: Seq<u8>) -> (FsResult, WriteState, Seq<Seq<u8>>) {
    let (res, st) = write_from(sb, idx, buf, WriteState { disk, ino: inode_in(disk, sb, idx), pos: 0, done: 0 });
    let size = if ino_size(st.ino) < st.pos {
        st.pos
    } else {
        ino_size(st.ino)
    };
    (res, st, put_inode(st.disk, sb, idx, splice(st.ino, 1, u32_le(size as u32))))
}

/// Writing into a new, empty file: it stays a file, its length is the
/// number of bytes written, and reading from its start gives them back.
proof fn lemma_new_file_written(disk: Seq<Seq<u8>>, sb: Superblock, idx: int, buf: Seq<u8>)
    requires
        layout_sane(disk, sb, idx),
        inode_in(disk, sb, idx) == new_file_bytes(),
    ensures
        ({
            let (res, st, after) = written(disk, sb, idx, buf);
            let ino = inode_in(after, sb, idx);
            &&& layout_sane(st.disk, sb, idx)
            &&& res is Ok ==> {
                &&& readable_in(after, sb, idx)
                &&& ino_is_file(ino)
                &&& ino_size(ino) == st.done
                &&& read_stop(after, sb, ino, 0, st.done) == Ok::<int, FsError>(st.done)
                &&& forall|k: int| 0 <= k < st.done ==> file_byte(after, sb, ino, k) == buf[k]
            }
        }),
{
    reveal(written);
    let nfb = new_file_bytes();
    assert forall|k: int| 0 <= k < 10 implies #[trigger] ino_direct(nfb, k) == 0 by {
        assert(nfb[5 + 2 * k] == 0 && nfb[6 + 2 * k] == 0);
    }
    assert(ino_size(nfb) == 0);
    assert(slots_consistent(disk, sb, nfb));
    let st0 = WriteState { disk, ino: nfb, pos: 0, done: 0 };
    law_file_write_then_read(disk, sb, idx, buf, 0);
    lemma_write_from_frame(sb, idx, buf, st0);
    let (res, st) = write_from(sb, idx, buf, st0);
    let size = if ino_size(st.ino) < st.pos {
        st.pos
    } else {
        ino_size(st.ino)
    };
    let newino = splice(st.ino, 1, u32_le(size as u32));
    if res is Ok {
        assert(size == st.done);
        assert(newino.len() == 32);
        law_inode_write_then_read(st.disk, sb, idx, newino);
        crate::bytes::lemma_le_u32_of_u32_le(size as u32);
        assert(newino.subrange(1, 5) =~= u32_le(size as u32));
        assert(ino_size(newino) == le_u32(u32_le(size as u32), 0));
        assert(newino[0] == nfb[0]);
    }
}

/// Where the directories on the way to `dir` are apart from it and `dir`
/// is a consistent directory, every directory met resolving `parts` (whose
/// other components lead to `dir`) is a consistent directory.
proof fn lemma_path_dirs_consistent(disk: Seq<Seq<u8>>, sb: Superblock, parts: Seq<Seq<u8>>, dir: int)
    requires
        parts.len() > 0,
        resolve_parts(disk, sb, parts.drop_last()) == Ok::<u16, FsError>(dir as u16),
        0 <= dir < 0x1_0000,
        dir_consistent(disk, sb, dir),
        ino_is_dir(inode_in(disk, sb, dir)),
        path_dirs_apart(disk, sb, parts.drop_last(), dir),
    ensures
        forall|j: int|
            0 <= j < parts.len() ==> match #[trigger] resolve_parts(disk, sb, parts.subrange(0, j)) {
                Ok(c) => dir_consistent(disk, sb, c as int) && ino_is_dir(inode_in(disk, sb, c as int)),
                Err(_) => true,
            },
{
    let prefix = parts.drop_last();
    assert forall|j: int| 0 <= j < parts.len() implies match #[trigger] resolve_parts(disk, sb, parts.subrange(0, j)) {
        Ok(c) => dir_consistent(disk, sb, c as int) && ino_is_dir(inode_in(disk, sb, c as int)),
        Err(_) => true,
    } by {
        if j < prefix.len() {
            assert(prefix.subrange(0, j) =~= parts.subrange(0, j));
            assert(resolve_parts(disk, sb, prefix.subrange(0, j)) == resolve_parts(disk, sb, parts.subrange(0, j)));
        } else {
            assert(parts.subrange(0, j) =~= prefix);
        }
    }
}

/// Writing into a new file leaves every directory met resolving `parts`
/// as it was, so the path resolves as before.
proof fn lemma_new_file_write_keeps_paths(disk: Seq<Seq<u8>>, sb: Superblock, idx: int, buf: Seq<u8>, parts: Seq<Seq<u8>>)
    requires
        layout_sane(disk, sb, idx),
        inode_in(disk, sb, idx) == new_file_bytes(),
        forall|j: int|
            0 <= j < parts.len() ==> match #[trigger] resolve_parts(disk, sb, parts.subrange(0, j)) {
                Ok(c) => dir_consistent(disk, sb, c as int) && ino_is_dir(inode_in(disk, sb, c as int)),
                Err(_) => true,
            },
    ensures
        resolve_parts(written(disk, sb, idx, buf).2, sb, parts) == resolve_parts(disk, sb, parts),
{
    reveal(written);
    let nfb = new_file_bytes();
    assert forall|k: int| 0 <= k < 10 implies #[trigger] ino_direct(nfb, k) == 0 by {
        assert(nfb[5 + 2 * k] == 0 && nfb[6 + 2 * k] == 0);
    }
    let st0 = WriteState { disk, ino: nfb, pos: 0, done: 0 };
    lemma_write_from_frame(sb, idx, buf, st0);
    let (res, st, after) = written(disk, sb, idx, buf);
    let size = if ino_size(st.ino) < st.pos {
        st.pos
    } else {
        ino_size(st.ino)
    };
    let newino = splice(st.ino, 1, u32_le(size as u32));
    assert(after == put_inode(st.disk, sb, idx, newino));
    assert(newino.len() == 32);
    law_inode_write_then_read(st.disk, sb, idx, newino);
    assert forall|j: int| 0 <= j < parts.len() implies match #[trigger] resolve_parts(disk, sb, parts.subrange(0, j)) {
        Ok(c) => dir_kept(disk, after, sb, c as int),
        Err(_) => true,
    } by {
        if let Ok(c) = resolve_parts(disk, sb, parts.subrange(0, j)) {
            let ci = c as int;
            assert(ci != idx);
            let cino = inode_in(disk, sb, ci);
            assert(inode_in(st.disk, sb, ci) == cino);
            assert(inode_in(after, sb, ci) == cino);
            assert forall|b: int|
                0 <= b < 10 && #[trigger] ino_direct(cino, b) != 0 && data_block_of(sb, ino_direct(cino, b)) < disk.len()
                    implies after[data_block_of(sb, ino_direct(cino, b))] == disk[data_block_of(sb, ino_direct(cino, b))] by {
                let rr = ino_direct(cino, b);
                assert(guarded(disk, sb, nfb, rr));
                assert(st.disk[data_block_of(sb, rr)] == disk[data_block_of(sb, rr)]);
                assert(data_block_of(sb, rr) != inode_block_of(sb, idx));
            }
        }
    }
    lemma_resolve_kept(disk, after, sb, parts);
}

/// Creating a regular file under `parts`, writing `buf` into it from its
/// start, then resolving the path and reading the file from its start: the
/// path leads to the new file, opening it gives the number of bytes written
/// as its length, and reading from its start gives those bytes back.
///
/// This holds where creating is covered (see `law_create_then_lookup`) and
/// the directories met on the way are consistent and apart from `dir`.
#[verifier::rlimit(100)]
#[verifier::spinoff_prover]
pub proof fn law_create_write_read(disk: Seq<Seq<u8>>, sb: Superblock, parts: Seq<Seq<u8>>, buf: Seq<u8>, dir: u16)
    requires
        parts.len() > 0,
        resolve_parts(disk, sb, parts.drop_last()) == Ok::<u16, FsError>(dir),
        dir_consistent(disk, sb, dir as int),
        ino_is_dir(inode_in(disk, sb, dir as int)),
        storable_name(parts.last()),
        lookup(disk, sb, dir as int, parts.last()) == Err::<u16, FsError>(FsError::FileNotFound),
        forall|i: int|
            0 <= i < sb.spec_inode_count() ==> #[trigger] inode_block_of(sb, i) < sb.spec_data_start()
                && inode_block_of(sb, i) != sb.spec_bitmap_start(),
        path_dirs_apart(disk, sb, parts.drop_last(), dir as int),
    ensures
        ({
            let (r, d1) = create_outcome(disk, sb, parts, new_file_bytes());
            r matches Ok(idx) ==> {
                let (res, st, after) = written(d1, sb, idx as int, buf);
                let ino = inode_in(after, sb, idx as int);
                res is Ok ==> {
                    &&& resolve_parts(after, sb, parts) == Ok::<u16, FsError>(idx)
                    &&& forall|p: Seq<u8>|
                        path_components(p) == parts ==> #[trigger] open_outcome(after, sb, p) == Ok::<
                            (u16, int),
                            FsError,
                        >((idx, st.done))
                    &&& readable_in(after, sb, idx as int)
                    &&& ino_is_file(ino)
                    &&& ino_size(ino) == st.done
                    &&& read_stop(after, sb, ino, 0, st.done) == Ok::<int, FsError>(st.done)
                    &&& forall|k: int| 0 <= k < st.done ==> file_byte(after, sb, ino, k) == buf[k]
                }
            }
        }),
{
    let nfb = new_file_bytes();
    let prefix = parts.drop_last();
    let d = dir as int;
    law_create_then_lookup(disk, sb, parts, nfb, dir);
    let (r, d1) = create_outcome(disk, sb, parts, nfb);
    if let Ok(idx) = r {
        let ii = idx as int;
        assert(inode_in(d1, sb, ii) == nfb);
        assert(readable_in(d1, sb, ii));
        assert(dir_consistent(d1, sb, d));
        assert(inode_block_of(sb, ii) < sb.spec_data_start());
        assert(layout_sane(d1, sb, ii));
        lemma_new_file_written(d1, sb, ii, buf);
        lemma_path_dirs_consistent(d1, sb, parts, d);
        lemma_new_file_write_keeps_paths(d1, sb, ii, buf, parts);
    }
}

/// Formatting leaves a root directory that the laws on creating and linking
/// speak of: the layout is sane, the root holds no entry and no block yet,
/// and every inode block lies before the data area, apart from the bitmap.
/// So creating `/name` on a freshly formatted device finds it again.
pub proof fn law_format_gives_consistent_root(
    before: Seq<Seq<u8>>,
    after: Seq<Seq<u8>>,
    sb: Superblock,
    total_blocks: usize,
    inode_count: usize,
    name: Seq<u8>,
)
    requires
        after.len() == before.len(),
        forall|i: int| 0 <= i < before.len() ==> #[trigger] before[i].len() == 512,
        layout_of(total_blocks, inode_count).inode_start < before.len(),
        layout_of(total_blocks, inode_count).data_start <= before.len(),
        is_formatted_superblock(after[0], total_blocks, inode_count),
        forall|i: int|
            1 <= i < before.len() ==> #[trigger] after[i] == formatted_block(
                before[i],
                i,
                total_blocks,
                inode_count,
            ),
        sb.data@ == after[0],
        1 <= inode_count < 0xFFFF_FFF0,
    ensures
        dir_consistent(after, sb, 0),
        ino_is_dir(inode_in(after, sb, 0)),
        lookup(after, sb, 0, name) == Err::<u16, FsError>(FsError::FileNotFound),
        forall|i: int|
            0 <= i < sb.spec_inode_count() ==> #[trigger] inode_block_of(sb, i) < sb.spec_data_start()
                && inode_block_of(sb, i) != sb.spec_bitmap_start(),
{
    let l = layout_of(total_blocks, inode_count);
    reveal(is_formatted_superblock);
    assert(le_u32(after[0], 28) == formatted_fields(total_blocks, inode_count)[7]);
    assert(le_u32(after[0], 16) == formatted_fields(total_blocks, inode_count)[4]);
    assert(le_u32(after[0], 20) == formatted_fields(total_blocks, inode_count)[5]);
    assert(le_u32(after[0], 36) == formatted_fields(total_blocks, inode_count)[9]);
    assert(sb.spec_inode_start() == l.inode_start);
    assert(sb.spec_inode_count() == (inode_count as u32));
    assert(sb.spec_bitmap_start() == 1);
    assert(sb.spec_data_start() == l.data_start);
    assert(l.data_start == l.inode_start + (inode_count + 15) / 16);
    assert(inode_block_of(sb, 0) == l.inode_start);
    assert(after[l.inode_start] == root_inode_block());
    assert forall|i: int| 0 <= i < after.len() implies #[trigger] after[i].len() == 512 by {
        if i >= 1 {
            assert(after[i] == formatted_block(before[i], i, total_blocks, inode_count));
        }
    }
    let ino = inode_in(after, sb, 0);
    assert(ino =~= Seq::new(32, |_j: int| 0u8).update(0, 2u8).update(25, 1u8));
    assert(le_u32(ino, 1) == 0);
    assert(blocks_spanned(0) == 0);
    assert forall|b: int| 0 <= b < 10 implies #[trigger] ino_direct(ino, b) == 0 by {
        assert(ino[5 + 2 * b] == 0);
        assert(ino[6 + 2 * b] == 0);
    }
}

} // verus!

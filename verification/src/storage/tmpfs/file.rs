//! An open file: an inode and a position in it.
use vstd::prelude::*;

use crate::bytes::{splice, u16_le, u32_le};
use crate::storage::block::{Block512, BlockDevice};
use crate::storage::error::{FsError, FsResult};
use crate::storage::tmpfs::impls::TmpFsImpl;
use crate::storage::tmpfs::layout::{
    alloc_limit_of, bitmap_in, data_block_of, has_clear_bit, ino_direct, ino_size, inode_block_of,
    inode_in, put_inode, read_block_at, set_bit_in, the_first_clear_bit, write_block_at,
};
use crate::storage::tmpfs::layout::readable_in;
use crate::storage::tmpfs::superblock::Superblock;

verus! {

/// Where to move a file's position: from the start, the end, or the
/// current position.
pub enum SeekFrom {
    Start(usize),
    End(isize),
    Current(isize),
}

/// Byte `p` of the file with inode bytes `ino`: byte `p % 512` of the data
/// block in its direct slot `p / 512`.
pub open spec fn file_byte(disk: Seq<Seq<u8>>, sb: Superblock, ino: Seq<u8>, p: int) -> u8 {
    disk[data_block_of(sb, ino_direct(ino, p / 512))][p % 512]
}

/// Where reading from position `pos` towards `end` stops: at `end`, past
/// the tenth block, or at an empty slot; or it fails at a slot whose block
/// is past the device's end.
pub open spec fn read_stop(disk: Seq<Seq<u8>>, sb: Superblock, ino: Seq<u8>, pos: int, end: int) -> FsResult<int>
    decreases end - pos,
{
    if pos >= end || pos < 0 {
        Ok(pos)
    } else {
        let b = pos / 512;
        if b >= 10 {
            Ok(pos)
        } else {
            let rel = ino_direct(ino, b);
            if rel == 0 {
                Ok(pos)
            } else if data_block_of(sb, rel) >= disk.len() {
                Err(FsError::InvalidOffset)
            } else {
                let next = if end < (b + 1) * 512 {
                    end
                } else {
                    (b + 1) * 512
                };
                read_stop(disk, sb, ino, next, end)
            }
        }
    }
}

/// The state while writing: the blocks, the inode bytes as kept in memory,
/// the position, and how many bytes of the buffer are written.
pub struct WriteState {
    pub disk: Seq<Seq<u8>>,
    pub ino: Seq<u8>,
    pub pos: int,
    pub done: int,
}

/// Writing `buf` into the file with inode `idx` from state `st` on, block
/// by block: the outcome (`Ok` or the error that stopped it) and the state
/// where it stopped.
///
/// Each step takes the block of the current position (it stops past the
/// tenth). An empty slot gets the first free data block, and the inode is
/// written with it. The step then writes the bytes that fit into that block:
/// over the block's old contents where it starts inside the block or fills
/// only part of it, over zeros otherwise.
pub open spec fn write_from(sb: Superblock, idx: int, buf: Seq<u8>, st: WriteState) -> (FsResult, WriteState)
    decreases buf.len() - st.done,
{
    let disk = st.disk;
    let ino = st.ino;
    let pos = st.pos;
    let t = st.done;
    if t >= buf.len() || t < 0 || pos < 0 {
        (Ok(()), st)
    } else {
        let b = pos / 512;
        if b >= 10 {
            (Ok(()), st)
        } else {
            let slot = ino_direct(ino, b);
            let bm = bitmap_in(disk, sb);
            let limit = alloc_limit_of(sb);
            if slot == 0 && sb.spec_bitmap_start() >= disk.len() {
                (Err(FsError::InvalidOffset), st)
            } else if slot == 0 && !has_clear_bit(bm, limit) {
                (Err(FsError::NotSupported), st)
            } else {
                let fb = the_first_clear_bit(bm, limit);
                let rel = if slot == 0 {
                    fb + 1
                } else {
                    slot
                };
                let disk1 = if slot == 0 {
                    set_bit_in(disk, sb, fb)
                } else {
                    disk
                };
                let ino1 = if slot == 0 {
                    splice(ino, 5 + 2 * b, u16_le(rel as u16))
                } else {
                    ino
                };
                if slot == 0 && inode_block_of(sb, idx) >= disk.len() {
                    (Err(FsError::InvalidOffset), WriteState { disk: disk1, ino: ino1, pos, done: t })
                } else {
                    let disk2 = if slot == 0 {
                        put_inode(disk1, sb, idx, ino1)
                    } else {
                        disk1
                    };
                    let blk = data_block_of(sb, rel);
                    let off = pos % 512;
                    if blk >= disk.len() {
                        (Err(FsError::InvalidOffset), WriteState { disk: disk2, ino: ino1, pos, done: t })
                    } else {
                        let base = if off > 0 || buf.len() - t < 512 {
                            disk2[blk]
                        } else {
                            Seq::new(512, |_j: int| 0u8)
                        };
                        let count = if buf.len() - t < 512 - off {
                            buf.len() - t
                        } else {
                            512 - off
                        };
                        let disk3 = disk2.update(blk, splice(base, off, buf.subrange(t, t + count)));
                        write_from(sb, idx, buf, WriteState { disk: disk3, ino: ino1, pos: pos + count, done: t + count })
                    }
                }
            }
        }
    }
}

/// An open file of a `TmpFsImpl`.
pub struct TmpFile {
    pub inode_idx: u16,
    pub offset: usize,
}

impl TmpFile {
    /// The current position.
    pub open spec fn pos(&self) -> int {
        self.offset as int
    }

    /// The file with inode `inode_idx`, at position 0.
    pub fn new(inode_idx: u16) -> (r: Self)
        ensures
            r.inode_idx == inode_idx,
            r.pos() == 0,
    {
        Self { inode_idx, offset: 0 }
    }

    /// The size recorded in the inode, or 0 where it cannot be read.
    pub fn length<D: BlockDevice>(&self, fs: &TmpFsImpl<D>) -> (r: usize)
        requires
            fs.wf(),
        ensures
            r == if fs.inode_readable(self.inode_idx as int) {
                ino_size(fs.inode_at(self.inode_idx as int))
            } else {
                0
            },
    {
        match fs.read_inode(self.inode_idx) {
            Ok(i) => i.size() as usize,
            Err(_) => 0,
        }
    }

    /// Reads from the current position into `buf`, up to the file's size,
    /// and moves the position past what it read.
    #[verifier::loop_isolation(false)]
    pub fn read<D: BlockDevice>(&mut self, fs: &TmpFsImpl<D>, buf: &mut [u8]) -> (r: FsResult<usize>)
        requires
            fs.wf(),
        ensures
            final(self).inode_idx == old(self).inode_idx,
            final(buf)@.len() == old(buf)@.len(),
            !fs.inode_readable(old(self).inode_idx as int) ==> r == Err::<usize, FsError>(FsError::InvalidOffset)
                && final(self).pos() == old(self).pos() && final(buf)@ == old(buf)@,
            fs.inode_readable(old(self).inode_idx as int) ==> ({
                let ino = fs.inode_at(old(self).inode_idx as int);
                let size = ino_size(ino);
                let start = old(self).pos();
                let end = if old(buf)@.len() == 0 || start >= size {
                    start
                } else if start + old(buf)@.len() < size {
                    start + old(buf)@.len()
                } else {
                    size
                };
                &&& start <= final(self).pos() <= end
                &&& forall|k: int|
                    0 <= k < final(self).pos() - start ==> final(buf)@[k] == file_byte(fs.disk(), fs.sb, ino, start + k)
                &&& forall|k: int| final(self).pos() - start <= k < old(buf)@.len() ==> final(buf)@[k] == old(buf)@[k]
                &&& match read_stop(fs.disk(), fs.sb, ino, start, end) {
                    Ok(stop) => r == Ok::<usize, FsError>((stop - start) as usize) && final(self).pos() == stop,
                    Err(e) => r == Err::<usize, FsError>(e),
                }
            }),
    {
        let inode = match fs.read_inode(self.inode_idx) {
            Ok(i) => i,
            Err(e) => return Err(e),
        };
        let ghost ino = inode.data@;
        let ghost start = self.offset as int;
        let file_len = inode.size() as usize;
        if buf.len() == 0 || self.offset >= file_len {
            return Ok(0);
        }
        let read_len = if buf.len() < file_len - self.offset {
            buf.len()
        } else {
            file_len - self.offset
        };
        let ghost end = start + read_len;
        let mut total_read: usize = 0;
        while total_read < read_len
            invariant
                total_read <= read_len,
                self.offset == start + total_read,
                self.inode_idx == old(self).inode_idx,
                buf@.len() == old(buf)@.len(),
                read_stop(fs.disk(), fs.sb, ino, self.offset as int, end) == read_stop(fs.disk(), fs.sb, ino, start, end),
                forall|k: int| 0 <= k < total_read ==> buf@[k] == file_byte(fs.disk(), fs.sb, ino, start + k),
                forall|k: int| total_read <= k < buf@.len() ==> buf@[k] == old(buf)@[k],
            decreases read_len - total_read,
        {
            let block_idx = self.offset / 512;
            if block_idx >= 10 {
                break;
            }
            let data_block_rel = inode.direct_block(block_idx);
            if data_block_rel == 0 {
                break;
            }
            let mut block = Block512::zeroed();
            if let Err(e) = read_block_at(&fs.inner, fs.sb.data_start(), data_block_rel as usize, &mut block) {
                return Err(e);
            }
            let offset_in_block = self.offset % 512;
            let remaining_in_block = 512 - offset_in_block;
            let remaining_to_read = read_len - total_read;
            let count = if remaining_to_read < remaining_in_block {
                remaining_to_read
            } else {
                remaining_in_block
            };
            let mut i: usize = 0;
            while i < count
                invariant
                    i <= count,
                    total_read + count <= read_len,
                    offset_in_block + count <= 512,
                    buf@.len() == old(buf)@.len(),
                    forall|k: int| 0 <= k < total_read ==> buf@[k] == file_byte(fs.disk(), fs.sb, ino, start + k),
                    forall|k: int| total_read <= k < total_read + i ==> buf@[k] == block.data@[offset_in_block + (k - total_read)],
                    forall|k: int| total_read + i <= k < buf@.len() ==> buf@[k] == old(buf)@[k],
                decreases count - i,
            {
                buf[total_read + i] = block.data[offset_in_block + i];
                i = i + 1;
            }
            proof {
                assert forall|k: int| 0 <= k < total_read + count implies buf@[k] == file_byte(fs.disk(), fs.sb, ino, start + k) by {
                    if k >= total_read {
                        assert(buf@[k] == block.data@[offset_in_block + (k - total_read)]);
                    }
                }
            }
            total_read = total_read + count;
            self.offset = self.offset + count;
        }
        Ok(total_read)
    }

    /// Writes `buf` from the current position, allocating data blocks as it
    /// goes, moves the position past what it wrote, and records the larger
    /// of the old size and the new position as the size.
    #[verifier::loop_isolation(false)]
    #[verifier::rlimit(50)]
    pub fn write<D: BlockDevice>(&mut self, fs: &mut TmpFsImpl<D>, buf: &[u8]) -> (r: FsResult<usize>)
        requires
            old(fs).wf(),
        ensures
            final(fs).wf(),
            final(fs).sb == old(fs).sb,
            final(self).inode_idx == old(self).inode_idx,
            !old(fs).inode_readable(old(self).inode_idx as int) ==> r == Err::<usize, FsError>(FsError::InvalidOffset)
                && final(fs).disk() == old(fs).disk() && final(self).pos() == old(self).pos(),
            old(fs).inode_readable(old(self).inode_idx as int) ==> ({
                let idx = old(self).inode_idx as int;
                let (res, st) = write_from(
                    old(fs).sb,
                    idx,
                    buf@,
                    WriteState { disk: old(fs).disk(), ino: old(fs).inode_at(idx), pos: old(self).pos(), done: 0 },
                );
                &&& final(self).pos() == st.pos
                &&& match res {
                    Err(e) => r == Err::<usize, FsError>(e) && final(fs).disk() == st.disk,
                    Ok(_) => r == Ok::<usize, FsError>(st.done as usize) && final(fs).disk() == put_inode(
                        st.disk,
                        old(fs).sb,
                        idx,
                        splice(st.ino, 1, u32_le((if ino_size(st.ino) < st.pos { st.pos } else { ino_size(st.ino) }) as u32)),
                    ),
                }
            }),
    {
        let idx = self.inode_idx;
        let mut inode = match fs.read_inode(idx) {
            Ok(i) => i,
            Err(e) => return Err(e),
        };
        let ghost sb = fs.sb;
        let ghost out = write_from(
            sb,
            idx as int,
            buf@,
            WriteState { disk: fs.disk(), ino: inode.data@, pos: self.offset as int, done: 0 },
        );
        let mut total_written: usize = 0;
        while total_written < buf.len()
            invariant
                fs.wf(),
                fs.sb == sb,
                self.inode_idx == idx,
                total_written <= buf@.len(),
                fs.inode_readable(idx as int),
                write_from(sb, idx as int, buf@, WriteState { disk: fs.disk(), ino: inode.data@, pos: self.offset as int, done: total_written as int }) == out,
            decreases buf@.len() - total_written,
        {
            let ghost st = WriteState { disk: fs.disk(), ino: inode.data@, pos: self.offset as int, done: total_written as int };
            let block_idx = self.offset / 512;
            if block_idx >= 10 {
                break;
            }
            let mut data_block_rel = inode.direct_block(block_idx);
            let ghost slot = data_block_rel;
            if data_block_rel == 0 {
                data_block_rel = match fs.allocate_data_block() {
                    Ok(rel) => rel,
                    Err(e) => return Err(e),
                };
                proof {
                    crate::storage::tmpfs::layout::lemma_first_clear_bit(bitmap_in(st.disk, sb), alloc_limit_of(sb));
                }
                inode.set_direct_block(block_idx, data_block_rel);
                if let Err(e) = fs.write_inode(idx, &inode) {
                    return Err(e);
                }
            }
            let offset_in_block = self.offset % 512;
            let mut block = Block512::zeroed();
            if offset_in_block > 0 || (buf.len() - total_written) < 512 {
                if let Err(e) = read_block_at(&fs.inner, fs.sb.data_start(), data_block_rel as usize, &mut block) {
                    return Err(e);
                }
            }
            let remaining_in_block = 512 - offset_in_block;
            let remaining_to_write = buf.len() - total_written;
            let count = if remaining_to_write < remaining_in_block {
                remaining_to_write
            } else {
                remaining_in_block
            };
            let ghost base = block.data@;
            let mut i: usize = 0;
            while i < count
                invariant
                    i <= count,
                    total_written + count <= buf@.len(),
                    offset_in_block + count <= 512,
                    block.data@.len() == 512,
                    forall|k: int| offset_in_block <= k < offset_in_block + i ==> block.data@[k] == buf@[total_written + (k - offset_in_block)],
                    forall|k: int| 0 <= k < 512 && !(offset_in_block <= k < offset_in_block + i) ==> block.data@[k] == base[k],
                decreases count - i,
            {
                block.data[offset_in_block + i] = buf[total_written + i];
                i = i + 1;
            }
            assert(block.data@ =~= splice(base, offset_in_block as int, buf@.subrange(total_written as int, total_written + count)));
            if let Err(e) = write_block_at(&mut fs.inner, fs.sb.data_start(), data_block_rel as usize, &block) {
                return Err(e);
            }
            total_written = total_written + count;
            self.offset = self.offset + count;
        }
        let new_size = (if (inode.size() as usize) < self.offset {
            self.offset
        } else {
            inode.size() as usize
        }) as u32;
        inode.set_size(new_size);
        if let Err(e) = fs.write_inode(idx, &inode) {
            return Err(e);
        }
        Ok(total_written)
    }

    /// Moves the position.
    pub fn seek<D: BlockDevice>(&mut self, fs: &TmpFsImpl<D>, pos: SeekFrom) -> (r: FsResult<usize>)
        requires
            fs.wf(),
            pos matches SeekFrom::Current(d) ==> isize::MIN <= (old(self).pos() as isize) + d <= isize::MAX,
            pos matches SeekFrom::End(d) ==> isize::MIN <= ((if fs.inode_readable(old(self).inode_idx as int) {
                ino_size(fs.inode_at(old(self).inode_idx as int))
            } else {
                0
            }) as isize) + d <= isize::MAX,
        ensures
            final(self).inode_idx == old(self).inode_idx,
            r == Ok::<usize, FsError>(final(self).pos() as usize),
            final(self).pos() == match pos {
                SeekFrom::Start(o) => o as int,
                SeekFrom::Current(d) => (((old(self).pos() as isize) + d) as usize) as int,
                SeekFrom::End(d) => ((((if fs.inode_readable(old(self).inode_idx as int) {
                    ino_size(fs.inode_at(old(self).inode_idx as int))
                } else {
                    0
                }) as isize) + d) as usize) as int,
            },
    {
        match pos {
            SeekFrom::Start(offset) => {
                self.offset = offset;
                Ok(offset)
            },
            SeekFrom::Current(delta) => {
                let new_offset = (self.offset as isize + delta) as usize;
                self.offset = new_offset;
                Ok(new_offset)
            },
            SeekFrom::End(delta) => {
                let file_len = self.length(fs);
                let new_offset = (file_len as isize + delta) as usize;
                self.offset = new_offset;
                Ok(new_offset)
            },
        }
    }
}

} // verus!

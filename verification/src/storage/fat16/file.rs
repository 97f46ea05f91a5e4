//! Reading a file of a FAT16 volume along its cluster chain.
use vstd::prelude::*;

use crate::bytes::{le_u16, le_u32};
use crate::storage::block::{Block512, BlockDevice};
use crate::storage::error::{FsError, FsResult};
use crate::storage::fat16::direntry::{
    is_data_cluster, Cluster, DirEntry, CLUSTER_BAD, CLUSTER_EMPTY, CLUSTER_END_OF_FILE,
};
use crate::storage::fat16::impls::Fat16Impl;

verus! {

impl<D: BlockDevice> Fat16Impl<D> {
    /// Bytes in one cluster.
    pub open spec fn cluster_bytes(&self) -> int {
        self.bpb.bytes_per_sector * self.bpb.sectors_per_cluster
    }

    /// The cluster holding byte `p` of a file that is being read from byte
    /// `off` on, `cur` holding byte `off`: as many clusters further along
    /// the chain as cluster boundaries lie between the two.
    pub open spec fn pos_cluster(&self, cur: u32, off: int, p: int) -> u32 {
        self.chain_at(cur, (p / self.cluster_bytes() - off / self.cluster_bytes()) as nat)
    }

    /// The block holding byte `p`.
    pub open spec fn pos_block(&self, cur: u32, off: int, p: int) -> int {
        self.cluster_sector(self.pos_cluster(cur, off, p)) * self.bpsb() + (p % self.cluster_bytes()) / 512
    }

    /// Byte `p` of the file.
    pub open spec fn pos_byte(&self, cur: u32, off: int, p: int) -> u8 {
        self.disk()[self.pos_block(cur, off, p)][p % 512]
    }

    /// Why byte `p` cannot be read, if it cannot: its cluster is bad, past
    /// the chain's end, free or not a data cluster, or its block lies past
    /// the device's end.
    pub open spec fn pos_fail(&self, cur: u32, off: int, p: int) -> Option<FsError> {
        let c = self.pos_cluster(cur, off, p);
        if c == CLUSTER_BAD {
            Some(FsError::BadCluster)
        } else if c == CLUSTER_EMPTY || c == CLUSTER_END_OF_FILE {
            Some(FsError::EndOfFile)
        } else if !is_data_cluster(c) {
            Some(FsError::InvalidOperation)
        } else if self.pos_block(cur, off, p) >= self.disk().len() {
            Some(FsError::InvalidOffset)
        } else {
            None
        }
    }

    /// Reading from byte `p` towards byte `end`, a block's worth at a time:
    /// it reaches `end`, or stops at the first byte that cannot be read.
    pub open spec fn read_stop(&self, cur: u32, off: int, p: int, end: int) -> Result<int, (int, FsError)>
        decreases end - p,
    {
        if p >= end {
            Ok(end)
        } else {
            match self.pos_fail(cur, off, p) {
                Some(e) => Err((p, e)),
                None => if p - p % 512 + 512 >= end {
                    Ok(end)
                } else {
                    self.read_stop(cur, off, p - p % 512 + 512, end)
                },
            }
        }
    }

    /// Reading that reaches its goal stops exactly at `end`.
    pub proof fn lemma_read_stop_end(&self, cur: u32, off: int, p: int, end: int)
        ensures
            self.read_stop(cur, off, p, end) matches Ok(e) ==> e == end,
        decreases end - p,
    {
        if p < end && self.pos_fail(cur, off, p) is None && p - p % 512 + 512 < end {
            self.lemma_read_stop_end(cur, off, p - p % 512 + 512, end);
        }
    }

    /// A cluster is a whole number of blocks, at least one.
    pub proof fn lemma_cluster_bytes(&self)
        requires
            self.wf(),
        ensures
            self.cluster_bytes() >= 512,
            self.cluster_bytes() % 512 == 0,
            self.cluster_bytes() == 512 * self.cluster_blocks(),
            self.cluster_bytes() <= 65535 * 255,
    {
        let bps = self.bpb.bytes_per_sector as int;
        let spc = self.bpb.sectors_per_cluster as int;
        let b = self.bpsb();
        assert(bps == 512 * b);
        assert(bps * spc == 512 * (spc * b)) by (nonlinear_arith)
            requires
                bps == 512 * b,
        ;
        assert(spc * b >= 1 && bps * spc <= 65535 * 255) by (nonlinear_arith)
            requires
                spc >= 1,
                b >= 1,
                spc <= 255,
                bps <= 65535,
        ;
    }
}

/// An open file of a FAT16 volume: the position, the cluster that holds it,
/// and the file's directory entry.
#[derive(Clone, Copy)]
pub struct File {
    pub offset: usize,
    pub current_cluster: Cluster,
    pub entry: DirEntry,
}

/// Where a read of `want` bytes from `off` ends in a file of `len` bytes.
pub open spec fn read_end(off: int, want: int, len: int) -> int {
    if want == 0 || off >= len {
        off
    } else if off + want < len {
        off + want
    } else {
        len
    }
}

proof fn lemma_chunk_step(x: int, count: int, cs: int)
    requires
        x >= 0,
        cs >= 512,
        cs % 512 == 0,
        1 <= count <= 512 - x % 512,
    ensures
        (x + count) % cs != 0 ==> (x + count) / cs == x / cs,
        (x + count) % cs == 0 ==> (x + count) / cs == x / cs + 1,
{
    let q = x / cs;
    let r = x % cs;
    let m = cs / 512;
    assert(x == q * cs + r && 0 <= r < cs) by (nonlinear_arith)
        requires
            cs > 0,
            q == x / cs,
            r == x % cs,
    ;
    assert(cs == 512 * m) by (nonlinear_arith)
        requires
            cs % 512 == 0,
            m == cs / 512,
    ;
    let k = q * m;
    assert(x == 512 * k + r) by (nonlinear_arith)
        requires
            x == q * cs + r,
            cs == 512 * m,
            k == q * m,
    ;
    assert(x % 512 == r % 512);
    assert(r + count <= cs) by (nonlinear_arith)
        requires
            0 <= r < cs,
            cs == 512 * m,
            1 <= count <= 512 - r % 512,
    ;
    if r + count < cs {
        assert((x + count) / cs == q && (x + count) % cs == r + count) by (nonlinear_arith)
            requires
                x + count == q * cs + (r + count),
                0 <= r + count < cs,
        ;
    } else {
        assert(x + count == (q + 1) * cs) by (nonlinear_arith)
            requires
                x == q * cs + r,
                r + count == cs,
        ;
        assert((x + count) / cs == q + 1 && (x + count) % cs == 0) by (nonlinear_arith)
            requires
                x + count == (q + 1) * cs,
                cs > 0,
        ;
    }
}

/// Bytes of one block share their cluster and their block within it.
proof fn lemma_within_block(x: int, i: int, cs: int)
    requires
        x >= 0,
        cs >= 512,
        cs % 512 == 0,
        0 <= i < 512 - x % 512,
    ensures
        (x + i) / cs == x / cs,
        (x + i) % cs == x % cs + i,
        (x + i) % cs / 512 == x % cs / 512,
        (x + i) % 512 == x % 512 + i,
        x % 512 == (x % cs) % 512,
{
    if i > 0 {
        lemma_chunk_step(x, i, cs);
    }
    let q = x / cs;
    let r = x % cs;
    let m = cs / 512;
    assert(x == q * cs + r && 0 <= r < cs) by (nonlinear_arith)
        requires
            cs > 0,
            q == x / cs,
            r == x % cs,
    ;
    assert(cs == 512 * m) by (nonlinear_arith)
        requires
            cs % 512 == 0,
            m == cs / 512,
    ;
    let k = q * m;
    assert(x == 512 * k + r) by (nonlinear_arith)
        requires
            x == q * cs + r,
            cs == 512 * m,
            k == q * m,
    ;
    assert(x % 512 == r % 512);
    assert(r + i < cs) by (nonlinear_arith)
        requires
            0 <= r < cs,
            cs == 512 * m,
            0 <= i < 512 - r % 512,
    ;
    assert((x + i) / cs == q && (x + i) % cs == r + i) by (nonlinear_arith)
        requires
            x + i == q * cs + (r + i),
            0 <= r + i < cs,
    ;
    assert((r + i) / 512 == r / 512);
}

/// Division by a positive number keeps order.
proof fn lemma_div_mono(a: int, b: int, d: int)
    requires
        0 <= a <= b,
        d > 0,
    ensures
        a / d <= b / d,
{
    assert(a / d <= b / d) by (nonlinear_arith)
        requires
            0 <= a <= b,
            d > 0,
    ;
}

impl File {
    /// A file described by `entry`, at its start.
    pub fn new(entry: DirEntry) -> (r: Self)
        ensures
            r.offset == 0,
            r.current_cluster.0 == le_u16(entry.data@, 26),
            r.entry == entry,
    {
        File { offset: 0, current_cluster: entry.cluster(), entry }
    }

    /// The file's size in bytes.
    pub fn length(&self) -> (r: usize)
        ensures
            r == le_u32(self.entry.data@, 28),
    {
        self.entry.size() as usize
    }

    /// Reads from the current position into `buf`, up to the file's size,
    /// a block's worth at a time along the cluster chain, and moves the
    /// position past what it read.
    #[verifier::loop_isolation(false)]
    #[verifier::rlimit(50)]
    pub fn read<D: BlockDevice>(&mut self, fs: &Fat16Impl<D>, buf: &mut [u8]) -> (r: FsResult<usize>)
        requires
            fs.wf(),
        ensures
            final(self).entry == old(self).entry,
            final(buf)@.len() == old(buf)@.len(),
            ({
                let off = old(self).offset as int;
                let cur = old(self).current_cluster.0;
                let len = le_u32(old(self).entry.data@, 28);
                let end = read_end(off, old(buf)@.len() as int, len);
                let stop = match fs.read_stop(cur, off, off, end) {
                    Ok(e) => e,
                    Err((p, _)) => p,
                };
                &&& final(self).offset == stop
                &&& forall|k: int| 0 <= k < stop - off ==> final(buf)@[k] == fs.pos_byte(cur, off, off + k)
                &&& forall|k: int| stop - off <= k < old(buf)@.len() ==> final(buf)@[k] == old(buf)@[k]
                &&& match fs.read_stop(cur, off, off, end) {
                    Ok(e) => r == Ok::<usize, FsError>((e - off) as usize),
                    Err((_, x)) => r == Err::<usize, FsError>(x),
                }
                &&& if stop == off {
                    final(self).current_cluster == old(self).current_cluster
                } else {
                    final(self).current_cluster.0 == fs.pos_cluster(
                        cur,
                        off,
                        if stop < len {
                            stop
                        } else {
                            stop - 1
                        },
                    )
                }
            }),
    {
        let file_len = self.length();
        let ghost off = self.offset as int;
        let ghost cur = self.current_cluster.0;
        if buf.len() == 0 || self.offset >= file_len {
            return Ok(0);
        }
        proof {
            fs.lemma_cluster_bytes();
        }
        let bytes_per_sector = fs.bpb.bytes_per_sector as usize;
        let sectors_per_cluster = fs.bpb.sectors_per_cluster as usize;
        let cluster_size = bytes_per_sector * sectors_per_cluster;
        let read_len = if buf.len() < file_len - self.offset {
            buf.len()
        } else {
            file_len - self.offset
        };
        let ghost end = off + read_len;
        let ghost cs = fs.cluster_bytes();
        let mut total_read: usize = 0;
        while total_read < read_len
            invariant
                total_read <= read_len,
                end == off + read_len,
                end <= file_len,
                end == read_end(off, old(buf)@.len() as int, file_len as int),
                self.offset == off + total_read,
                self.entry == old(self).entry,
                buf@.len() == old(buf)@.len(),
                cluster_size == cs,
                total_read == 0 ==> self.current_cluster == old(self).current_cluster,
                total_read > 0 ==> self.current_cluster.0 == fs.pos_cluster(
                    cur,
                    off,
                    if self.offset < file_len {
                        self.offset as int
                    } else {
                        self.offset - 1
                    },
                ),
                fs.read_stop(cur, off, off, end) == fs.read_stop(cur, off, self.offset as int, end),
                forall|k: int| 0 <= k < total_read ==> buf@[k] == fs.pos_byte(cur, off, off + k),
                forall|k: int| total_read <= k < buf@.len() ==> buf@[k] == old(buf)@[k],
            decreases read_len - total_read,
        {
            let ghost x = self.offset as int;
            assert(self.current_cluster.0 == fs.pos_cluster(cur, off, x)) by {
                if total_read == 0 {
                    assert(x / cs - off / cs == 0);
                }
            }
            let c = self.current_cluster.0;
            if c == CLUSTER_BAD {
                return Err(FsError::BadCluster);
            }
            if c == CLUSTER_EMPTY || c == CLUSTER_END_OF_FILE {
                return Err(FsError::EndOfFile);
            }
            if c < 2 || c >= 0x1_0000 {
                return Err(FsError::InvalidOperation);
            }
            proof {
                fs.lemma_blocks_fit(c);
                assert(x % cs / 512 < fs.cluster_blocks()) by (nonlinear_arith)
                    requires
                        0 <= x % cs < cs,
                        cs == 512 * fs.cluster_blocks(),
                ;
            }
            let offset_in_cluster = self.offset % cluster_size;
            let first_sector = fs.cluster_to_sector(&self.current_cluster);
            let first_block = fs.sector_to_block(first_sector);
            let offset_in_block = self.offset % 512;
            let mut block = Block512::zeroed();
            if let Err(e) = fs.inner.read_block(first_block + offset_in_cluster / 512, &mut block) {
                return Err(e);
            }
            assert(fs.pos_fail(cur, off, x) is None);
            let remaining_in_block = 512 - offset_in_block;
            let remaining_in_cluster = cluster_size - offset_in_cluster;
            let remaining_to_read = read_len - total_read;
            let mut count = if remaining_in_block < remaining_in_cluster {
                remaining_in_block
            } else {
                remaining_in_cluster
            };
            if remaining_to_read < count {
                count = remaining_to_read;
            }
            proof {
                lemma_within_block(x, 0, cs);
                assert(remaining_in_block <= remaining_in_cluster) by {
                    assert(cs == 512 * fs.cluster_blocks());
                    assert(x % cs - x % 512 + 512 <= cs) by (nonlinear_arith)
                        requires
                            0 <= x % cs < cs,
                            x % 512 == (x % cs) % 512,
                            cs == 512 * fs.cluster_blocks(),
                    ;
                }
            }
            let mut i: usize = 0;
            while i < count
                invariant
                    i <= count,
                    count <= 512 - x % 512,
                    total_read + count <= read_len,
                    offset_in_block == x % 512,
                    buf@.len() == old(buf)@.len(),
                    forall|k: int| 0 <= k < total_read ==> buf@[k] == fs.pos_byte(cur, off, off + k),
                    forall|k: int|
                        total_read <= k < total_read + i ==> buf@[k] == block.data@[offset_in_block + (k - total_read)],
                    forall|k: int| total_read + i <= k < buf@.len() ==> buf@[k] == old(buf)@[k],
                decreases count - i,
            {
                buf[total_read + i] = block.data[offset_in_block + i];
                i = i + 1;
            }
            proof {
                assert forall|k: int| 0 <= k < total_read + count implies buf@[k] == fs.pos_byte(cur, off, off + k) by {
                    if k >= total_read {
                        let d = k - total_read;
                        lemma_within_block(x, d, cs);
                        assert(off + k == x + d);
                        assert(fs.pos_cluster(cur, off, x + d) == fs.pos_cluster(cur, off, x));
                        assert(fs.pos_block(cur, off, x + d) == fs.pos_block(cur, off, x));
                    }
                }
                lemma_chunk_step(x, count as int, cs);
                lemma_div_mono(off, x, cs);
                if count > 1 {
                    lemma_within_block(x, count - 1, cs);
                }
                let nx = x + count;
                if nx < end {
                    assert(nx == x - x % 512 + 512);
                }
            }
            total_read = total_read + count;
            self.offset = self.offset + count;
            if self.offset < file_len && self.offset % cluster_size == 0 {
                self.current_cluster = fs.next_cluster(&self.current_cluster);
                proof {
                    let j = (x / cs - off / cs) as nat;
                    assert((self.offset as int) / cs - off / cs == j + 1);
                    assert(fs.chain_at(cur, j + 1) == fs.next_of(fs.chain_at(cur, j)));
                }
            }
        }
        Ok(total_read)
    }
}

} // verus!

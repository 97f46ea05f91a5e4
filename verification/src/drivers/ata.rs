//! ATA drives: what a drive's identify data says of it.
use vstd::prelude::*;
use vstd::string::StringExecFns;
use vstd::utf8::{encode_utf8, valid_utf8};

use crate::config::{str_trim, trim_back, trim_front};

verus! {

/// Where the serial number starts in the identify data (20 bytes).
pub const ATA_IDENT_SERIAL: usize = 20;

/// Where the model name starts in the identify data (40 bytes).
pub const ATA_IDENT_MODEL: usize = 54;

/// Where the block count starts in the identify data (words 60 and 61).
pub const ATA_IDENT_MAX_LBA: usize = 120;

/// An ATA drive on a bus, with its block count, model and serial number.
pub struct AtaDrive {
    pub bus: u8,
    pub drive: u8,
    blocks: u32,
    model: String,
    serial: String,
}

/// The identify data as bytes: each word high byte first.
pub open spec fn identify_bytes(words: Seq<u16>) -> Seq<u8> {
    Seq::new(
        2 * words.len(),
        |i: int|
            if i % 2 == 0 {
                (words[i / 2] >> 8u16) as u8
            } else {
                (words[i / 2] & 0xFFu16) as u8
            },
    )
}

/// The text that `String::from_utf8_lossy` makes of `bytes`.
pub uninterp spec fn lossy_text(bytes: Seq<u8>) -> Seq<char>;

/// `String::from_utf8_lossy`: `bytes` as text, each invalid sequence
/// replaced by U+FFFD. As std documents, valid UTF-8 is taken as it is;
/// of other bytes only that the result is a function of them is stated.
#[verifier::external_body]
fn utf8_lossy(bytes: &[u8]) -> (r: String)
    ensures
        r@ == lossy_text(bytes@),
        valid_utf8(bytes@) ==> encode_utf8(r@) == bytes@,
{
    String::from_utf8_lossy(bytes).into_owned()
}

/// The text field of `len` bytes at `start` of the identify data, without
/// surrounding whitespace.
pub open spec fn ident_text(words: Seq<u16>, start: int, len: int) -> Seq<char> {
    trim_back(trim_front(lossy_text(identify_bytes(words).subrange(start, start + len))))
}

/// The block count in the identify data: word 61 high, word 60 low.
pub open spec fn ident_blocks(words: Seq<u16>) -> int {
    words[61] as int * 65536 + words[60] as int
}

/// The identify data as bytes.
fn identify_bytes_of(words: &[u16; 256]) -> (r: Vec<u8>)
    ensures
        r@ == identify_bytes(words@),
{
    let mut buf: Vec<u8> = Vec::new();
    let mut k: usize = 0;
    while k < 256
        invariant
            k <= 256,
            words@.len() == 256,
            buf@.len() == 2 * k,
            forall|i: int| 0 <= i < 2 * k ==> #[trigger] buf@[i] == identify_bytes(words@)[i],
        decreases 256 - k,
    {
        let w = words[k];
        buf.push((w >> 8u16) as u8);
        buf.push((w & 0xFFu16) as u8);
        proof {
            let j = 2 * k as int;
            assert(j / 2 == k && (j + 1) / 2 == k && j % 2 == 0 && (j + 1) % 2 == 1);
        }
        k = k + 1;
    }
    assert(buf@ =~= identify_bytes(words@));
    buf
}

/// Bytes `start .. start + len` of `buf`.
fn piece(buf: &Vec<u8>, start: usize, len: usize) -> (r: Vec<u8>)
    requires
        start + len <= buf@.len(),
    ensures
        r@ == buf@.subrange(start as int, start + len),
{
    let n = buf.len();
    let mut out: Vec<u8> = Vec::new();
    let mut k: usize = 0;
    while k < len
        invariant
            k <= len,
            n == buf@.len(),
            start + len <= buf@.len(),
            out@ == buf@.subrange(start as int, start + k),
        decreases len - k,
    {
        out.push(buf[start + k]);
        k = k + 1;
        assert(out@ =~= buf@.subrange(start as int, start + k));
    }
    out
}

/// A text field of the identify data, decoded and trimmed.
fn ident_field(buf: &Vec<u8>, start: usize, len: usize) -> (r: String)
    requires
        start + len <= buf@.len(),
    ensures
        r@ == trim_back(trim_front(lossy_text(buf@.subrange(start as int, start + len)))),
{
    let bytes = piece(buf, start, len);
    let text = utf8_lossy(bytes.as_slice());
    String::from_str(str_trim(text.as_str()))
}

impl AtaDrive {
    /// The bus and the drive on it.
    pub closed spec fn position(&self) -> (u8, u8) {
        (self.bus, self.drive)
    }

    /// The number of blocks.
    pub closed spec fn block_total(&self) -> u32 {
        self.blocks
    }

    /// The model name.
    pub closed spec fn model_text(&self) -> Seq<char> {
        self.model@
    }

    /// The serial number.
    pub closed spec fn serial_text(&self) -> Seq<char> {
        self.serial@
    }

    /// Opens drive `drive` on bus `bus` from what it answered to IDENTIFY:
    /// its identify words where it is a PATA drive, `None` where it is not
    /// (only PATA drives are supported).
    pub fn open(bus: u8, drive: u8, identity: Option<&[u16; 256]>) -> (r: Option<Self>)
        ensures
            r is Some <==> identity is Some,
            identity matches Some(w) ==> (r matches Some(d) && d.position() == (bus, drive)
                && d.block_total() == ident_blocks(w@) && d.serial_text() == ident_text(
                w@,
                ATA_IDENT_SERIAL as int,
                20,
            ) && d.model_text() == ident_text(w@, ATA_IDENT_MODEL as int, 40)),
    {
        let words = match identity {
            None => return None,
            Some(w) => w,
        };
        let buf = identify_bytes_of(words);
        let serial = ident_field(&buf, ATA_IDENT_SERIAL, 20);
        let model = ident_field(&buf, ATA_IDENT_MODEL, 40);
        let w60 = ((buf[ATA_IDENT_MAX_LBA] as u16) << 8u16) | (buf[ATA_IDENT_MAX_LBA + 1] as u16);
        let w61 = ((buf[ATA_IDENT_MAX_LBA + 2] as u16) << 8u16) | (buf[ATA_IDENT_MAX_LBA + 3] as u16);
        proof {
            assert(buf@[120] == identify_bytes(words@)[120]);
            lemma_word_back(words@[60]);
            lemma_word_back(words@[61]);
            assert(120int / 2 == 60 && 121int / 2 == 60 && 122int / 2 == 61 && 123int / 2 == 61);
        }
        let blocks = ((w61 as u32) << 16u32) | (w60 as u32);
        assert(blocks == w61 as u32 * 65536 + w60 as u32) by (bit_vector)
            requires
                blocks == ((w61 as u32) << 16u32) | (w60 as u32),
        ;
        Some(AtaDrive { bus, drive, blocks, model, serial })
    }

    /// The number of blocks.
    pub fn block_count(&self) -> (r: usize)
        ensures
            r == self.block_total(),
    {
        self.blocks as usize
    }

    /// The model name.
    pub fn model(&self) -> (r: &str)
        ensures
            r@ == self.model_text(),
    {
        self.model.as_str()
    }

    /// The serial number.
    pub fn serial(&self) -> (r: &str)
        ensures
            r@ == self.serial_text(),
    {
        self.serial.as_str()
    }
}

/// A word is its high byte then its low byte.
proof fn lemma_word_back(w: u16)
    ensures
        ((((w >> 8u16) as u8) as u16) << 8u16) | (((w & 0xFFu16) as u8) as u16) == w,
{
    assert(((((w >> 8u16) as u8) as u16) << 8u16) | (((w & 0xFFu16) as u8) as u16) == w) by (bit_vector);
}

} // verus!

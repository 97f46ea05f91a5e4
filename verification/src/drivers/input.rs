//! Keyboard input: a bounded queue of key bytes, and the line editor that
//! turns key bytes into a line of text.
use crossbeam_queue::ArrayQueue;
use vstd::prelude::*;
use vstd::string::{StrSliceExecFns, StringSliceAdditionalSpecFns};
use vstd::utf8::{decode_utf8, encode_utf8_decode_utf8, valid_utf8};

use crate::storage::text::{str_from_utf8, utf8_cut_short};

verus! {

#[verifier::external_type_specification]
#[verifier::external_body]
#[verifier::reject_recursive_types(T)]
pub struct ExArrayQueue<T>(ArrayQueue<T>);

/// What a queue of key bytes holds, oldest first.
pub uninterp spec fn queue_items(q: ArrayQueue<u8>) -> Seq<u8>;

/// How many bytes a queue of key bytes was made to hold.
pub uninterp spec fn queue_cap(q: ArrayQueue<u8>) -> nat;

/// `ArrayQueue::new`: an empty queue of `cap` bytes (it panics on a zero
/// capacity).
#[verifier::external_body]
fn queue_new(cap: usize) -> (r: ArrayQueue<u8>)
    requires
        0 < cap <= 4096,
    ensures
        queue_items(r) == Seq::<u8>::empty(),
        queue_cap(r) == cap,
{
    ArrayQueue::new(cap)
}

/// `ArrayQueue::push`: appends `v` unless the queue is full, in which case
/// `v` comes back as the error.
#[verifier::external_body]
fn queue_push(q: &mut ArrayQueue<u8>, v: u8) -> (r: Result<(), u8>)
    ensures
        queue_cap(*final(q)) == queue_cap(*old(q)),
        queue_items(*old(q)).len() < queue_cap(*old(q)) ==> r is Ok && queue_items(*final(q)) == queue_items(*old(q)).push(v),
        queue_items(*old(q)).len() >= queue_cap(*old(q)) ==> (r matches Err(e) && e == v) && queue_items(*final(q)) == queue_items(*old(q)),
{
    q.push(v)
}

/// `ArrayQueue::pop`: takes the oldest byte, or `None` from an empty queue.
#[verifier::external_body]
fn queue_pop(q: &mut ArrayQueue<u8>) -> (r: Option<u8>)
    ensures
        queue_cap(*final(q)) == queue_cap(*old(q)),
        queue_items(*old(q)).len() == 0 ==> r is None && queue_items(*final(q)) == queue_items(*old(q)),
        queue_items(*old(q)).len() > 0 ==> r == Some(queue_items(*old(q))[0]) && queue_items(*final(q))
            == queue_items(*old(q)).drop_first(),
{
    q.pop()
}

/// The keys typed and not read yet, up to 128 of them.
pub struct InputBuffer {
    pub queue: ArrayQueue<u8>,
}

pub const INPUT_BUFFER_SIZE: usize = 128;

impl InputBuffer {
    pub open spec fn keys(&self) -> Seq<u8> {
        queue_items(self.queue)
    }

    pub open spec fn inv(&self) -> bool {
        queue_cap(self.queue) == INPUT_BUFFER_SIZE && self.keys().len() <= INPUT_BUFFER_SIZE
    }

    /// An empty buffer.
    pub fn init() -> (r: Self)
        ensures
            r.inv(),
            r.keys() == Seq::<u8>::empty(),
    {
        InputBuffer { queue: queue_new(INPUT_BUFFER_SIZE) }
    }
}

/// Queues `key`; a key that finds the buffer full is dropped.
pub fn push_key(buf: &mut InputBuffer, key: u8)
    requires
        old(buf).inv(),
    ensures
        final(buf).inv(),
        old(buf).keys().len() < INPUT_BUFFER_SIZE ==> final(buf).keys() == old(buf).keys().push(key),
        old(buf).keys().len() >= INPUT_BUFFER_SIZE ==> final(buf).keys() == old(buf).keys(),
{
    let _ = queue_push(&mut buf.queue, key);
}

/// Takes the oldest key, if there is one.
pub fn try_pop_key(buf: &mut InputBuffer) -> (r: Option<u8>)
    requires
        old(buf).inv(),
    ensures
        final(buf).inv(),
        old(buf).keys().len() == 0 ==> r is None && final(buf).keys() == old(buf).keys(),
        old(buf).keys().len() > 0 ==> r == Some(old(buf).keys()[0]) && final(buf).keys() == old(buf).keys().drop_first(),
{
    queue_pop(&mut buf.queue)
}

/// Keys are read in the order they were typed: pushing keys into an empty
/// buffer and popping them gives them back in that order.
pub proof fn law_keys_fifo(before: Seq<u8>, key: u8)
    requires
        before.len() < INPUT_BUFFER_SIZE,
    ensures
        before.len() > 0 ==> before.push(key)[0] == before[0] && before.push(key).drop_first() == before.drop_first().push(key),
        before.len() == 0 ==> before.push(key)[0] == key,
{
    if before.len() > 0 {
        assert(before.push(key).drop_first() =~= before.drop_first().push(key));
    }
}

/// Control bytes the line editor ignores.
pub open spec fn ignored_ctrl(c: u8) -> bool {
    c <= 0x07 || c == 0x09 || c == 0x0B || c == 0x0C || (0x0E <= c && c <= 0x1A) || (0x1C <= c && c <= 0x1F)
        || c == 0x1B
}

/// Whether the line editor ignores control byte `c`.
pub fn is_ignored_ctrl(c: u8) -> (r: bool)
    ensures
        r == ignored_ctrl(c),
{
    c <= 0x07 || c == 0x09 || c == 0x0B || c == 0x0C || (0x0E <= c && c <= 0x1A) || (0x1C <= c && c <= 0x1F)
        || c == 0x1B
}

/// Where the line editor is in an ANSI escape sequence.
#[derive(Clone, Copy, Debug, PartialEq, Eq, Structural)]
pub enum EscapeState {
    Normal,
    /// After ESC.
    Escape,
    /// After ESC `[` or ESC `O`, until the final byte.
    Sequence,
}

/// What the terminal is to show after a key.
#[derive(Clone, Copy, Debug, PartialEq, Eq, Structural)]
pub enum LineEvent {
    Nothing,
    /// Erase the last character, `width` columns wide.
    Erase { width: usize },
    /// Show the character just added.
    Echo { ch: char },
    /// The line is complete.
    Done,
}

/// The line editor's state: the line so far, the bytes of a character not
/// complete yet, and the escape-sequence state.
pub struct LineEditor {
    pub line: Vec<char>,
    pub pending: Vec<u8>,
    pub escape: EscapeState,
}

/// What one key byte `c` does to the line `line`, the pending bytes `pending`
/// and the escape state `esc`.
pub open spec fn edit_step(line: Seq<char>, pending: Seq<u8>, esc: EscapeState, c: u8) -> (
    Seq<char>,
    Seq<u8>,
    EscapeState,
    LineEvent,
) {
    match esc {
        EscapeState::Escape => (
            line,
            pending,
            if c == 0x5B || c == 0x4F {
                EscapeState::Sequence
            } else {
                EscapeState::Normal
            },
            LineEvent::Nothing,
        ),
        EscapeState::Sequence => (
            line,
            pending,
            if 0x40 <= c && c <= 0x7E {
                EscapeState::Normal
            } else {
                EscapeState::Sequence
            },
            LineEvent::Nothing,
        ),
        EscapeState::Normal => if c == 0x1B {
            (line, Seq::empty(), EscapeState::Escape, LineEvent::Nothing)
        } else if ignored_ctrl(c) {
            (line, Seq::empty(), EscapeState::Normal, LineEvent::Nothing)
        } else if c == 0x08 || c == 0x7F {
            if line.len() > 0 {
                (
                    line.drop_last(),
                    Seq::empty(),
                    EscapeState::Normal,
                    LineEvent::Erase {
                        width: if (line.last() as u32) < 128 {
                            1
                        } else {
                            2
                        },
                    },
                )
            } else {
                (line, Seq::empty(), EscapeState::Normal, LineEvent::Nothing)
            }
        } else if c == 0x0A || c == 0x0D {
            (line, pending, EscapeState::Normal, LineEvent::Done)
        } else {
            let p = pending.push(c);
            if valid_utf8(p) {
                let ch = decode_utf8(p)[0];
                (line.push(ch), Seq::empty(), EscapeState::Normal, LineEvent::Echo { ch })
            } else if !utf8_cut_short(p) || p.len() >= 4 {
                (line, Seq::empty(), EscapeState::Normal, LineEvent::Nothing)
            } else {
                (line, p, EscapeState::Normal, LineEvent::Nothing)
            }
        },
    }
}

impl LineEditor {
    pub open spec fn inv(&self) -> bool {
        self.pending@.len() <= 3
    }

    /// An empty line.
    pub fn new() -> (r: Self)
        ensures
            r.inv(),
            r.line@ == Seq::<char>::empty(),
            r.pending@ == Seq::<u8>::empty(),
            r.escape == EscapeState::Normal,
    {
        LineEditor { line: Vec::new(), pending: Vec::new(), escape: EscapeState::Normal }
    }

    /// Takes one key byte.
    pub fn feed(&mut self, c: u8) -> (r: LineEvent)
        requires
            old(self).inv(),
        ensures
            final(self).inv(),
            (final(self).line@, final(self).pending@, final(self).escape, r) == edit_step(
                old(self).line@,
                old(self).pending@,
                old(self).escape,
                c,
            ),
    {
        match self.escape {
            EscapeState::Escape => {
                self.escape = if c == 0x5B || c == 0x4F {
                    EscapeState::Sequence
                } else {
                    EscapeState::Normal
                };
                return LineEvent::Nothing;
            },
            EscapeState::Sequence => {
                if 0x40 <= c && c <= 0x7E {
                    self.escape = EscapeState::Normal;
                }
                return LineEvent::Nothing;
            },
            EscapeState::Normal => {},
        }
        if c == 0x1B {
            self.escape = EscapeState::Escape;
            self.pending = Vec::new();
            return LineEvent::Nothing;
        }
        if is_ignored_ctrl(c) {
            self.pending = Vec::new();
            return LineEvent::Nothing;
        }
        if c == 0x08 || c == 0x7F {
            self.pending = Vec::new();
            return match self.line.pop() {
                Some(ch) => {
                    let width = if (ch as u32) < 128 {
                        1
                    } else {
                        2
                    };
                    LineEvent::Erase { width }
                },
                None => LineEvent::Nothing,
            };
        }
        if c == 0x0A || c == 0x0D {
            return LineEvent::Done;
        }
        self.pending.push(c);
        match str_from_utf8(self.pending.as_slice()) {
            Ok(s) => {
                proof {
                    encode_utf8_decode_utf8(s@);
                }
                let ch = s.get_char(0);
                self.line.push(ch);
                self.pending = Vec::new();
                LineEvent::Echo { ch }
            },
            Err(cut) => {
                if !cut || self.pending.len() >= 4 {
                    self.pending = Vec::new();
                }
                LineEvent::Nothing
            },
        }
    }
}

/// What one byte `c` does to the line `line` of the byte-wise line reader:
/// backspace and delete take the last character off, a line end finishes
/// the line, and any other byte is taken as the character of that number.
pub open spec fn read_line_step(line: Seq<char>, c: u8) -> (Seq<char>, LineEvent) {
    if c == 0x08 || c == 0x7F {
        if line.len() > 0 {
            (line.drop_last(), LineEvent::Erase { width: 1 })
        } else {
            (line, LineEvent::Nothing)
        }
    } else if c == 0x0A || c == 0x0D {
        (line, LineEvent::Done)
    } else {
        (line.push(c as char), LineEvent::Echo { ch: c as char })
    }
}

/// Takes one byte into the line of the byte-wise line reader.
pub fn read_line_feed(line: &mut Vec<char>, c: u8) -> (r: LineEvent)
    ensures
        (final(line)@, r) == read_line_step(old(line)@, c),
{
    if c == 0x08 || c == 0x7F {
        return match line.pop() {
            Some(_) => LineEvent::Erase { width: 1 },
            None => LineEvent::Nothing,
        };
    }
    if c == 0x0A || c == 0x0D {
        return LineEvent::Done;
    }
    let ch = c as char;
    line.push(ch);
    LineEvent::Echo { ch }
}

} // verus!

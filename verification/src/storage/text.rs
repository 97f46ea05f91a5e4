//! Byte strings: zero-terminated names, UTF-8 checks, paths.
use vstd::prelude::*;
use vstd::string::StringSliceAdditionalSpecFns;
use vstd::utf8::{
    encode_utf8_valid_utf8, is_char_boundary, is_char_boundary_iff_is_leading_byte,
    is_char_boundary_start_end_of_seq, is_leading_byte_width_1, length_of_first_scalar,
    pop_first_scalar, valid_utf8, valid_utf8_split,
};

verus! {

/// The bytes of `s` before its first zero byte (all of `s` if it has none).
pub open spec fn prefix_before_zero(s: Seq<u8>) -> Seq<u8>
    decreases s.len(),
{
    if s.len() == 0 || s[0] == 0 {
        Seq::empty()
    } else {
        seq![s[0]] + prefix_before_zero(s.drop_first())
    }
}

pub proof fn lemma_prefix_before_zero(s: Seq<u8>, n: int)
    requires
        0 <= n <= s.len(),
        forall|j: int| 0 <= j < n ==> s[j] != 0,
        n == s.len() || s[n] == 0,
    ensures
        prefix_before_zero(s) == s.subrange(0, n),
    decreases n,
{
    if n == 0 {
        assert(s.subrange(0, 0) =~= Seq::<u8>::empty());
    } else {
        lemma_prefix_before_zero(s.drop_first(), n - 1);
        assert(seq![s[0]] + s.drop_first().subrange(0, n - 1) =~= s.subrange(0, n));
    }
}

/// Bytes that are only cut short: more bytes could still make them UTF-8.
pub open spec fn utf8_cut_short(v: Seq<u8>) -> bool {
    exists|more: Seq<u8>| #[trigger] valid_utf8(v + more)
}

/// Reads `v` as UTF-8 text, as `core::str::from_utf8` does; a failure
/// says whether the bytes were only cut short.
///
/// Trusted: `core::str::from_utf8` is documented to succeed exactly on valid
/// UTF-8 and then to give a string made of those same bytes. Its error's
/// `error_len` is documented to be `None` where the end of the input came
/// unexpectedly, in what could be a character spanning more input, and
/// `Some` where an unexpected byte came: the bytes are cut short in the
/// first case only.
#[verifier::external_body]
pub fn str_from_utf8(v: &[u8]) -> (r: Result<&str, bool>)
    ensures
        r is Ok <==> valid_utf8(v@),
        r matches Ok(s) ==> s.spec_bytes() == v@,
        r matches Err(cut) ==> cut == utf8_cut_short(v@),
{
    match core::str::from_utf8(v) {
        Ok(s) => Ok(s),
        Err(e) => Err(e.error_len().is_none()),
    }
}

pub const PATH_SEPARATOR: u8 = 0x2f;

/// Splitting `p` at separators, left to right: the components completed so
/// far and the bytes of the one being read.
pub open spec fn split_state(p: Seq<u8>) -> (Seq<Seq<u8>>, Seq<u8>)
    decreases p.len(),
{
    if p.len() == 0 {
        (Seq::empty(), Seq::empty())
    } else {
        let (done, cur) = split_state(p.drop_last());
        if p.last() == PATH_SEPARATOR {
            (
                if cur.len() > 0 {
                    done.push(cur)
                } else {
                    done
                },
                Seq::empty(),
            )
        } else {
            (done, cur.push(p.last()))
        }
    }
}

/// The non-empty pieces of `p` between separators, in order.
pub open spec fn path_components(p: Seq<u8>) -> Seq<Seq<u8>> {
    let (done, cur) = split_state(p);
    if cur.len() > 0 {
        done.push(cur)
    } else {
        done
    }
}

/// In valid UTF-8, a character boundary follows every one-byte (ASCII)
/// character.
pub proof fn lemma_boundary_after_ascii(bytes: Seq<u8>, i: int)
    requires
        valid_utf8(bytes),
        0 <= i < bytes.len(),
        is_leading_byte_width_1(bytes[i]),
    ensures
        is_char_boundary(bytes, i + 1),
    decreases bytes.len(),
{
    reveal_with_fuel(is_char_boundary, 2);
    is_char_boundary_iff_is_leading_byte(bytes, i);
    let l = length_of_first_scalar(bytes);
    assert(1 <= l <= 4);
    let tail = pop_first_scalar(bytes);
    if i == 0 {
        assert(l == 1);
    } else {
        assert(i >= l);
        assert(tail[i - l] == bytes[i]);
        lemma_boundary_after_ascii(tail, i - l);
    }
}

/// The byte strings of a sequence of strings.
pub open spec fn strs_bytes(v: Seq<&str>) -> Seq<Seq<u8>> {
    v.map_values(|s: &str| s.spec_bytes())
}

/// The piece of `path` from byte `start` to byte `end`, where each end is
/// the end of the string or next to an ASCII byte.
pub fn str_piece<'a>(path: &'a str, start: usize, end: usize) -> (r: &'a str)
    requires
        start <= end <= path.spec_bytes().len(),
        start == 0 || path.spec_bytes()[start - 1] < 0x80,
        end == path.spec_bytes().len() || path.spec_bytes()[end as int] < 0x80,
    ensures
        r.spec_bytes() == path.spec_bytes().subrange(start as int, end as int),
{
    let ghost b = path.spec_bytes();
    proof {
        encode_utf8_valid_utf8(path@);
        is_char_boundary_start_end_of_seq(b);
        if end < b.len() {
            is_char_boundary_iff_is_leading_byte(b, end as int);
        }
    }
    let head = path.split_at(end).0;
    let ghost hb = b.subrange(0, end as int);
    proof {
        valid_utf8_split(b, end as int);
        assert(head.spec_bytes() == hb);
        is_char_boundary_start_end_of_seq(hb);
        if start > 0 {
            lemma_boundary_after_ascii(hb, start - 1);
        }
    }
    let piece = head.split_at(start).1;
    assert(piece.spec_bytes() =~= b.subrange(start as int, end as int));
    piece
}

/// Splits `path` at `/` and keeps the non-empty pieces, as strings.
pub fn split_path_str<'a>(path: &'a str) -> (r: Vec<&'a str>)
    ensures
        strs_bytes(r@) == path_components(path.spec_bytes()),
{
    let bytes = path.as_bytes();
    let ghost b = bytes@;
    let mut parts: Vec<&str> = Vec::new();
    let mut start: usize = 0;
    let mut i: usize = 0;
    assert(strs_bytes(parts@) =~= Seq::<Seq<u8>>::empty());
    while i < bytes.len()
        invariant
            b == bytes@,
            b == path.spec_bytes(),
            start <= i <= b.len(),
            start == 0 || b[start - 1] == PATH_SEPARATOR,
            (strs_bytes(parts@), b.subrange(start as int, i as int)) == split_state(
                b.subrange(0, i as int),
            ),
        decreases b.len() - i,
    {
        let ghost prev = b.subrange(0, i as int);
        assert(b.subrange(0, i + 1).drop_last() =~= prev);
        if bytes[i] == PATH_SEPARATOR {
            if i > start {
                let piece = str_piece(path, start, i);
                let ghost before = parts@;
                parts.push(piece);
                assert(strs_bytes(parts@) =~= strs_bytes(before).push(piece.spec_bytes()));
            }
            start = i + 1;
            assert(b.subrange(start as int, i + 1) =~= Seq::<u8>::empty());
        } else {
            assert(b.subrange(start as int, i + 1) =~= b.subrange(start as int, i as int).push(b[i as int]));
        }
        i = i + 1;
    }
    assert(b.subrange(0, b.len() as int) =~= b);
    if i > start {
        let piece = str_piece(path, start, i);
        let ghost before = parts@;
        parts.push(piece);
        assert(strs_bytes(parts@) =~= strs_bytes(before).push(piece.spec_bytes()));
    }
    parts
}

/// Where the last separator in `p` is, or -1.
pub open spec fn last_separator(p: Seq<u8>) -> int
    decreases p.len(),
{
    if p.len() == 0 {
        -1
    } else if p.last() == PATH_SEPARATOR {
        p.len() - 1
    } else {
        last_separator(p.drop_last())
    }
}

/// The bytes after the last separator in `p` (all of `p` if it has none).
pub open spec fn last_segment(p: Seq<u8>) -> Seq<u8> {
    p.subrange(last_separator(p) + 1, p.len() as int)
}

proof fn lemma_last_separator(p: Seq<u8>, i: int)
    requires
        0 <= i <= p.len(),
        forall|j: int| i <= j < p.len() ==> p[j] != PATH_SEPARATOR,
        i == 0 || p[i - 1] == PATH_SEPARATOR,
    ensures
        last_separator(p) == i - 1,
    decreases p.len(),
{
    if p.len() > 0 && i < p.len() {
        lemma_last_separator(p.drop_last(), i);
    }
}

/// The part of `path` after its last `/`.
pub fn last_segment_str<'a>(path: &'a str) -> (r: &'a str)
    ensures
        r.spec_bytes() == last_segment(path.spec_bytes()),
{
    let bytes = path.as_bytes();
    let ghost b = bytes@;
    let mut i: usize = bytes.len();
    while i > 0 && bytes[i - 1] != PATH_SEPARATOR
        invariant
            b == bytes@,
            i <= b.len(),
            forall|j: int| i <= j < b.len() ==> b[j] != PATH_SEPARATOR,
        decreases i,
    {
        i = i - 1;
    }
    proof { lemma_last_separator(b, i as int); }
    if i == bytes.len() {
        proof {
            encode_utf8_valid_utf8(path@);
            is_char_boundary_start_end_of_seq(b);
        }
        let tail = path.split_at(i).1;
        assert(tail.spec_bytes() =~= last_segment(b));
        return tail;
    }
    str_piece(path, i, bytes.len())
}

/// In valid UTF-8, the end of a prefix that is itself valid UTF-8 is a
/// character boundary.
pub proof fn lemma_valid_prefix_boundary(p: Seq<u8>, s: Seq<u8>)
    requires
        valid_utf8(p),
        valid_utf8(s),
        p.len() <= s.len(),
        s.subrange(0, p.len() as int) == p,
    ensures
        is_char_boundary(s, p.len() as int),
    decreases p.len(),
{
    reveal_with_fuel(is_char_boundary, 2);
    if p.len() > 0 {
        assert(p[0] == s[0]);
        let l = length_of_first_scalar(p);
        assert(l == length_of_first_scalar(s));
        assert(1 <= l <= p.len());
        let tp = pop_first_scalar(p);
        let ts = pop_first_scalar(s);
        assert(ts.subrange(0, tp.len() as int) =~= tp);
        lemma_valid_prefix_boundary(tp, ts);
    }
}

/// The rest of `path` after `prefix`, where `path` starts with `prefix`.
pub fn strip_prefix_str<'a>(path: &'a str, prefix: &str) -> (r: Option<&'a str>)
    ensures
        r is Some <==> (prefix.spec_bytes().len() <= path.spec_bytes().len() && path.spec_bytes().subrange(
            0,
            prefix.spec_bytes().len() as int,
        ) == prefix.spec_bytes()),
        r matches Some(rest) ==> rest.spec_bytes() == path.spec_bytes().subrange(
            prefix.spec_bytes().len() as int,
            path.spec_bytes().len() as int,
        ),
{
    let pb = prefix.as_bytes();
    let sb = path.as_bytes();
    if pb.len() > sb.len() {
        return None;
    }
    let mut i: usize = 0;
    while i < pb.len()
        invariant
            pb@ == prefix.spec_bytes(),
            sb@ == path.spec_bytes(),
            pb@.len() <= sb@.len(),
            i <= pb@.len(),
            forall|j: int| 0 <= j < i ==> sb@[j] == pb@[j],
        decreases pb@.len() - i,
    {
        if pb[i] != sb[i] {
            assert(sb@.subrange(0, pb@.len() as int)[i as int] != pb@[i as int]);
            return None;
        }
        i = i + 1;
    }
    assert(sb@.subrange(0, pb@.len() as int) =~= pb@);
    proof {
        encode_utf8_valid_utf8(path@);
        encode_utf8_valid_utf8(prefix@);
        lemma_valid_prefix_boundary(pb@, sb@);
    }
    let rest = path.split_at(pb.len()).1;
    Some(rest)
}

/// Whether two byte strings are equal.
pub fn bytes_eq(a: &[u8], b: &[u8]) -> (r: bool)
    ensures
        r == (a@ == b@),
{
    if a.len() != b.len() {
        return false;
    }
    let mut i: usize = 0;
    while i < a.len()
        invariant
            i <= a@.len(),
            a@.len() == b@.len(),
            forall|j: int| 0 <= j < i ==> a@[j] == b@[j],
        decreases a@.len() - i,
    {
        if a[i] != b[i] {
            return false;
        }
        i = i + 1;
    }
    assert(a@ =~= b@);
    true
}

} // verus!

//! The bootloader's configuration file: `key=value` lines.
use vstd::prelude::*;
use vstd::string::StringSliceAdditionalSpecFns;
use vstd::utf8::{
    decode_utf8, encode_utf8, encode_utf8_decode_utf8, is_ascii_chars_encode_utf8, is_continuation_byte, valid_utf8,
};

use crate::shell::is_whitespace;
use crate::storage::text::{bytes_eq, str_from_utf8, str_piece, strs_bytes};

verus! {

/// Whether `c` is whitespace by the Unicode `White_Space` property.
pub open spec fn unicode_whitespace(c: char) -> bool {
    let u = c as u32;
    (0x9 <= u && u <= 0xD) || u == 0x20 || u == 0x85 || u == 0xA0 || u == 0x1680 || (0x2000 <= u && u
        <= 0x200A) || u == 0x2028 || u == 0x2029 || u == 0x202F || u == 0x205F || u == 0x3000
}

/// `s` without its leading whitespace.
pub open spec fn trim_front(s: Seq<char>) -> Seq<char>
    decreases s.len(),
{
    if s.len() > 0 && unicode_whitespace(s[0]) {
        trim_front(s.drop_first())
    } else {
        s
    }
}

/// `s` without its trailing whitespace.
pub open spec fn trim_back(s: Seq<char>) -> Seq<char>
    decreases s.len(),
{
    if s.len() > 0 && unicode_whitespace(s.last()) {
        trim_back(s.drop_last())
    } else {
        s
    }
}

proof fn lemma_trim_front(s: Seq<char>, a: int)
    requires
        0 <= a <= s.len(),
        forall|j: int| 0 <= j < a ==> unicode_whitespace(#[trigger] s[j]),
        a == s.len() || !unicode_whitespace(s[a]),
    ensures
        trim_front(s) == s.subrange(a, s.len() as int),
    decreases a,
{
    if a > 0 {
        lemma_trim_front(s.drop_first(), a - 1);
        assert(s.drop_first().subrange(a - 1, s.len() - 1) =~= s.subrange(a, s.len() as int));
    } else {
        assert(s.subrange(0, s.len() as int) =~= s);
    }
}

proof fn lemma_trim_back(s: Seq<char>, b: int)
    requires
        0 <= b <= s.len(),
        forall|j: int| b <= j < s.len() ==> unicode_whitespace(#[trigger] s[j]),
        b == 0 || !unicode_whitespace(s[b - 1]),
    ensures
        trim_back(s) == s.subrange(0, b),
    decreases s.len() - b,
{
    if b < s.len() {
        lemma_trim_back(s.drop_last(), b);
        assert(s.drop_last().subrange(0, b) =~= s.subrange(0, b));
    } else {
        assert(s.subrange(0, b) =~= s);
    }
}

/// `s` without leading and trailing whitespace, whitespace being what the
/// Unicode `White_Space` property lists, as `str::trim` has it.
pub(crate) fn str_trim(s: &str) -> (r: &str)
    ensures
        r@ == trim_back(trim_front(s@)),
{
    let n = s.unicode_len();
    let mut a: usize = 0;
    while a < n && is_whitespace(s.get_char(a))
        invariant
            n == s@.len(),
            a <= n,
            forall|j: int| 0 <= j < a ==> unicode_whitespace(#[trigger] s@[j]),
        decreases n - a,
    {
        a = a + 1;
    }
    proof {
        lemma_trim_front(s@, a as int);
    }
    let ghost t = s@.subrange(a as int, n as int);
    let mut b: usize = n;
    while b > a && is_whitespace(s.get_char(b - 1))
        invariant
            n == s@.len(),
            a <= b <= n,
            forall|j: int| b <= j < n ==> unicode_whitespace(#[trigger] s@[j]),
        decreases b,
    {
        b = b - 1;
    }
    proof {
        assert forall|j: int| b - a <= j < t.len() implies unicode_whitespace(#[trigger] t[j]) by {
            assert(t[j] == s@[j + a]);
        }
        if b > a {
            assert(t[b - a - 1] == s@[b - 1]);
        }
        lemma_trim_back(t, b - a);
        assert(t.subrange(0, b - a) =~= s@.subrange(a as int, b as int));
    }
    s.substring_char(a, b)
}

/// Splitting bytes `p` into lines, left to right: the lines completed so
/// far and the bytes of the one being read.
pub open spec fn line_state(p: Seq<u8>) -> (Seq<Seq<u8>>, Seq<u8>)
    decreases p.len(),
{
    if p.len() == 0 {
        (Seq::empty(), Seq::empty())
    } else {
        let (done, cur) = line_state(p.drop_last());
        if p.last() == 0x0A {
            (done.push(strip_cr(cur)), Seq::empty())
        } else {
            (done, cur.push(p.last()))
        }
    }
}

/// A line that ended in `\r\n` loses the `\r`.
pub open spec fn strip_cr(s: Seq<u8>) -> Seq<u8> {
    if s.len() > 0 && s.last() == 0x0D {
        s.drop_last()
    } else {
        s
    }
}

/// The lines of `p` as `str::lines` gives them: split at `\n`, a `\r`
/// before the `\n` dropped, no empty line after a final `\n`.
pub open spec fn lines_of(p: Seq<u8>) -> Seq<Seq<u8>> {
    let (done, cur) = line_state(p);
    if cur.len() > 0 {
        done.push(cur)
    } else {
        done
    }
}

/// The value of the digits `s` in base `radix` (most significant first).
pub open spec fn digits_value(s: Seq<u8>, radix: int) -> int
    decreases s.len(),
{
    if s.len() == 0 {
        0
    } else {
        digits_value(s.drop_last(), radix) * radix + digit_of(s.last())
    }
}

/// The value of digit byte `b` (`0`-`9`, then `a`-`f` or `A`-`F`).
pub open spec fn digit_of(b: u8) -> int {
    if 0x30 <= b && b <= 0x39 {
        b - 0x30
    } else if 0x61 <= b && b <= 0x66 {
        b - 0x61 + 10
    } else if 0x41 <= b && b <= 0x46 {
        b - 0x41 + 10
    } else {
        100
    }
}

/// Every byte of `s` is a digit of base `radix`.
pub open spec fn all_digits(s: Seq<u8>, radix: int) -> bool {
    forall|i: int| 0 <= i < s.len() ==> digit_of(#[trigger] s[i]) < radix
}

/// What the standard library's `u64` parsing in base `radix` gives for `s`:
/// an optional `+`, then at least one digit, with a value that fits.
pub open spec fn parse_u64_of(s: Seq<u8>, radix: int) -> Option<u64> {
    let d = if s.len() > 0 && s[0] == 0x2B {
        s.drop_first()
    } else {
        s
    };
    if s.len() == 0 || d.len() == 0 || !all_digits(d, radix) || digits_value(d, radix) > u64::MAX {
        None
    } else {
        Some(digits_value(d, radix) as u64)
    }
}

/// Parses `s` as a `u64` in base `radix` (10 or 16), as `u64::from_str`
/// and `u64::from_str_radix` do.
#[verifier::loop_isolation(false)]
pub fn parse_u64(s: &[u8], radix: u64) -> (r: Option<u64>)
    requires
        radix == 10 || radix == 16,
    ensures
        r == parse_u64_of(s@, radix as int),
{
    if s.len() == 0 {
        return None;
    }
    let start: usize = if s[0] == 0x2B {
        1
    } else {
        0
    };
    let ghost d = if s@[0] == 0x2B {
        s@.drop_first()
    } else {
        s@
    };
    if start == s.len() {
        return None;
    }
    let mut value: u64 = 0;
    let mut i: usize = start;
    while i < s.len()
        invariant
            start <= i <= s@.len(),
            start == 1 || start == 0,
            d == s@.subrange(start as int, s@.len() as int),
            radix == 10 || radix == 16,
            all_digits(s@.subrange(start as int, i as int), radix as int),
            value == digits_value(s@.subrange(start as int, i as int), radix as int),
        decreases s@.len() - i,
    {
        let b = s[i];
        let dv: u64 = if 0x30 <= b && b <= 0x39 {
            (b - 0x30) as u64
        } else if 0x61 <= b && b <= 0x66 {
            (b - 0x61 + 10) as u64
        } else if 0x41 <= b && b <= 0x46 {
            (b - 0x41 + 10) as u64
        } else {
            100
        };
        let ghost next = s@.subrange(start as int, i + 1);
        assert(next.drop_last() =~= s@.subrange(start as int, i as int));
        if dv >= radix {
            assert(!all_digits(d, radix as int)) by {
                assert(d[i - start] == b);
            }
            return None;
        }
        if value > (u64::MAX - dv) / radix {
            proof {
                assert(d.subrange(0, i - start + 1) =~= next);
                assert(next.last() == b);
                assert(value * radix + dv > u64::MAX) by (nonlinear_arith)
                    requires
                        value > ((u64::MAX - dv) as u64) / radix,
                        radix > 0,
                        dv < radix,
                ;
                if all_digits(d, radix as int) {
                    lemma_digits_value_grows(d, i - start + 1, radix as int);
                    assert(digits_value(d, radix as int) > u64::MAX);
                }
            }
            return None;
        }
        assert(value * radix + dv <= u64::MAX) by (nonlinear_arith)
            requires
                value <= ((u64::MAX - dv) as u64) / radix,
                radix > 0,
        ;
        value = value * radix + dv;
        i = i + 1;
        assert(all_digits(s@.subrange(start as int, i as int), radix as int)) by {
            assert forall|k: int| 0 <= k < next.len() implies digit_of(#[trigger] next[k]) < radix by {
                if k < next.len() - 1 {
                    assert(next[k] == s@.subrange(start as int, i - 1)[k]);
                }
            }
        }
    }
    assert(s@.subrange(start as int, s@.len() as int) =~= d);
    Some(value)
}

/// With all digits valid, the value of a prefix is at most the value of
/// the whole.
proof fn lemma_digits_value_grows(d: Seq<u8>, n: int, radix: int)
    requires
        0 <= n <= d.len(),
        radix > 0,
        all_digits(d, radix),
    ensures
        digits_value(d.subrange(0, n), radix) <= digits_value(d, radix),
        digits_value(d.subrange(0, n), radix) >= 0,
    decreases d.len(),
{
    lemma_digits_value_nonneg(d, radix);
    lemma_digits_value_nonneg(d.subrange(0, n), radix);
    if n < d.len() {
        assert(d.drop_last().subrange(0, n) =~= d.subrange(0, n));
        assert(all_digits(d.drop_last(), radix)) by {
            assert forall|i: int| 0 <= i < d.drop_last().len() implies digit_of(#[trigger] d.drop_last()[i])
                < radix by {
                assert(d.drop_last()[i] == d[i]);
            }
        }
        lemma_digits_value_grows(d.drop_last(), n, radix);
        lemma_digits_value_nonneg(d.drop_last(), radix);
        let v = digits_value(d.drop_last(), radix);
        assert(d[d.len() - 1] == d.last());
        assert(digit_of(d.last()) >= 0);
        assert(v <= v * radix + digit_of(d.last())) by (nonlinear_arith)
            requires
                v >= 0,
                radix > 0,
                digit_of(d.last()) >= 0,
        ;
    } else {
        assert(d.subrange(0, n) =~= d);
    }
}

proof fn lemma_digits_value_nonneg(d: Seq<u8>, radix: int)
    requires
        radix > 0,
    ensures
        digits_value(d, radix) >= 0,
    decreases d.len(),
{
    if d.len() > 0 {
        lemma_digits_value_nonneg(d.drop_last(), radix);
        let v = digits_value(d.drop_last(), radix);
        assert(v * radix >= 0) by (nonlinear_arith)
            requires
                v >= 0,
                radix > 0,
        ;
    }
}

/// Splits `text` into lines as `str::lines` does.
pub fn split_lines<'a>(text: &'a str) -> (r: Vec<&'a str>)
    ensures
        strs_bytes(r@) == lines_of(text.spec_bytes()),
{
    let bytes = text.as_bytes();
    let ghost b = bytes@;
    let mut lines: Vec<&str> = Vec::new();
    let mut start: usize = 0;
    let mut i: usize = 0;
    assert(strs_bytes(lines@) =~= Seq::<Seq<u8>>::empty());
    while i < bytes.len()
        invariant
            b == bytes@,
            b == text.spec_bytes(),
            start <= i <= b.len(),
            start == 0 || b[start - 1] == 0x0A,
            (strs_bytes(lines@), b.subrange(start as int, i as int)) == line_state(b.subrange(0, i as int)),
        decreases b.len() - i,
    {
        let ghost prev = b.subrange(0, i as int);
        assert(b.subrange(0, i + 1).drop_last() =~= prev);
        if bytes[i] == 0x0A {
            let end: usize = if i > start && bytes[i - 1] == 0x0D {
                i - 1
            } else {
                i
            };
            let piece = str_piece(text, start, end);
            assert(piece.spec_bytes() =~= strip_cr(b.subrange(start as int, i as int)));
            let ghost before = lines@;
            lines.push(piece);
            assert(strs_bytes(lines@) =~= strs_bytes(before).push(piece.spec_bytes()));
            start = i + 1;
            assert(b.subrange(start as int, i + 1) =~= Seq::<u8>::empty());
        } else {
            assert(b.subrange(start as int, i + 1) =~= b.subrange(start as int, i as int).push(b[i as int]));
        }
        i = i + 1;
    }
    assert(b.subrange(0, b.len() as int) =~= b);
    if i > start {
        let piece = str_piece(text, start, i);
        let ghost before = lines@;
        lines.push(piece);
        assert(strs_bytes(lines@) =~= strs_bytes(before).push(piece.spec_bytes()));
    }
    lines
}

/// Where the first `=` in `t` is, or -1.
pub open spec fn first_eq(t: Seq<u8>) -> int
    decreases t.len(),
{
    if t.len() == 0 {
        -1
    } else if first_eq(t.drop_last()) >= 0 {
        first_eq(t.drop_last())
    } else if t.last() == 0x3D {
        t.len() - 1
    } else {
        -1
    }
}

/// The bytes of line `line` after trimming whitespace.
pub open spec fn trimmed(line: Seq<u8>) -> Seq<u8> {
    encode_utf8(trim_back(trim_front(decode_utf8(line))))
}

/// The key and the value that line `line` sets: after trimming, a line that
/// is not empty, does not start with `#` and holds an `=` sets the key
/// before the first `=` to the value after it.
pub open spec fn line_entry(line: Seq<u8>) -> Option<(Seq<u8>, Seq<u8>)> {
    let t = trimmed(line);
    if t.len() == 0 || t[0] == 0x23 || first_eq(t) < 0 {
        None
    } else {
        Some((t.subrange(0, first_eq(t)), t.subrange(first_eq(t) + 1, t.len() as int)))
    }
}

/// A line that the configuration parser can take: a value longer than two
/// bytes has a character boundary after its second byte (the parser reads
/// the hexadecimal number from there).
pub open spec fn line_ok(line: Seq<u8>) -> bool {
    line_entry(line) matches Some((_, v)) ==> (v.len() > 2 ==> !is_continuation_byte(v[2]))
}

/// The bootloader configuration, its strings as byte strings.
pub struct ConfigView {
    pub physical_memory_offset: u64,
    pub kernel_stack_addr: u64,
    pub kernel_stack_size: u64,
    pub kernel_stack_max: u64,
    pub kernel_default_page: u64,
    pub kernel_stack_auto_grow: u64,
    pub kernel_path: Seq<u8>,
    pub stack_max_addr: u64,
    pub stack_max_pages: u64,
    pub stack_default_page: u64,
    pub cmdline: Seq<u8>,
    pub load_apps: bool,
    pub log_level: Seq<u8>,
}

/// The configuration used where the file says nothing.
pub open spec fn default_view() -> ConfigView {
    ConfigView {
        physical_memory_offset: 0xFFFF_8000_0000_0000,
        kernel_stack_addr: 0xFFFF_FF01_0000_0000,
        kernel_stack_size: 512,
        kernel_stack_max: 0xffff_ff02_0000_0000,
        kernel_default_page: 1,
        kernel_stack_auto_grow: 0,
        kernel_path: "\\KERNEL.ELF".spec_bytes(),
        stack_max_addr: 0x4000_0000_0000,
        stack_max_pages: 0x100000,
        stack_default_page: 1,
        cmdline: "".spec_bytes(),
        load_apps: false,
        log_level: "Normal".spec_bytes(),
    }
}

/// What `key=value` does to configuration `c`: numbers are read in decimal,
/// addresses in hexadecimal after the value's first two bytes, a value that
/// does not read as a number counts as 0, and an unknown key changes
/// nothing.
pub open spec fn apply_entry(c: ConfigView, key: Seq<u8>, value: Seq<u8>) -> ConfigView {
    let r10: u64 = match parse_u64_of(value, 10) {
        Some(v) => v,
        None => 0,
    };
    let r16: u64 = if value.len() > 2 {
        match parse_u64_of(value.subrange(2, value.len() as int), 16) {
            Some(v) => v,
            None => 0,
        }
    } else {
        0
    };
    if key == "physical_memory_offset".spec_bytes() {
        ConfigView { physical_memory_offset: r16, ..c }
    } else if key == "kernel_stack_addr".spec_bytes() {
        ConfigView { kernel_stack_addr: r16, ..c }
    } else if key == "kernel_stack_size".spec_bytes() {
        ConfigView { kernel_stack_size: r10, ..c }
    } else if key == "kernel_stack_max".spec_bytes() {
        ConfigView { kernel_stack_max: r16, ..c }
    } else if key == "kernel_default_page".spec_bytes() {
        ConfigView { kernel_default_page: r10, ..c }
    } else if key == "kernel_stack_auto_grow".spec_bytes() {
        ConfigView { kernel_stack_auto_grow: r10, ..c }
    } else if key == "kernel_path".spec_bytes() {
        ConfigView { kernel_path: value, ..c }
    } else if key == "stack_max_addr".spec_bytes() {
        ConfigView { stack_max_addr: r16, ..c }
    } else if key == "stack_max_pages".spec_bytes() {
        ConfigView { stack_max_pages: r16, ..c }
    } else if key == "stack_default_page".spec_bytes() {
        ConfigView { stack_default_page: r10, ..c }
    } else if key == "cmdline".spec_bytes() {
        ConfigView { cmdline: value, ..c }
    } else if key == "load_apps".spec_bytes() {
        ConfigView { load_apps: r10 != 0, ..c }
    } else if key == "log_level".spec_bytes() {
        ConfigView { log_level: value, ..c }
    } else {
        c
    }
}

/// Keys that hold counts are read in decimal: a value of decimal digits
/// that fits in a `u64` sets the key to the number those digits write, and
/// `load_apps` is on exactly when that number is not 0.
pub proof fn law_config_decimal_keys(c: ConfigView, v: Seq<u8>)
    requires
        v.len() > 0,
        all_digits(v, 10),
        digits_value(v, 10) <= u64::MAX,
    ensures
            apply_entry(c, "kernel_stack_size".spec_bytes(), v).kernel_stack_size == digits_value(v, 10),
            apply_entry(c, "kernel_default_page".spec_bytes(), v).kernel_default_page == digits_value(v, 10),
            apply_entry(c, "kernel_stack_auto_grow".spec_bytes(), v).kernel_stack_auto_grow == digits_value(v, 10),
            apply_entry(c, "stack_default_page".spec_bytes(), v).stack_default_page == digits_value(v, 10),
        apply_entry(c, "load_apps".spec_bytes(), v).load_apps == (digits_value(v, 10) != 0),
{
    lemma_config_keys();
    assert(v[0] != 0x2B) by {
        assert(digit_of(v[0]) < 10);
    }
    lemma_digits_nonneg(v, 10);
    assert(parse_u64_of(v, 10) == Some(digits_value(v, 10) as u64));
}

/// Keys that hold addresses are read in hexadecimal after the value's
/// first two bytes (its `0x`): hexadecimal digits there that fit in a `u64`
/// set the key to the number they write.
pub proof fn law_config_hex_keys(c: ConfigView, v: Seq<u8>)
    requires
        v.len() > 2,
        all_digits(v.subrange(2, v.len() as int), 16),
        digits_value(v.subrange(2, v.len() as int), 16) <= u64::MAX,
    ensures
            apply_entry(c, "physical_memory_offset".spec_bytes(), v).physical_memory_offset == digits_value(v.subrange(2, v.len() as int), 16),
            apply_entry(c, "kernel_stack_addr".spec_bytes(), v).kernel_stack_addr == digits_value(v.subrange(2, v.len() as int), 16),
            apply_entry(c, "kernel_stack_max".spec_bytes(), v).kernel_stack_max == digits_value(v.subrange(2, v.len() as int), 16),
            apply_entry(c, "stack_max_addr".spec_bytes(), v).stack_max_addr == digits_value(v.subrange(2, v.len() as int), 16),
            apply_entry(c, "stack_max_pages".spec_bytes(), v).stack_max_pages == digits_value(v.subrange(2, v.len() as int), 16),
{
    lemma_config_keys();
    let d = v.subrange(2, v.len() as int);
    assert(d[0] != 0x2B) by {
        assert(digit_of(d[0]) < 16);
    }
    lemma_digits_nonneg(d, 16);
    assert(parse_u64_of(d, 16) == Some(digits_value(d, 16) as u64));
}

/// Keys that hold text take the value as it stands.
pub proof fn law_config_text_keys(c: ConfigView, v: Seq<u8>)
    ensures
        apply_entry(c, "kernel_path".spec_bytes(), v).kernel_path == v,
        apply_entry(c, "cmdline".spec_bytes(), v).cmdline == v,
        apply_entry(c, "log_level".spec_bytes(), v).log_level == v,
{
    lemma_config_keys();
}

/// Each key sets its own setting and leaves every other one as it was; a
/// key that names no setting changes nothing.
pub proof fn law_config_keys_set_own_field(c: ConfigView, key: Seq<u8>, v: Seq<u8>)
    ensures
        (ConfigView { physical_memory_offset: c.physical_memory_offset, ..apply_entry(c, "physical_memory_offset".spec_bytes(), v) }) == c,
        (ConfigView { kernel_stack_addr: c.kernel_stack_addr, ..apply_entry(c, "kernel_stack_addr".spec_bytes(), v) }) == c,
        (ConfigView { kernel_stack_size: c.kernel_stack_size, ..apply_entry(c, "kernel_stack_size".spec_bytes(), v) }) == c,
        (ConfigView { kernel_stack_max: c.kernel_stack_max, ..apply_entry(c, "kernel_stack_max".spec_bytes(), v) }) == c,
        (ConfigView { kernel_default_page: c.kernel_default_page, ..apply_entry(c, "kernel_default_page".spec_bytes(), v) }) == c,
        (ConfigView { kernel_stack_auto_grow: c.kernel_stack_auto_grow, ..apply_entry(c, "kernel_stack_auto_grow".spec_bytes(), v) }) == c,
        (ConfigView { kernel_path: c.kernel_path, ..apply_entry(c, "kernel_path".spec_bytes(), v) }) == c,
        (ConfigView { stack_max_addr: c.stack_max_addr, ..apply_entry(c, "stack_max_addr".spec_bytes(), v) }) == c,
        (ConfigView { stack_max_pages: c.stack_max_pages, ..apply_entry(c, "stack_max_pages".spec_bytes(), v) }) == c,
        (ConfigView { stack_default_page: c.stack_default_page, ..apply_entry(c, "stack_default_page".spec_bytes(), v) }) == c,
        (ConfigView { cmdline: c.cmdline, ..apply_entry(c, "cmdline".spec_bytes(), v) }) == c,
        (ConfigView { load_apps: c.load_apps, ..apply_entry(c, "load_apps".spec_bytes(), v) }) == c,
        (ConfigView { log_level: c.log_level, ..apply_entry(c, "log_level".spec_bytes(), v) }) == c,
        key != "physical_memory_offset".spec_bytes() && key != "kernel_stack_addr".spec_bytes() && key != "kernel_stack_size".spec_bytes() && key != "kernel_stack_max".spec_bytes() && key != "kernel_default_page".spec_bytes() && key != "kernel_stack_auto_grow".spec_bytes() && key != "kernel_path".spec_bytes() && key != "stack_max_addr".spec_bytes() && key != "stack_max_pages".spec_bytes() && key != "stack_default_page".spec_bytes() && key != "cmdline".spec_bytes() && key != "load_apps".spec_bytes() && key != "log_level".spec_bytes() ==> apply_entry(c, key, v) == c,
{
    lemma_config_keys();
}

/// The value of digits is never negative.
proof fn lemma_digits_nonneg(s: Seq<u8>, radix: int)
    requires
        radix >= 0,
    ensures
        digits_value(s, radix) >= 0,
    decreases s.len(),
{
    if s.len() > 0 {
        lemma_digits_nonneg(s.drop_last(), radix);
        assert(digits_value(s.drop_last(), radix) * radix >= 0) by (nonlinear_arith)
            requires
                digits_value(s.drop_last(), radix) >= 0,
                radix >= 0,
        ;
    }
}

/// The keys are distinct byte strings.
proof fn lemma_config_keys()
    ensures
        "physical_memory_offset".spec_bytes().len() == 22,
        "kernel_stack_addr".spec_bytes().len() == 17,
        "kernel_stack_size".spec_bytes().len() == 17,
        "kernel_stack_max".spec_bytes().len() == 16,
        "kernel_default_page".spec_bytes().len() == 19,
        "kernel_stack_auto_grow".spec_bytes().len() == 22,
        "kernel_path".spec_bytes().len() == 11,
        "stack_max_addr".spec_bytes().len() == 14,
        "stack_max_pages".spec_bytes().len() == 15,
        "stack_default_page".spec_bytes().len() == 18,
        "cmdline".spec_bytes().len() == 7,
        "load_apps".spec_bytes().len() == 9,
        "log_level".spec_bytes().len() == 9,
        "physical_memory_offset".spec_bytes() != "kernel_stack_auto_grow".spec_bytes(),
        "kernel_stack_addr".spec_bytes() != "kernel_stack_size".spec_bytes(),
        "load_apps".spec_bytes() != "log_level".spec_bytes(),
{
    reveal_strlit("physical_memory_offset");
    is_ascii_chars_encode_utf8("physical_memory_offset"@);
    assert("physical_memory_offset".spec_bytes().len() == 22);
    reveal_strlit("kernel_stack_addr");
    is_ascii_chars_encode_utf8("kernel_stack_addr"@);
    assert("kernel_stack_addr".spec_bytes().len() == 17);
    reveal_strlit("kernel_stack_size");
    is_ascii_chars_encode_utf8("kernel_stack_size"@);
    assert("kernel_stack_size".spec_bytes().len() == 17);
    reveal_strlit("kernel_stack_max");
    is_ascii_chars_encode_utf8("kernel_stack_max"@);
    assert("kernel_stack_max".spec_bytes().len() == 16);
    reveal_strlit("kernel_default_page");
    is_ascii_chars_encode_utf8("kernel_default_page"@);
    assert("kernel_default_page".spec_bytes().len() == 19);
    reveal_strlit("kernel_stack_auto_grow");
    is_ascii_chars_encode_utf8("kernel_stack_auto_grow"@);
    assert("kernel_stack_auto_grow".spec_bytes().len() == 22);
    reveal_strlit("kernel_path");
    is_ascii_chars_encode_utf8("kernel_path"@);
    assert("kernel_path".spec_bytes().len() == 11);
    reveal_strlit("stack_max_addr");
    is_ascii_chars_encode_utf8("stack_max_addr"@);
    assert("stack_max_addr".spec_bytes().len() == 14);
    reveal_strlit("stack_max_pages");
    is_ascii_chars_encode_utf8("stack_max_pages"@);
    assert("stack_max_pages".spec_bytes().len() == 15);
    reveal_strlit("stack_default_page");
    is_ascii_chars_encode_utf8("stack_default_page"@);
    assert("stack_default_page".spec_bytes().len() == 18);
    reveal_strlit("cmdline");
    is_ascii_chars_encode_utf8("cmdline"@);
    assert("cmdline".spec_bytes().len() == 7);
    reveal_strlit("load_apps");
    is_ascii_chars_encode_utf8("load_apps"@);
    assert("load_apps".spec_bytes().len() == 9);
    reveal_strlit("log_level");
    is_ascii_chars_encode_utf8("log_level"@);
    assert("log_level".spec_bytes().len() == 9);
    assert("physical_memory_offset".spec_bytes()[0] != "kernel_stack_auto_grow".spec_bytes()[0]);
    assert("kernel_stack_addr".spec_bytes()[13] != "kernel_stack_size".spec_bytes()[13]);
    assert("load_apps".spec_bytes()[2] != "log_level".spec_bytes()[2]);
}

/// The configuration that lines `lines` give, each applied in turn to the
/// defaults.
pub open spec fn config_of(lines: Seq<Seq<u8>>) -> ConfigView
    decreases lines.len(),
{
    if lines.len() == 0 {
        default_view()
    } else {
        match line_entry(lines.last()) {
            None => config_of(lines.drop_last()),
            Some((k, v)) => apply_entry(config_of(lines.drop_last()), k, v),
        }
    }
}

/// The configuration of the bootloader.
pub struct Config<'a> {
    pub physical_memory_offset: u64,
    pub kernel_stack_addr: u64,
    pub kernel_stack_size: u64,
    pub kernel_stack_max: u64,
    pub kernel_default_page: u64,
    pub kernel_stack_auto_grow: u64,
    pub kernel_path: &'a str,
    pub stack_max_addr: u64,
    pub stack_max_pages: u64,
    pub stack_default_page: u64,
    pub cmdline: &'a str,
    pub load_apps: bool,
    pub log_level: &'a str,
}

impl<'a> Config<'a> {
    pub open spec fn view(&self) -> ConfigView {
        ConfigView {
            physical_memory_offset: self.physical_memory_offset,
            kernel_stack_addr: self.kernel_stack_addr,
            kernel_stack_size: self.kernel_stack_size,
            kernel_stack_max: self.kernel_stack_max,
            kernel_default_page: self.kernel_default_page,
            kernel_stack_auto_grow: self.kernel_stack_auto_grow,
            kernel_path: self.kernel_path.spec_bytes(),
            stack_max_addr: self.stack_max_addr,
            stack_max_pages: self.stack_max_pages,
            stack_default_page: self.stack_default_page,
            cmdline: self.cmdline.spec_bytes(),
            load_apps: self.load_apps,
            log_level: self.log_level.spec_bytes(),
        }
    }

    /// The configuration used where the file says nothing.
    pub fn default_config() -> (r: Config<'a>)
        ensures
            r.view() == default_view(),
    {
        Config {
            physical_memory_offset: 0xFFFF_8000_0000_0000,
            kernel_stack_addr: 0xFFFF_FF01_0000_0000,
            kernel_stack_size: 512,
            kernel_stack_max: 0xffff_ff02_0000_0000,
            kernel_default_page: 1,
            kernel_stack_auto_grow: 0,
            kernel_path: "\\KERNEL.ELF",
            stack_max_addr: 0x4000_0000_0000,
            stack_max_pages: 0x100000,
            stack_default_page: 1,
            cmdline: "",
            load_apps: false,
            log_level: "Normal",
        }
    }

    /// Sets `key` to `value`.
    pub fn process(&mut self, key: &str, value: &'a str)
        requires
            value.spec_bytes().len() > 2 ==> !is_continuation_byte(value.spec_bytes()[2]),
        ensures
            final(self).view() == apply_entry(old(self).view(), key.spec_bytes(), value.spec_bytes()),
    {
        let vb = value.as_bytes();
        let r10 = match parse_u64(vb, 10) {
            Some(v) => v,
            None => 0,
        };
        let r16 = if vb.len() > 2 {
            match parse_u64(vstd::slice::slice_subrange(vb, 2, vb.len()), 16) {
                Some(v) => v,
                None => 0,
            }
        } else {
            0
        };
        let k = key.as_bytes();
        if bytes_eq(k, "physical_memory_offset".as_bytes()) {
            self.physical_memory_offset = r16;
        } else if bytes_eq(k, "kernel_stack_addr".as_bytes()) {
            self.kernel_stack_addr = r16;
        } else if bytes_eq(k, "kernel_stack_size".as_bytes()) {
            self.kernel_stack_size = r10;
        } else if bytes_eq(k, "kernel_stack_max".as_bytes()) {
            self.kernel_stack_max = r16;
        } else if bytes_eq(k, "kernel_default_page".as_bytes()) {
            self.kernel_default_page = r10;
        } else if bytes_eq(k, "kernel_stack_auto_grow".as_bytes()) {
            self.kernel_stack_auto_grow = r10;
        } else if bytes_eq(k, "kernel_path".as_bytes()) {
            self.kernel_path = value;
        } else if bytes_eq(k, "stack_max_addr".as_bytes()) {
            self.stack_max_addr = r16;
        } else if bytes_eq(k, "stack_max_pages".as_bytes()) {
            self.stack_max_pages = r16;
        } else if bytes_eq(k, "stack_default_page".as_bytes()) {
            self.stack_default_page = r10;
        } else if bytes_eq(k, "cmdline".as_bytes()) {
            self.cmdline = value;
        } else if bytes_eq(k, "load_apps".as_bytes()) {
            self.load_apps = r10 != 0;
        } else if bytes_eq(k, "log_level".as_bytes()) {
            self.log_level = value;
        }
    }

    /// Reads a configuration file: UTF-8 text of `key=value` lines; empty
    /// lines and lines starting with `#` are skipped, and so are lines
    /// without `=`.
    pub fn parse(content: &'a [u8]) -> (r: Config<'a>)
        requires
            valid_utf8(content@),
            forall|i: int| 0 <= i < lines_of(content@).len() ==> line_ok(#[trigger] lines_of(content@)[i]),
        ensures
            r.view() == config_of(lines_of(content@)),
    {
        let text = match str_from_utf8(content) {
            Ok(t) => t,
            Err(_) => {
                assert(false);
                return Config::default_config();
            },
        };
        let lines = split_lines(text);
        let ghost ls = strs_bytes(lines@);
        let mut config = Config::default_config();
        let mut k: usize = 0;
        assert(ls.subrange(0, 0) =~= Seq::<Seq<u8>>::empty());
        while k < lines.len()
            invariant
                ls == strs_bytes(lines@),
                ls == lines_of(content@),
                k <= ls.len(),
                forall|i: int| 0 <= i < ls.len() ==> line_ok(#[trigger] ls[i]),
                config.view() == config_of(ls.subrange(0, k as int)),
            decreases ls.len() - k,
        {
            let ghost pre = ls.subrange(0, k + 1);
            assert(pre.drop_last() =~= ls.subrange(0, k as int));
            assert(pre.last() == ls[k as int]);
            let line = lines[k];
            assert(line.spec_bytes() == ls[k as int]);
            if let Some((key, value)) = line_setting(line) {
                assert(line_ok(ls[k as int]));
                config.process(key, value);
            }
            k = k + 1;
        }
        assert(ls.subrange(0, ls.len() as int) =~= ls);
        config
    }
}

/// The key and the value that `line` sets, if it sets one.
fn line_setting<'a>(line: &'a str) -> (r: Option<(&'a str, &'a str)>)
    ensures
        match (r, line_entry(line.spec_bytes())) {
            (Some((k, v)), Some((ks, vs))) => k.spec_bytes() == ks && v.spec_bytes() == vs,
            (None, None) => true,
            _ => false,
        },
{
    let t = str_trim(line);
    proof {
        encode_utf8_decode_utf8(line@);
    }
    assert(t.spec_bytes() == trimmed(line.spec_bytes()));
    let tb = t.as_bytes();
    if tb.len() == 0 || tb[0] == 0x23 {
        return None;
    }
    let mut j: usize = 0;
    while j < tb.len() && tb[j] != 0x3D
        invariant
            j <= tb@.len(),
            forall|m: int| 0 <= m < j ==> tb@[m] != 0x3D,
        decreases tb@.len() - j,
    {
        j = j + 1;
    }
    proof {
        lemma_first_eq(tb@, j as int);
    }
    if j == tb.len() {
        return None;
    }
    let key = str_piece(t, 0, j);
    let value = str_piece(t, j + 1, tb.len());
    Some((key, value))
}

proof fn lemma_first_eq(t: Seq<u8>, j: int)
    requires
        0 <= j <= t.len(),
        forall|m: int| 0 <= m < j ==> t[m] != 0x3D,
        j == t.len() || t[j] == 0x3D,
    ensures
        j == t.len() ==> first_eq(t) == -1,
        j < t.len() ==> first_eq(t) == j,
    decreases t.len(),
{
    if t.len() > 0 {
        if j == t.len() {
            lemma_first_eq(t.drop_last(), j - 1 + if j > 0 { 0int } else { 1 });
        } else if j < t.len() - 1 {
            lemma_first_eq(t.drop_last(), j);
        } else {
            lemma_first_eq(t.drop_last(), j);
        }
    }
}

} // verus!

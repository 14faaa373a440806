//! Reading what a user types.

use crate::bytes::push_bytes;
use crate::text::{
    chars_of, dec_text, digit, digits, hex_text, lemma_quotient_smaller, text_of_chars,
};
use vstd::prelude::*;
use vstd::slice::slice_subrange;
use vstd::string::*;
use vstd::utf8::encode_utf8;

verus! {

/// The characters with the Unicode property `White_Space`.
pub open spec fn white_space(c: char) -> bool {
    ||| 0x9 <= c as u32 <= 0xd
    ||| c as u32 == 0x20
    ||| c as u32 == 0x85
    ||| c as u32 == 0xa0
    ||| c as u32 == 0x1680
    ||| 0x2000 <= c as u32 <= 0x200a
    ||| c as u32 == 0x2028
    ||| c as u32 == 0x2029
    ||| c as u32 == 0x202f
    ||| c as u32 == 0x205f
    ||| c as u32 == 0x3000
}

pub fn is_white_space(c: char) -> (r: bool)
    ensures
        r == white_space(c),
{
    let v: u32 = c as u32;
    (0x9 <= v && v <= 0xd) || v == 0x20 || v == 0x85 || v == 0xa0 || v == 0x1680 || (0x2000 <= v
        && v <= 0x200a) || v == 0x2028 || v == 0x2029 || v == 0x202f || v == 0x205f || v == 0x3000
}

/// A text without its leading white space.
pub open spec fn trimmed_start(s: Seq<char>) -> Seq<char>
    decreases s.len(),
{
    if s.len() > 0 && white_space(s[0]) {
        trimmed_start(s.drop_first())
    } else {
        s
    }
}

/// A text without its trailing white space.
pub open spec fn trimmed_end(s: Seq<char>) -> Seq<char>
    decreases s.len(),
{
    if s.len() > 0 && white_space(s.last()) {
        trimmed_end(s.drop_last())
    } else {
        s
    }
}

/// A text without its leading and trailing white space.
pub open spec fn trimmed(s: Seq<char>) -> Seq<char> {
    trimmed_end(trimmed_start(s))
}

/// The characters of a text without its leading and trailing white space.
pub fn trimmed_chars(s: &str) -> (r: Vec<char>)
    ensures
        r@ == trimmed(s@),
{
    let all = chars_of(s);
    let mut i: usize = 0;
    assert(all@.skip(0) =~= all@);
    while i < all.len() && is_white_space(all[i])
        invariant
            i <= all.len(),
            trimmed_start(all@) == trimmed_start(all@.skip(i as int)),
        decreases all.len() - i,
    {
        assert(all@.skip(i as int).drop_first() =~= all@.skip(i + 1));
        i = i + 1;
    }
    let ghost rest = all@.skip(i as int);
    assert(trimmed_start(all@) == rest);
    let mut j: usize = all.len();
    assert(all@.subrange(i as int, j as int) =~= rest);
    while j > i && is_white_space(all[j - 1])
        invariant
            i <= j <= all.len(),
            trimmed_end(rest) == trimmed_end(all@.subrange(i as int, j as int)),
        decreases j,
    {
        assert(all@.subrange(i as int, j as int).drop_last() =~= all@.subrange(i as int, j - 1));
        j = j - 1;
    }
    let mut r: Vec<char> = Vec::new();
    let mut k: usize = i;
    while k < j
        invariant
            i <= k <= j <= all.len(),
            r@ == all@.subrange(i as int, k as int),
        decreases j - k,
    {
        r.push(all[k]);
        k = k + 1;
        assert(r@ =~= all@.subrange(i as int, k as int));
    }
    r
}

/// A text without its leading and trailing white space.
pub fn trim(s: &str) -> (r: String)
    ensures
        r@ == trimmed(s@),
{
    text_of_chars(&trimmed_chars(s))
}

/// Whether a text is empty or all white space.
pub fn is_blank(s: &str) -> (r: bool)
    ensures
        r == (trimmed(s@).len() == 0),
{
    trimmed_chars(s).len() == 0
}

/// Trimming never makes a text longer.
pub proof fn lemma_trimmed_len(s: Seq<char>)
    ensures
        trimmed(s).len() <= s.len(),
{
    lemma_trimmed_start_len(s);
    lemma_trimmed_end_len(trimmed_start(s));
}

proof fn lemma_trimmed_start_len(s: Seq<char>)
    ensures
        trimmed_start(s).len() <= s.len(),
    decreases s.len(),
{
    if s.len() > 0 && white_space(s[0]) {
        lemma_trimmed_start_len(s.drop_first());
    }
}

proof fn lemma_trimmed_end_len(s: Seq<char>)
    ensures
        trimmed_end(s).len() <= s.len(),
    decreases s.len(),
{
    if s.len() > 0 && white_space(s.last()) {
        lemma_trimmed_end_len(s.drop_last());
    }
}

/// The value of a digit in a number system of at most 16 digits.
pub open spec fn digit_value(c: char, radix: nat) -> Option<nat> {
    let v = if '0' <= c && c <= '9' {
        (c as u32 - 48) as nat
    } else if 'a' <= c && c <= 'f' {
        (c as u32 - 87) as nat
    } else if 'A' <= c && c <= 'F' {
        (c as u32 - 55) as nat
    } else {
        16
    };
    if v < radix {
        Some(v)
    } else {
        None
    }
}

/// The value of a run of digits, if that is what it is.
pub open spec fn digits_value(s: Seq<char>, radix: nat) -> Option<nat>
    decreases s.len(),
{
    if s.len() == 0 {
        Some(0)
    } else {
        match (digits_value(s.drop_last(), radix), digit_value(s.last(), radix)) {
            (Some(v), Some(d)) => Some(v * radix + d),
            _ => None,
        }
    }
}

/// The number a text stands for: an optional `+` and at least one digit, up to
/// a largest value.
pub open spec fn number(s: Seq<char>, radix: nat, max: nat) -> Option<nat> {
    let d = if s.len() > 0 && s[0] == '+' {
        s.skip(1)
    } else {
        s
    };
    if d.len() == 0 {
        None
    } else {
        match digits_value(d, radix) {
            Some(v) => if v <= max {
                Some(v)
            } else {
                None
            },
            None => None,
        }
    }
}

fn digit_of(c: char, radix: u64) -> (r: Option<u64>)
    requires
        radix <= 16,
    ensures
        match r {
            Some(d) => digit_value(c, radix as nat) == Some(d as nat) && d < radix,
            None => digit_value(c, radix as nat) is None,
        },
{
    let v: u64 = if '0' <= c && c <= '9' {
        c as u64 - 48
    } else if 'a' <= c && c <= 'f' {
        c as u64 - 87
    } else if 'A' <= c && c <= 'F' {
        c as u64 - 55
    } else {
        16
    };
    if v < radix {
        Some(v)
    } else {
        None
    }
}

/// Once the digits read so far are worth more than `max`, the whole is.
proof fn lemma_digits_grow(s: Seq<char>, radix: nat, n: int, max: nat)
    requires
        0 <= n <= s.len(),
        radix >= 1,
        digits_value(s.take(n), radix) matches Some(v) && v > max || digits_value(
            s.take(n),
            radix,
        ) is None,
    ensures
        digits_value(s, radix) matches Some(v) ==> v > max,
    decreases s.len() - n,
{
    if n < s.len() {
        assert(s.take(n + 1).drop_last() =~= s.take(n));
        if let Some(v) = digits_value(s.take(n), radix) {
            assert(v * radix >= v) by (nonlinear_arith)
                requires
                    radix >= 1,
            ;
        }
        lemma_digits_grow(s, radix, n + 1, max);
    } else {
        assert(s.take(n) =~= s);
    }
}

/// The number a text stands for.
fn read_number(s: &[char], radix: u64, max: u64) -> (r: Option<u64>)
    requires
        1 <= radix <= 16,
    ensures
        match r {
            Some(v) => number(s@, radix as nat, max as nat) == Some(v as nat),
            None => number(s@, radix as nat, max as nat) is None,
        },
{
    let start: usize = if s.len() > 0 && s[0] == '+' {
        1
    } else {
        0
    };
    let d = slice_subrange(s, start, s.len());
    assert(d@ =~= if s@.len() > 0 && s@[0] == '+' {
        s@.skip(1)
    } else {
        s@
    });
    if d.len() == 0 {
        return None;
    }
    let mut v: u64 = 0;
    let mut i: usize = 0;
    while i < d.len()
        invariant
            i <= d.len(),
            1 <= radix <= 16,
            digits_value(d@.take(i as int), radix as nat) == Some(v as nat),
            d@ == if s@.len() > 0 && s@[0] == '+' {
                s@.skip(1)
            } else {
                s@
            },
            d.len() > 0,
        decreases d.len() - i,
    {
        proof {
            assert(d@.take(i + 1).drop_last() =~= d@.take(i as int));
            assert(d@.take(i + 1).last() == d@[i as int]);
        }
        let x: u64 = match digit_of(d[i], radix) {
            Some(x) => x,
            None => {
                proof {
                    lemma_digits_grow(d@, radix as nat, i + 1, max as nat);
                }
                return None;
            },
        };
        assert(0 <= v * radix <= 0xffff_ffff_ffff_ffff * 16) by (nonlinear_arith)
            requires
                0 <= v <= 0xffff_ffff_ffff_ffff,
                1 <= radix <= 16,
        ;
        let next: u128 = v as u128 * radix as u128 + x as u128;
        if next > u64::MAX as u128 {
            proof {
                lemma_digits_grow(d@, radix as nat, i + 1, max as nat);
            }
            return None;
        }
        v = next as u64;
        i = i + 1;
    }
    assert(d@.take(i as int) =~= d@);
    if v <= max {
        Some(v)
    } else {
        None
    }
}

/// The number an address field stands for: `0x` or `0X` begins a hexadecimal
/// number, anything else is decimal; white space around it is ignored.
pub open spec fn address_value(s: Seq<char>, max: nat) -> Option<nat> {
    let t = trimmed(s);
    if t.len() >= 2 && t[0] == '0' && (t[1] == 'x' || t[1] == 'X') {
        number(t.skip(2), 16, max)
    } else {
        number(t, 10, max)
    }
}

fn read_address(s: &str, max: u64) -> (r: Option<u64>)
    ensures
        match r {
            Some(v) => address_value(s@, max as nat) == Some(v as nat) && v <= max,
            None => address_value(s@, max as nat) is None,
        },
{
    let t = trimmed_chars(s);
    if t.len() >= 2 && t[0] == '0' && (t[1] == 'x' || t[1] == 'X') {
        let hex = slice_subrange(t.as_slice(), 2, t.len());
        assert(hex@ =~= t@.skip(2));
        read_number(hex, 16, max)
    } else {
        read_number(t.as_slice(), 10, max)
    }
}

/// Parse a string into a `u64`: a `0x`/`0X` prefix means hexadecimal, otherwise
/// decimal (`None` when empty or invalid).
pub fn parse_u64(s: &str) -> (r: Option<u64>)
    ensures
        match r {
            Some(v) => address_value(s@, u64::MAX as nat) == Some(v as nat),
            None => address_value(s@, u64::MAX as nat) is None,
        },
{
    read_address(s, u64::MAX)
}

/// Parse the base address of a `--rebase` option.
pub fn parse_base(s: &str) -> (r: Option<u64>)
    ensures
        match r {
            Some(v) => address_value(s@, u64::MAX as nat) == Some(v as nat),
            None => address_value(s@, u64::MAX as nat) is None,
        },
{
    read_address(s, u64::MAX)
}

/// Parse an RVA like `0x14000` or `81920` (decimal).
pub fn parse_rva(s: &str) -> (r: Result<u32, String>)
    ensures
        match r {
            Ok(v) => address_value(s@, u32::MAX as nat) == Some(v as nat),
            Err(m) => address_value(s@, u32::MAX as nat) is None && m@ == "invalid rva '"@
                + trimmed(s@) + "'"@,
        },
{
    match read_address(s, u32::MAX as u64) {
        Some(v) => Ok(v as u32),
        None => {
            let mut m: String = "invalid rva '".to_owned();
            m.append(trim(s).as_str());
            m.append("'");
            Err(m)
        },
    }
}

/// Parse a decimal count; no white space is allowed around it.
pub fn parse_count(s: &str) -> (r: Option<usize>)
    ensures
        match r {
            Some(v) => number(s@, 10, usize::MAX as nat) == Some(v as nat),
            None => number(s@, 10, usize::MAX as nat) is None,
        },
{
    let t = chars_of(s);
    match read_number(t.as_slice(), 10, usize::MAX as u64) {
        Some(v) => Some(v as usize),
        None => None,
    }
}

/// The characters of a text that are not white space.
pub open spec fn compacted(s: Seq<char>) -> Seq<char>
    decreases s.len(),
{
    if s.len() == 0 {
        Seq::empty()
    } else if white_space(s.last()) {
        compacted(s.drop_last())
    } else {
        compacted(s.drop_last()).push(s.last())
    }
}

/// Whether every character is a hexadecimal digit.
pub open spec fn all_hex(s: Seq<char>) -> bool {
    forall|i: int| 0 <= i < s.len() ==> digit_value(#[trigger] s[i], 16) is Some
}

/// The bytes that pairs of hexadecimal digits stand for.
pub open spec fn hex_pairs(s: Seq<char>) -> Seq<u8> {
    Seq::new(
        s.len() / 2,
        |i: int| (digit_value(s[2 * i], 16)->0 * 16 + digit_value(s[2 * i + 1], 16)->0) as u8,
    )
}

/// The bytes a find input stands for: a run of hexadecimal digits of even
/// length (white space allowed) is bytes, anything else its own text.
pub open spec fn needle(s: Seq<char>) -> Option<Seq<u8>> {
    let t = trimmed(s);
    let c = compacted(t);
    if t.len() == 0 {
        None
    } else if c.len() % 2 == 0 && c.len() > 0 && all_hex(c) {
        Some(hex_pairs(c))
    } else {
        Some(encode_utf8(t))
    }
}

fn compact(s: &[char]) -> (r: Vec<char>)
    ensures
        r@ == compacted(s@),
{
    let mut r: Vec<char> = Vec::new();
    let mut i: usize = 0;
    assert(s@.take(0) =~= Seq::empty());
    while i < s.len()
        invariant
            i <= s.len(),
            r@ == compacted(s@.take(i as int)),
        decreases s.len() - i,
    {
        proof {
            assert(s@.take(i + 1).drop_last() =~= s@.take(i as int));
            assert(s@.take(i + 1).last() == s@[i as int]);
        }
        if !is_white_space(s[i]) {
            r.push(s[i]);
        }
        i = i + 1;
    }
    assert(s@.take(i as int) =~= s@);
    r
}

fn is_all_hex(s: &[char]) -> (r: bool)
    ensures
        r == all_hex(s@),
{
    let mut i: usize = 0;
    while i < s.len()
        invariant
            i <= s.len(),
            forall|j: int| 0 <= j < i ==> digit_value(#[trigger] s@[j], 16) is Some,
        decreases s.len() - i,
    {
        if digit_of(s[i], 16).is_none() {
            assert(digit_value(s@[i as int], 16) is None);
            return false;
        }
        i = i + 1;
    }
    true
}

/// Parse a hex-view find input into bytes: a run of hex digits (whitespace
/// allowed) with even length is treated as hexadecimal bytes, anything else as
/// the literal ASCII bytes.
pub fn parse_needle(s: &str) -> (r: Option<Vec<u8>>)
    ensures
        match r {
            Some(b) => needle(s@) == Some(b@),
            None => needle(s@) is None,
        },
{
    let t = trimmed_chars(s);
    if t.len() == 0 {
        return None;
    }
    let c = compact(t.as_slice());
    let mut r: Vec<u8> = Vec::new();
    if c.len() % 2 == 0 && c.len() > 0 && is_all_hex(c.as_slice()) {
        let mut i: usize = 0;
        while i < c.len() / 2
            invariant
                i <= c.len() / 2,
                c.len() % 2 == 0,
                all_hex(c@),
                r@ == hex_pairs(c@).take(i as int),
            decreases c.len() / 2 - i,
        {
            proof {
                assert(digit_value(c@[2 * i], 16) is Some);
                assert(digit_value(c@[2 * i + 1], 16) is Some);
            }
            let hi: u64 = match digit_of(c[2 * i], 16) {
                Some(d) => d,
                None => 0,
            };
            let lo: u64 = match digit_of(c[2 * i + 1], 16) {
                Some(d) => d,
                None => 0,
            };
            r.push((hi * 16 + lo) as u8);
            i = i + 1;
            assert(r@ =~= hex_pairs(c@).take(i as int));
        }
        assert(hex_pairs(c@).take(i as int) =~= hex_pairs(c@));
    } else {
        let text = text_of_chars(t.as_slice());
        push_bytes(&mut r, text.as_str().as_bytes());
        assert(r@ =~= encode_utf8(t@));
    }
    Some(r)
}

/// A section name as the 8 bytes of a section header: cut off or filled up with
/// zeros.
pub open spec fn name_field(name: Seq<char>) -> Seq<u8> {
    let b = encode_utf8(name);
    Seq::new(
        8,
        |i: int|
            if i < b.len() {
                b[i]
            } else {
                0u8
            },
    )
}

/// Pack an editable section name into the 8-byte `IMAGE_SECTION_HEADER.name`.
pub fn name_bytes(name: &str) -> (r: [u8; 8])
    ensures
        r@ == name_field(name@),
{
    let mut out: [u8; 8] = [0, 0, 0, 0, 0, 0, 0, 0];
    let b = name.as_bytes();
    let mut i: usize = 0;
    while i < 8 && i < b.len()
        invariant
            i <= 8,
            i <= b@.len(),
            b@ == encode_utf8(name@),
            out@.len() == 8,
            forall|j: int| 0 <= j < i ==> out@[j] == b@[j],
            forall|j: int| i <= j < 8 ==> out@[j] == 0,
        decreases 8 - i,
    {
        out[i] = b[i];
        i = i + 1;
    }
    assert(out@ =~= name_field(name@));
    out
}

/// Where a jump goes: an absolute address is taken relative to the image base,
/// and the low 32 bits of the result are held between the section's first and
/// last address.
pub open spec fn jump_target(v: u64, image_base: u64, sec_base: u32, sec_len: nat) -> u32 {
    let rva = (if v >= image_base {
        v - image_base
    } else {
        v as int
    }) % 0x1_0000_0000;
    let past = sec_base + sec_len % 0x1_0000_0000;
    let end = if past > u32::MAX {
        u32::MAX - 1
    } else if past > 0 {
        past - 1
    } else {
        0
    };
    if rva < sec_base || end < sec_base {
        sec_base
    } else if rva > end {
        end as u32
    } else {
        rva as u32
    }
}

/// Interpret a "jump" input as an offset (RVA/raw) or an absolute address (VA
/// ≥ image base), clamped to the section's range.
pub fn parse_jump_target(v: u64, image_base: u64, sec_base: u32, sec_len: usize) -> (r: u32)
    ensures
        r == jump_target(v, image_base, sec_base, sec_len as nat),
{
    let offset: u64 = if v >= image_base {
        v - image_base
    } else {
        v
    };
    let rva: u32 = (offset % 0x1_0000_0000) as u32;
    let len: u32 = (sec_len as u64 % 0x1_0000_0000) as u32;
    let end: u32 = sec_base.saturating_add(len).saturating_sub(1);
    if rva < sec_base || end < sec_base {
        sec_base
    } else if rva > end {
        end
    } else {
        rva
    }
}

/// A jump never leaves the section.
pub proof fn jump_stays_inside(v: u64, image_base: u64, sec_base: u32, sec_len: nat)
    requires
        sec_len > 0,
        sec_base + sec_len <= u32::MAX,
    ensures
        sec_base <= jump_target(v, image_base, sec_base, sec_len) < sec_base + sec_len,
{
}

proof fn lemma_digit_reads_back(d: nat, radix: nat)
    requires
        d < radix <= 16,
    ensures
        digit_value(digit(d), radix) == Some(d),
        !white_space(digit(d)),
        digit(d) != '+',
{
    let c = digit(d);
    assert(c as u32 == if d < 10 {
        48 + d
    } else {
        87 + d
    });
}

proof fn lemma_digits_read_back(v: nat, radix: nat)
    requires
        2 <= radix <= 16,
    ensures
        digits_value(digits(v, radix), radix) == Some(v),
        digits(v, radix).len() > 0,
        forall|i: int|
            0 <= i < digits(v, radix).len() ==> !white_space(#[trigger] digits(v, radix)[i])
                && digits(v, radix)[i] != '+',
    decreases v,
{
    let s = digits(v, radix);
    if v < radix {
        lemma_digit_reads_back(v, radix);
        assert(s.drop_last() =~= Seq::empty());
        assert(digits_value(s.drop_last(), radix) == Some(0nat));
        assert(0 * radix == 0) by (nonlinear_arith);
        assert(s.last() == digit(v));
    } else {
        lemma_quotient_smaller(v, radix);
        lemma_digits_read_back(v / radix, radix);
        assert(v % radix < radix && v == (v / radix) * radix + v % radix) by (nonlinear_arith)
            requires
                radix > 0,
        ;
        lemma_digit_reads_back(v % radix, radix);
        assert(s.drop_last() =~= digits(v / radix, radix));
        assert(s.last() == digit(v % radix));
    }
}

proof fn lemma_trim_of_solid(s: Seq<char>)
    requires
        forall|i: int| 0 <= i < s.len() ==> !white_space(#[trigger] s[i]),
    ensures
        trimmed(s) == s,
{
}

/// An address that was printed in hexadecimal is read back as it was.
pub proof fn printed_address_reads_back(v: u64)
    ensures
        address_value(hex_text(v as nat), u64::MAX as nat) == Some(v as nat),
{
    let s = hex_text(v as nat);
    let d = digits(v as nat, 16);
    lemma_digits_read_back(v as nat, 16);
    assert forall|i: int| 0 <= i < s.len() implies !white_space(#[trigger] s[i]) by {
        if i >= 2 {
            assert(s[i] == d[i - 2]);
        }
    }
    lemma_trim_of_solid(s);
    assert(s.skip(2) =~= d);
    assert(d[0] != '+');
}

/// A number that was printed in decimal is read back as it was.
pub proof fn printed_number_reads_back(v: u64)
    ensures
        number(dec_text(v as nat), 10, u64::MAX as nat) == Some(v as nat),
{
    lemma_digits_read_back(v as nat, 10);
    let d = digits(v as nat, 10);
    assert(d[0] != '+');
}

} // verus!

//! Text: number formatting, UTF-8 and UTF-16 conversion, character lists.

use vstd::prelude::*;
use vstd::string::*;
use vstd::utf8::*;

verus! {

/// `String::push`: appends one character.
pub assume_specification[ String::push ](s: &mut String, c: char)
    ensures
        final(s)@ == old(s)@.push(c),
;

/// The text that `String::from_utf8_lossy` gives for bytes that are not valid
/// UTF-8.
pub uninterp spec fn utf8_lossy(bytes: Seq<u8>) -> Seq<char>;

/// The text of a byte string: its UTF-8 decoding where it is valid UTF-8, and
/// the lossy decoding otherwise.
pub open spec fn utf8_text(bytes: Seq<u8>) -> Seq<char> {
    if valid_utf8(bytes) {
        decode_utf8(bytes)
    } else {
        utf8_lossy(bytes)
    }
}

/// `String::from_utf8_lossy`: valid UTF-8 is decoded as it stands; what comes
/// out for anything else is a function of the bytes alone and has the name
/// `utf8_lossy`.
#[verifier::external_body]
pub(crate) fn text_of_utf8(bytes: &[u8]) -> (s: String)
    ensures
        s@ == if valid_utf8(bytes@) {
            decode_utf8(bytes@)
        } else {
            utf8_lossy(bytes@)
        },
{
    String::from_utf8_lossy(bytes).into_owned()
}

/// The lower-case form of a text, by the Unicode rules of `str::to_lowercase`.
pub uninterp spec fn lowercase(s: Seq<char>) -> Seq<char>;

/// `str::to_lowercase`, whose result has the name `lowercase`.
#[verifier::external_body]
pub(crate) fn to_lower(s: &str) -> (r: String)
    ensures
        r@ == lowercase(s@),
{
    s.to_lowercase()
}

/// A text in quotes with its special characters escaped, as Rust's `Debug` for
/// `str` writes it.
pub uninterp spec fn debug_quoted(s: Seq<char>) -> Seq<char>;

/// The `Debug` text of a `str`, which has the name `debug_quoted`.
#[verifier::external_body]
pub(crate) fn quoted(s: &str) -> (r: String)
    ensures
        r@ == debug_quoted(s@),
{
    format!("{s:?}")
}

/// Decoding the UTF-8 bytes of a text gives the text.
pub proof fn lemma_utf8_text_roundtrip(s: Seq<char>)
    ensures
        utf8_text(encode_utf8(s)) == s,
{
    encode_utf8_valid_utf8(s);
    encode_utf8_decode_utf8(s);
}

/// The character for the digit `d` (below 16), lower case.
pub open spec fn digit(d: nat) -> char {
    if d < 10 {
        (48 + d) as char
    } else {
        (87 + d) as char
    }
}

pub proof fn lemma_quotient_smaller(v: nat, base: nat)
    by (nonlinear_arith)
    requires
        2 <= base <= v,
    ensures
        v / base < v,
{
}

/// `v` written in `base` with no leading zeros.
pub open spec fn digits(v: nat, base: nat) -> Seq<char>
    decreases v,
{
    if base < 2 || v < base {
        seq![digit(v)]
    } else {
        proof {
            lemma_quotient_smaller(v, base);
        }
        digits(v / base, base).push(digit(v % base))
    }
}

/// `v` in decimal.
pub open spec fn dec_text(v: nat) -> Seq<char> {
    digits(v, 10)
}

/// `v` in hexadecimal with a `0x` prefix.
pub open spec fn hex_text(v: nat) -> Seq<char> {
    seq!['0', 'x'] + digits(v, 16)
}

pub fn push_digits(out: &mut String, v: u64, base: u64)
    requires
        2 <= base <= 16,
    ensures
        final(out)@ == old(out)@ + digits(v as nat, base as nat),
    decreases v,
{
    let ghost before = out@;
    if v >= base {
        proof {
            lemma_quotient_smaller(v as nat, base as nat);
        }
        push_digits(out, v / base, base);
    }
    let d: u8 = (v % base) as u8;
    let c: char = if d < 10 {
        (48 + d) as char
    } else {
        (87 + d) as char
    };
    out.push(c);
    proof {
        assert(v % base < base) by (nonlinear_arith)
            requires
                base > 0,
        ;
        if v < base {
            assert(v % base == v) by (nonlinear_arith)
                requires
                    v < base,
            ;
        }
        assert(out@ =~= before + digits(v as nat, base as nat));
    }
}

/// Append `v` in decimal.
pub fn push_dec(out: &mut String, v: u64)
    ensures
        final(out)@ == old(out)@ + dec_text(v as nat),
{
    push_digits(out, v, 10);
}

/// Append `v` in hexadecimal with its `0x` prefix.
pub fn push_hex(out: &mut String, v: u64)
    ensures
        final(out)@ == old(out)@ + hex_text(v as nat),
{
    let ghost before = out@;
    out.push('0');
    out.push('x');
    push_digits(out, v, 16);
    assert(out@ =~= before + hex_text(v as nat));
}

/// The characters of a text, in order.
pub fn chars_of(s: &str) -> (r: Vec<char>)
    ensures
        r@ == s@,
{
    let mut r: Vec<char> = Vec::new();
    for c in it: s.chars()
        invariant
            r@ == it.seq().take(it.index()),
            it.seq() == s@,
    {
        r.push(c);
    }
    r
}

/// The text made of `chars`.
pub fn text_of_chars(chars: &[char]) -> (s: String)
    ensures
        s@ == chars@,
{
    let mut s: String = String::new();
    let mut i: usize = 0;
    while i < chars.len()
        invariant
            i <= chars.len(),
            s@ == chars@.take(i as int),
        decreases chars.len() - i,
    {
        s.push(chars[i]);
        i = i + 1;
        assert(chars@.take(i as int) =~= chars@.take(i - 1).push(chars@[i - 1]));
    }
    assert(chars@.take(chars.len() as int) =~= chars@);
    s
}

/// `char::from_u32`: the character with the given code point, if there is one.
pub assume_specification[ char::from_u32 ](i: u32) -> (r: Option<char>)
    ensures
        r is Some <==> (i < 0xd800 || 0xe000 <= i <= 0x10ffff),
        r matches Some(c) ==> c as u32 == i,
;

/// The UTF-16 code units of one character.
pub open spec fn utf16_units(c: char) -> Seq<u16> {
    if (c as u32) < 0x1_0000 {
        seq![(c as u32) as u16]
    } else {
        seq![
            (0xd800 + (c as u32 - 0x1_0000) / 0x400) as u16,
            (0xdc00 + (c as u32 - 0x1_0000) % 0x400) as u16,
        ]
    }
}

/// A text in UTF-16.
pub open spec fn utf16_encode(s: Seq<char>) -> Seq<u16>
    decreases s.len(),
{
    if s.len() == 0 {
        Seq::empty()
    } else {
        utf16_units(s[0]) + utf16_encode(s.drop_first())
    }
}

pub open spec fn is_high_surrogate(u: u16) -> bool {
    0xd800 <= u < 0xdc00
}

pub open spec fn is_low_surrogate(u: u16) -> bool {
    0xdc00 <= u < 0xe000
}

/// The character a surrogate pair stands for.
pub open spec fn surrogate_char(hi: u16, lo: u16) -> char {
    (0x1_0000 + (hi - 0xd800) * 0x400 + (lo - 0xdc00)) as char
}

/// The text of UTF-16 code units; every unpaired surrogate becomes U+FFFD.
pub open spec fn utf16_decode(u: Seq<u16>) -> Seq<char>
    decreases u.len(),
{
    if u.len() == 0 {
        Seq::empty()
    } else if !is_high_surrogate(u[0]) && !is_low_surrogate(u[0]) {
        seq![u[0] as char] + utf16_decode(u.skip(1))
    } else if is_high_surrogate(u[0]) && u.len() > 1 && is_low_surrogate(u[1]) {
        seq![surrogate_char(u[0], u[1])] + utf16_decode(u.skip(2))
    } else {
        seq![0xfffd as char] + utf16_decode(u.skip(1))
    }
}

/// A text survives being written in UTF-16 and read again.
pub proof fn utf16_roundtrip(s: Seq<char>)
    ensures
        utf16_decode(utf16_encode(s)) == s,
    decreases s.len(),
{
    if s.len() > 0 {
        utf16_roundtrip(s.drop_first());
        let u = utf16_encode(s);
        let rest = utf16_encode(s.drop_first());
        let c = s[0];
        let v = c as u32;
        char_u32_cast(c, v);
        if v < 0x1_0000 {
            assert(u.skip(1) =~= rest);
            assert(u[0] == v);
            assert(u[0] as char == c);
        } else {
            assert(u.skip(2) =~= rest);
            assert(u[0] == 0xd800 + (v - 0x1_0000) / 0x400);
            assert(u[1] == 0xdc00 + (v - 0x1_0000) % 0x400);
            assert(surrogate_char(u[0], u[1]) == c);
        }
        assert(utf16_decode(u) =~= s);
    } else {
        assert(utf16_decode(utf16_encode(s)) =~= s);
    }
}

/// The UTF-16 code units of a text.
pub fn to_utf16(s: &str) -> (r: Vec<u16>)
    ensures
        r@ == utf16_encode(s@),
{
    let chars = chars_of(s);
    let mut r: Vec<u16> = Vec::new();
    let mut i: usize = 0;
    assert(s@.skip(0) =~= s@);
    assert(r@ + utf16_encode(s@.skip(0)) =~= utf16_encode(s@));
    while i < chars.len()
        invariant
            i <= chars.len(),
            chars@ == s@,
            r@ + utf16_encode(s@.skip(i as int)) == utf16_encode(s@),
        decreases chars.len() - i,
    {
        let c: u32 = chars[i] as u32;
        let ghost before = r@;
        proof {
            assert(s@.skip(i as int).drop_first() =~= s@.skip(i + 1));
        }
        if c < 0x1_0000 {
            r.push(c as u16);
        } else {
            let v: u32 = c - 0x1_0000;
            r.push((0xd800 + v / 0x400) as u16);
            r.push((0xdc00 + v % 0x400) as u16);
        }
        assert(r@ =~= before + utf16_units(s@[i as int]));
        assert(r@ + utf16_encode(s@.skip(i + 1)) =~= before + utf16_encode(s@.skip(i as int)));
        i = i + 1;
    }
    assert(s@.skip(chars.len() as int) =~= Seq::empty());
    assert(r@ =~= utf16_encode(s@));
    r
}

/// The text of UTF-16 code units.
pub fn text_of_utf16(u: &[u16]) -> (s: String)
    ensures
        s@ == utf16_decode(u@),
{
    let mut s: String = String::new();
    let mut i: usize = 0;
    assert(u@.skip(0) =~= u@);
    assert(s@ + utf16_decode(u@.skip(0)) =~= utf16_decode(u@));
    while i < u.len()
        invariant
            i <= u.len(),
            s@ + utf16_decode(u@.skip(i as int)) == utf16_decode(u@),
        decreases u.len() - i,
    {
        let a: u16 = u[i];
        let ghost before = s@;
        let ghost tail = u@.skip(i as int);
        let mut code: u32 = 0xfffd;
        let mut step: usize = 1;
        if a < 0xd800 || a >= 0xe000 {
            code = a as u32;
        } else if a < 0xdc00 && i + 1 < u.len() && 0xdc00 <= u[i + 1] && u[i + 1] < 0xe000 {
            code = 0x1_0000 + (a as u32 - 0xd800) * 0x400 + (u[i + 1] as u32 - 0xdc00);
            step = 2;
        }
        match char::from_u32(code) {
            Some(c) => {
                s.push(c);
                proof {
                    assert(tail.skip(step as int) =~= u@.skip(i + step));
                    char_u32_cast(c, c as u32);
                    assert(c as u32 == code);
                    assert(c == code as char);
                    assert(utf16_decode(tail) =~= seq![c] + utf16_decode(u@.skip(i + step)));
                    assert(s@ + utf16_decode(u@.skip(i + step)) =~= before + utf16_decode(tail));
                }
            },
            None => {},
        }
        i = i + step;
    }
    assert(u@.skip(u.len() as int) =~= Seq::empty());
    assert(s@ =~= utf16_decode(u@));
    s
}

/// A character is one UTF-16 unit, its own number, or two: the upper ten bits of
/// what is above 0x10000 behind 0xd800, the lower ten behind 0xdc00.
pub proof fn utf16_units_are_the_bits(c: char)
    ensures
        ({
            let v = c as u32;
            let u = utf16_units(c);
            &&& v < 0x1_0000 ==> u.len() == 1 && u[0] == v
            &&& v >= 0x1_0000 ==> {
                &&& u.len() == 2
                &&& 0xd800 <= u[0] < 0xdc00
                &&& 0xdc00 <= u[1] < 0xe000
                &&& v == 0x1_0000 + (u[0] - 0xd800) * 0x400 + (u[1] - 0xdc00)
            }
        }),
{
}

} // verus!

//! Laying texts out in columns.

use crate::text::{digit, digits, push_digits};
use vstd::prelude::*;
use vstd::string::*;

verus! {

/// `n` times the character `c`.
pub open spec fn repeated(c: char, n: nat) -> Seq<char> {
    Seq::new(n, |i: int| c)
}

/// How many characters are missing from `have` to `want`.
pub open spec fn missing(have: nat, want: nat) -> nat {
    if have < want {
        (want - have) as nat
    } else {
        0
    }
}

/// A text filled up to `w` characters with spaces behind it.
pub open spec fn left_in(s: Seq<char>, w: nat) -> Seq<char> {
    s + repeated(' ', missing(s.len(), w))
}

/// A text filled up to `w` characters with spaces before it.
pub open spec fn right_in(s: Seq<char>, w: nat) -> Seq<char> {
    repeated(' ', missing(s.len(), w)) + s
}

/// A number in hexadecimal with at least `w` digits, behind `0x`.
pub open spec fn wide_hex(v: nat, w: nat) -> Seq<char> {
    seq!['0', 'x'] + repeated('0', missing(digits(v, 16).len(), w)) + digits(v, 16)
}

/// The number of characters of a text.
pub fn char_count(s: &str) -> (n: usize)
    ensures
        n == s@.len(),
{
    crate::text::chars_of(s).len()
}

/// Append `n` times the character `c`.
pub fn push_repeated(out: &mut String, c: char, n: usize)
    ensures
        final(out)@ == old(out)@ + repeated(c, n as nat),
{
    let ghost before = out@;
    let mut i: usize = 0;
    assert(before + repeated(c, 0) =~= before);
    while i < n
        invariant
            i <= n,
            out@ == before + repeated(c, i as nat),
        decreases n - i,
    {
        out.push(c);
        i = i + 1;
        assert(out@ =~= before + repeated(c, i as nat));
    }
}

/// Append a text filled up to `w` characters with spaces behind it.
pub fn push_left(out: &mut String, s: &str, w: usize)
    ensures
        final(out)@ == old(out)@ + left_in(s@, w as nat),
{
    let ghost before = out@;
    let n: usize = char_count(s);
    out.append(s);
    if n < w {
        push_repeated(out, ' ', w - n);
    } else {
        assert(repeated(' ', 0) =~= Seq::empty());
    }
    assert(out@ =~= before + left_in(s@, w as nat));
}

/// Append a text filled up to `w` characters with spaces before it.
pub fn push_right(out: &mut String, s: &str, w: usize)
    ensures
        final(out)@ == old(out)@ + right_in(s@, w as nat),
{
    let ghost before = out@;
    let n: usize = char_count(s);
    if n < w {
        push_repeated(out, ' ', w - n);
    } else {
        assert(repeated(' ', 0) =~= Seq::empty());
    }
    out.append(s);
    assert(out@ =~= before + right_in(s@, w as nat));
}

/// A number in hexadecimal with its `0x` prefix.
pub fn hex_string(v: u64) -> (r: String)
    ensures
        r@ == crate::text::hex_text(v as nat),
{
    let mut r: String = String::new();
    crate::text::push_hex(&mut r, v);
    assert(r@ =~= crate::text::hex_text(v as nat));
    r
}

/// A number in decimal.
pub fn dec_string(v: u64) -> (r: String)
    ensures
        r@ == crate::text::dec_text(v as nat),
{
    let mut r: String = String::new();
    crate::text::push_dec(&mut r, v);
    assert(r@ =~= crate::text::dec_text(v as nat));
    r
}

/// Append a number in hexadecimal with at least `w` digits, behind `0x`.
pub fn push_wide_hex(out: &mut String, v: u64, w: usize)
    ensures
        final(out)@ == old(out)@ + wide_hex(v as nat, w as nat),
{
    let ghost before = out@;
    let mut d: String = String::new();
    push_digits(&mut d, v, 16);
    assert(d@ =~= digits(v as nat, 16));
    let n: usize = char_count(d.as_str());
    out.push('0');
    out.push('x');
    if n < w {
        push_repeated(out, '0', w - n);
    } else {
        assert(repeated('0', 0) =~= Seq::empty());
    }
    out.append(d.as_str());
    assert(out@ =~= before + wide_hex(v as nat, w as nat));
}

/// The character for the digit `d` (below 16), upper case.
pub open spec fn upper_digit(d: nat) -> char {
    if d < 10 {
        (48 + d) as char
    } else {
        (55 + d) as char
    }
}

/// Append a byte as two upper-case hexadecimal digits.
pub fn push_byte(out: &mut String, b: u8)
    ensures
        final(out)@ == old(out)@ + seq![
            upper_digit((b / 16) as nat),
            upper_digit((b % 16) as nat),
        ],
{
    let ghost before = out@;
    let hi: u8 = b / 16;
    let lo: u8 = b % 16;
    let h: char = if hi < 10 {
        (48 + hi) as char
    } else {
        (55 + hi) as char
    };
    let l: char = if lo < 10 {
        (48 + lo) as char
    } else {
        (55 + lo) as char
    };
    out.push(h);
    out.push(l);
    assert(out@ =~= before + seq![upper_digit((b / 16) as nat), upper_digit((b % 16) as nat)]);
}

/// Texts with a separator between them.
pub open spec fn joined(parts: Seq<Seq<char>>, separator: Seq<char>) -> Seq<char>
    decreases parts.len(),
{
    if parts.len() == 0 {
        Seq::empty()
    } else if parts.len() == 1 {
        parts[0]
    } else {
        joined(parts.drop_last(), separator) + separator + parts.last()
    }
}

/// Texts with a separator between them.
pub fn join_texts(parts: &[String], separator: &str) -> (r: String)
    ensures
        r@ == joined(crate::domain::import::views(parts@), separator@),
{
    let ghost all = crate::domain::import::views(parts@);
    let mut r: String = String::new();
    let mut i: usize = 0;
    assert(r@ =~= joined(all.take(0), separator@));
    while i < parts.len()
        invariant
            i <= parts.len(),
            all == crate::domain::import::views(parts@),
            r@ == joined(all.take(i as int), separator@),
        decreases parts.len() - i,
    {
        proof {
            assert(all.take(i + 1).drop_last() =~= all.take(i as int));
            assert(all.take(i + 1).last() == parts@[i as int]@);
        }
        let ghost before = r@;
        if i > 0 {
            r.append(separator);
        }
        r.append(parts[i].as_str());
        proof {
            if i == 0 {
                assert(before =~= Seq::empty());
                assert(r@ =~= all[0]);
                assert(all.take(1)[0] == all[0]);
            }
        }
        i = i + 1;
    }
    assert(all.take(i as int) =~= all);
    r
}

} // verus!

//! The rows of a hex view.

use crate::domain::section::{Section, SectionModel};
use crate::ui::format::{left_in, push_byte, push_left, push_wide_hex, upper_digit, wide_hex};
use vstd::prelude::*;
use vstd::slice::slice_subrange;
use vstd::string::*;

verus! {

/// How many rows of 16 bytes show `len` bytes; always at least one.
pub open spec fn rows_of(len: nat) -> nat {
    if len == 0 {
        1
    } else {
        ((len + 15) / 16) as nat
    }
}

pub fn row_count(len: usize) -> (r: usize)
    ensures
        r == rows_of(len as nat),
{
    let full: usize = len / 16;
    if len % 16 != 0 {
        full + 1
    } else if full == 0 {
        1
    } else {
        full
    }
}

/// The bytes of row `row`.
pub open spec fn row_bytes(data: Seq<u8>, row: int) -> Seq<u8> {
    data.subrange(
        16 * row,
        if 16 * row + 16 <= data.len() {
            16 * row + 16
        } else {
            data.len() as int
        },
    )
}

/// Bytes as upper-case hexadecimal pairs, each followed by a space.
pub open spec fn spaced_hex(b: Seq<u8>) -> Seq<char>
    decreases b.len(),
{
    if b.len() == 0 {
        Seq::empty()
    } else {
        spaced_hex(b.drop_last()) + seq![
            upper_digit((b.last() / 16) as nat),
            upper_digit((b.last() % 16) as nat),
            ' ',
        ]
    }
}

/// Bytes as text: those that print as themselves, a dot for the others.
pub open spec fn printable(b: Seq<u8>) -> Seq<char> {
    Seq::new(
        b.len(),
        |i: int|
            if 0x20 <= b[i] <= 0x7e {
                b[i] as char
            } else {
                '.'
            },
    )
}

/// A text without its last character.
pub open spec fn without_last(s: Seq<char>) -> Seq<char> {
    if s.len() > 0 {
        s.drop_last()
    } else {
        s
    }
}

/// A row of the section view: address, bytes, text.
pub open spec fn section_row_text(data: Seq<u8>, base: u32, row: int) -> Seq<char> {
    let b = row_bytes(data, row);
    wide_hex((base + 16 * row) as nat, 6) + ": "@ + left_in(spaced_hex(b), 48) + " "@ + printable(b)
}

/// A row of the resource preview.
pub open spec fn preview_row_text(data: Seq<u8>, base: u32, row: int) -> Seq<char> {
    let b = row_bytes(data, row);
    wide_hex((base + 16 * row) as nat, 8) + ": "@ + left_in(without_last(spaced_hex(b)), 48) + "  "@
        + printable(b)
}

fn hex_of(b: &[u8], trim_last: bool) -> (r: String)
    requires
        b@.len() > 0,
    ensures
        r@ == if trim_last {
            without_last(spaced_hex(b@))
        } else {
            spaced_hex(b@)
        },
{
    let mut r: String = String::new();
    let mut i: usize = 0;
    assert(b@.take(0) =~= Seq::empty());
    assert(r@ =~= Seq::empty());
    while i < b.len()
        invariant
            i <= b.len(),
            b@.len() > 0,
            r@ == if trim_last && i == b@.len() {
                without_last(spaced_hex(b@.take(i as int)))
            } else {
                spaced_hex(b@.take(i as int))
            },
        decreases b.len() - i,
    {
        proof {
            assert(b@.take(i + 1).drop_last() =~= b@.take(i as int));
            assert(b@.take(i + 1).last() == b@[i as int]);
        }
        let ghost before = r@;
        push_byte(&mut r, b[i]);
        let ghost pair = seq![
            upper_digit((b@[i as int] / 16) as nat),
            upper_digit((b@[i as int] % 16) as nat),
        ];
        assert(spaced_hex(b@.take(i + 1)) =~= (before + pair).push(' '));
        if !trim_last || i + 1 < b.len() {
            r.push(' ');
        } else {
            assert(without_last(spaced_hex(b@.take(i + 1))) =~= before + pair);
        }
        i = i + 1;
    }
    assert(b@.take(i as int) =~= b@);
    r
}

fn push_printable(out: &mut String, b: &[u8])
    ensures
        final(out)@ == old(out)@ + printable(b@),
{
    let ghost before = out@;
    let mut i: usize = 0;
    assert(before + printable(b@).take(0) =~= before);
    while i < b.len()
        invariant
            i <= b.len(),
            out@ == before + printable(b@).take(i as int),
        decreases b.len() - i,
    {
        let c: char = if 0x20 <= b[i] && b[i] <= 0x7e {
            b[i] as char
        } else {
            '.'
        };
        out.push(c);
        i = i + 1;
        assert(out@ =~= before + printable(b@).take(i as int));
    }
    assert(printable(b@).take(i as int) =~= printable(b@));
}

fn bytes_of_row(data: &[u8], row: usize) -> (r: &[u8])
    requires
        16 * row < data@.len(),
    ensures
        r@ == row_bytes(data@, row as int),
        r@.len() > 0,
{
    let len: usize = data.len();
    let start: usize = row * 16;
    let end: usize = if len - start >= 16 {
        start + 16
    } else {
        len
    };
    slice_subrange(data, start, end)
}

/// A row of the section view. Its address must fit.
pub fn section_row(data: &[u8], base: u32, row: usize) -> (r: String)
    requires
        16 * row < data@.len(),
        base + 16 * row <= u32::MAX,
    ensures
        r@ == section_row_text(data@, base, row as int),
{
    let b = bytes_of_row(data, row);
    let mut r: String = String::new();
    push_wide_hex(&mut r, base as u64 + 16 * row as u64, 6);
    r.append(": ");
    push_left(&mut r, hex_of(b, false).as_str(), 48);
    r.append(" ");
    push_printable(&mut r, b);
    assert(r@ =~= section_row_text(data@, base, row as int));
    r
}

/// A row of the resource preview. Its address must fit.
pub fn preview_row(data: &[u8], base: u32, row: usize) -> (r: String)
    requires
        16 * row < data@.len(),
        base + 16 * row <= u32::MAX,
    ensures
        r@ == preview_row_text(data@, base, row as int),
{
    let b = bytes_of_row(data, row);
    let mut r: String = String::new();
    push_wide_hex(&mut r, base as u64 + 16 * row as u64, 8);
    r.append(": ");
    push_left(&mut r, hex_of(b, true).as_str(), 48);
    r.append("  ");
    push_printable(&mut r, b);
    assert(r@ =~= preview_row_text(data@, base, row as int));
    r
}

/// The address a section's rows are counted from.
pub open spec fn base_of(s: SectionModel, memory_view: bool) -> u32 {
    if memory_view {
        s.header.virtual_address.0
    } else {
        s.header.pointer_to_raw_data.0
    }
}

/// Address used as the row basis for a section in the hex view: RVA in memory
/// layout, raw file offset in file layout.
pub fn section_base(s: &Section, memory_view: bool) -> (r: u32)
    ensures
        r == base_of(s@, memory_view),
{
    if memory_view {
        s.header.virtual_address.get()
    } else {
        s.header.pointer_to_raw_data.get()
    }
}

/// The row that shows an address.
pub fn row_of(address: u32, base: u32) -> (r: u32)
    ensures
        r == if address >= base {
            (address - base) / 16
        } else {
            0
        },
{
    address.saturating_sub(base) / 16
}

/// Every byte of the data is in exactly one row: the rows, one after the other,
/// are the data.
pub proof fn rows_cover_the_data(data: Seq<u8>, k: int)
    requires
        0 <= k < data.len(),
    ensures
        0 <= k / 16 < rows_of(data.len()),
        k % 16 < row_bytes(data, k / 16).len(),
        row_bytes(data, k / 16)[k % 16] == data[k],
{
}

} // verus!

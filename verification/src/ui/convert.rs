//! The address converter.

use crate::domain::types::{RawOffset, Rva};
use crate::feature::va::{AddressMap, VaConverter};
use crate::text::hex_text;
use crate::ui::format::hex_string;
use crate::ui::input::{address_value, parse_u64};
use vstd::prelude::*;
use vstd::string::*;

verus! {

/// An address as RVA, as absolute address and as file offset, where it has one;
/// each as a number that may be too large.
#[verifier::ext_equal]
pub struct Conversion {
    pub rva: int,
    pub va: int,
    pub raw: Option<int>,
}

/// What the three input fields convert to: the first filled one counts.
pub open spec fn conversion(
    m: AddressMap,
    rva: Seq<char>,
    va: Seq<char>,
    raw: Seq<char>,
) -> Option<Conversion> {
    match address_value(rva, u64::MAX as nat) {
        Some(v) => {
            let r = (v % 0x1_0000_0000) as u32;
            Some(Conversion { rva: r as int, va: m.va_of_rva(r), raw: m.raw_of_rva(r) })
        },
        None => match address_value(va, u64::MAX as nat) {
            Some(v) => match m.rva_of_va(v as u64) {
                Some(r) => Some(
                    Conversion { rva: r as int, va: v as int, raw: m.raw_of_rva(r) },
                ),
                None => None,
            },
            None => match address_value(raw, u64::MAX as nat) {
                Some(v) => {
                    let o = (v % 0x1_0000_0000) as u32;
                    match m.rva_of_raw(o) {
                        Some(r) => Some(
                            Conversion { rva: r, va: m.image_base + r, raw: Some(o as int) },
                        ),
                        None => None,
                    }
                },
                None => None,
            },
        },
    }
}

impl Conversion {
    /// Whether every part fits its field.
    pub open spec fn fits(self) -> bool {
        self.rva <= u32::MAX && self.va <= u64::MAX && (self.raw matches Some(o) ==> o
            <= u32::MAX)
    }

    /// The file offset as it is shown.
    pub open spec fn shown_raw(self) -> Seq<char> {
        match self.raw {
            Some(o) => hex_text(o as nat),
            None => "—"@,
        }
    }
}

/// The parts of a conversion as numbers.
fn convert(conv: &VaConverter, rva: &str, va: &str, raw: &str) -> (r: Option<
    (u64, u128, Option<u64>),
>)
    ensures
        match conversion(conv@, rva@, va@, raw@) {
            Some(c) => r is Some && (r->0).0 == c.rva && (r->0).1 == c.va && match c.raw {
                Some(o) => (r->0).2 is Some && (r->0).2->0 == o,
                None => (r->0).2 is None,
            },
            None => r is None,
        },
{
    let base: u128 = conv.image_base() as u128;
    if let Some(v) = parse_u64(rva) {
        let r: u32 = (v % 0x1_0000_0000) as u32;
        return Some((r as u64, base + r as u128, conv.offset_of_rva(Rva(r))));
    }
    if let Some(v) = parse_u64(va) {
        return match conv.va_to_rva(v) {
            Some(r) => Some((r.get() as u64, v as u128, conv.offset_of_rva(r))),
            None => None,
        };
    }
    if let Some(v) = parse_u64(raw) {
        let o: u32 = (v % 0x1_0000_0000) as u32;
        return match conv.address_of_raw(RawOffset(o)) {
            Some(r) => Some((r, base + r as u128, Some(o as u64))),
            None => None,
        };
    }
    None
}

/// Whether the input fields convert to addresses that fit, or to nothing.
pub fn can_convert(conv: &VaConverter, rva: &str, va: &str, raw: &str) -> (r: bool)
    ensures
        r == (conversion(conv@, rva@, va@, raw@) matches Some(c) ==> c.fits()),
{
    match convert(conv, rva, va, raw) {
        Some((r, v, raw_offset)) => r <= u32::MAX as u64 && v <= u64::MAX as u128
            && match raw_offset {
            Some(o) => o <= u32::MAX as u64,
            None => true,
        },
        None => true,
    }
}

/// Compute a VA / RVA / file-offset triple from whichever input field is
/// filled, returning the three formatted values. They must fit.
pub fn convert_addresses(conv: &VaConverter, rva: &str, va: &str, raw: &str) -> (r: Option<
    (String, String, String),
>)
    requires
        conversion(conv@, rva@, va@, raw@) matches Some(c) ==> c.fits(),
    ensures
        match conversion(conv@, rva@, va@, raw@) {
            Some(c) => r is Some && (r->0).0@ == hex_text(c.rva as nat) && (r->0).1@ == hex_text(
                c.va as nat,
            ) && (r->0).2@ == c.shown_raw(),
            None => r is None,
        },
{
    match convert(conv, rva, va, raw) {
        Some((r, v, raw_offset)) => {
            let shown = match raw_offset {
                Some(o) => hex_string(o),
                None => "—".to_owned(),
            };
            Some((hex_string(r), hex_string(v as u64), shown))
        },
        None => None,
    }
}

} // verus!

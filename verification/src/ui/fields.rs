//! The header pages: their rows and what editing a row does.

use crate::domain::coff::CoffHeader;
use crate::domain::dos::{DosHeader, DosModel};
use crate::domain::import::{lemma_views_push, views};
use crate::domain::load_config::LoadConfigDirectory;
use crate::domain::optional::{OptionalHeader, OptionalHeader32, OptionalHeader64};
use crate::domain::tls::TlsDirectory;
use crate::domain::types::Rva;
use crate::text::{dec_text, hex_text};
use crate::ui::format::{dec_string, hex_string};
use vstd::prelude::*;
use vstd::string::*;

verus! {

/// What stands in a row: a number that can be edited, with the hexadecimal
/// digits it is shown with and its largest value, or a text.
#[derive(Debug, PartialEq, Eq)]
pub enum Cell {
    Number { value: u64, digits: usize, max: u64 },
    Text(String),
}

/// A row's contents with its text as a character sequence.
pub enum CellModel {
    Number { value: u64, digits: usize, max: u64 },
    Text(Seq<char>),
}

impl View for Cell {
    type V = CellModel;

    open spec fn view(&self) -> CellModel {
        match self {
            Cell::Number { value, digits, max } => CellModel::Number {
                value: *value,
                digits: *digits,
                max: *max,
            },
            Cell::Text(s) => CellModel::Text(s@),
        }
    }
}

/// A row of a header page.
#[derive(Debug, PartialEq, Eq)]
pub struct Field {
    pub label: &'static str,
    pub cell: Cell,
}

/// A row with its label as a character sequence.
#[verifier::ext_equal]
pub struct FieldModel {
    pub label: Seq<char>,
    pub cell: CellModel,
}

impl View for Field {
    type V = FieldModel;

    open spec fn view(&self) -> FieldModel {
        FieldModel { label: self.label@, cell: self.cell@ }
    }
}

/// A row with a number.
pub open spec fn number_row(label: Seq<char>, value: u64, digits: usize, max: u64) -> FieldModel {
    FieldModel { label, cell: CellModel::Number { value, digits, max } }
}

/// A row with a text.
pub open spec fn text_row(label: Seq<char>, text: Seq<char>) -> FieldModel {
    FieldModel { label, cell: CellModel::Text(text) }
}

fn push_number(rows: &mut Vec<Field>, label: &'static str, value: u64, digits: usize, max: u64)
    ensures
        views(final(rows)@) == views(old(rows)@).push(number_row(label@, value, digits, max)),
{
    let f = Field { label, cell: Cell::Number { value, digits, max } };
    proof {
        lemma_views_push(rows@, f);
    }
    rows.push(f);
}

fn push_text(rows: &mut Vec<Field>, label: &'static str, text: String)
    ensures
        views(final(rows)@) == views(old(rows)@).push(text_row(label@, text@)),
{
    let f = Field { label, cell: Cell::Text(text) };
    proof {
        lemma_views_push(rows@, f);
    }
    rows.push(f);
}

fn new_rows() -> (r: Vec<Field>)
    ensures
        views(r@) == Seq::<FieldModel>::empty(),
{
    let r: Vec<Field> = Vec::new();
    assert(views(r@) =~= Seq::empty());
    r
}

/// A number in hexadecimal with something behind it.
fn hex_with(v: u64, suffix: &str) -> (r: String)
    ensures
        r@ == hex_text(v as nat) + suffix@,
{
    let mut r = hex_string(v);
    r.append(suffix);
    r
}

/// The labels of the thirty words of a DOS header, in order.
pub open spec fn dos_labels() -> Seq<Seq<char>> {
    seq![
        "e_magic"@,
        "e_cblp"@,
        "e_cp"@,
        "e_crlc"@,
        "e_cparhdr"@,
        "e_minalloc"@,
        "e_maxalloc"@,
        "e_ss"@,
        "e_sp"@,
        "e_csum"@,
        "e_ip"@,
        "e_cs"@,
        "e_lfarlc"@,
        "e_ovno"@,
        "e_res[0]"@,
        "e_res[1]"@,
        "e_res[2]"@,
        "e_res[3]"@,
        "e_oemid"@,
        "e_oeminfo"@,
        "e_res2[0]"@,
        "e_res2[1]"@,
        "e_res2[2]"@,
        "e_res2[3]"@,
        "e_res2[4]"@,
        "e_res2[5]"@,
        "e_res2[6]"@,
        "e_res2[7]"@,
        "e_res2[8]"@,
        "e_res2[9]"@,
    ]
}

/// The rows of the DOS header page: the words, then where the signature stands
/// and how long the stub is.
pub open spec fn dos_rows(d: DosModel) -> Seq<FieldModel> {
    Seq::new(30, |i: int| number_row(dos_labels()[i], d.words[i] as u64, 4, 0xffff)).push(
        text_row("e_lfanew"@, hex_text(d.e_lfanew as nat)),
    ).push(text_row("stub size"@, dec_text(d.stub.len()) + " bytes"@))
}

/// The rows of the DOS header page.
pub fn dos_fields(d: &DosHeader) -> (r: Vec<Field>)
    ensures
        views(r@) == dos_rows(d@),
{
    let mut rows = new_rows();
    push_number(&mut rows, "e_magic", d.e_magic as u64, 4, 0xffff);
    push_number(&mut rows, "e_cblp", d.e_cblp as u64, 4, 0xffff);
    push_number(&mut rows, "e_cp", d.e_cp as u64, 4, 0xffff);
    push_number(&mut rows, "e_crlc", d.e_crlc as u64, 4, 0xffff);
    push_number(&mut rows, "e_cparhdr", d.e_cparhdr as u64, 4, 0xffff);
    push_number(&mut rows, "e_minalloc", d.e_minalloc as u64, 4, 0xffff);
    push_number(&mut rows, "e_maxalloc", d.e_maxalloc as u64, 4, 0xffff);
    push_number(&mut rows, "e_ss", d.e_ss as u64, 4, 0xffff);
    push_number(&mut rows, "e_sp", d.e_sp as u64, 4, 0xffff);
    push_number(&mut rows, "e_csum", d.e_csum as u64, 4, 0xffff);
    push_number(&mut rows, "e_ip", d.e_ip as u64, 4, 0xffff);
    push_number(&mut rows, "e_cs", d.e_cs as u64, 4, 0xffff);
    push_number(&mut rows, "e_lfarlc", d.e_lfarlc as u64, 4, 0xffff);
    push_number(&mut rows, "e_ovno", d.e_ovno as u64, 4, 0xffff);
    push_number(&mut rows, "e_res[0]", d.e_res[0] as u64, 4, 0xffff);
    push_number(&mut rows, "e_res[1]", d.e_res[1] as u64, 4, 0xffff);
    push_number(&mut rows, "e_res[2]", d.e_res[2] as u64, 4, 0xffff);
    push_number(&mut rows, "e_res[3]", d.e_res[3] as u64, 4, 0xffff);
    push_number(&mut rows, "e_oemid", d.e_oemid as u64, 4, 0xffff);
    push_number(&mut rows, "e_oeminfo", d.e_oeminfo as u64, 4, 0xffff);
    push_number(&mut rows, "e_res2[0]", d.e_res2[0] as u64, 4, 0xffff);
    push_number(&mut rows, "e_res2[1]", d.e_res2[1] as u64, 4, 0xffff);
    push_number(&mut rows, "e_res2[2]", d.e_res2[2] as u64, 4, 0xffff);
    push_number(&mut rows, "e_res2[3]", d.e_res2[3] as u64, 4, 0xffff);
    push_number(&mut rows, "e_res2[4]", d.e_res2[4] as u64, 4, 0xffff);
    push_number(&mut rows, "e_res2[5]", d.e_res2[5] as u64, 4, 0xffff);
    push_number(&mut rows, "e_res2[6]", d.e_res2[6] as u64, 4, 0xffff);
    push_number(&mut rows, "e_res2[7]", d.e_res2[7] as u64, 4, 0xffff);
    push_number(&mut rows, "e_res2[8]", d.e_res2[8] as u64, 4, 0xffff);
    push_number(&mut rows, "e_res2[9]", d.e_res2[9] as u64, 4, 0xffff);
    push_text(&mut rows, "e_lfanew", hex_string(d.e_lfanew as u64));
    let mut size = dec_string(d.stub.len() as u64);
    size.append(" bytes");
    push_text(&mut rows, "stub size", size);
    assert(views(rows@) =~= dos_rows(d@));
    rows
}

/// Set word `i` of a DOS header.
pub fn set_dos_field(d: &mut DosHeader, i: usize, v: u16)
    requires
        i < 30,
    ensures
        final(d)@ == (DosModel { words: old(d)@.words.update(i as int, v), ..old(d)@ }),
{
    if i == 0 {
        d.e_magic = v;
    } else if i == 1 {
        d.e_cblp = v;
    } else if i == 2 {
        d.e_cp = v;
    } else if i == 3 {
        d.e_crlc = v;
    } else if i == 4 {
        d.e_cparhdr = v;
    } else if i == 5 {
        d.e_minalloc = v;
    } else if i == 6 {
        d.e_maxalloc = v;
    } else if i == 7 {
        d.e_ss = v;
    } else if i == 8 {
        d.e_sp = v;
    } else if i == 9 {
        d.e_csum = v;
    } else if i == 10 {
        d.e_ip = v;
    } else if i == 11 {
        d.e_cs = v;
    } else if i == 12 {
        d.e_lfarlc = v;
    } else if i == 13 {
        d.e_ovno = v;
    } else if i == 14 {
        d.e_res[0] = v;
    } else if i == 15 {
        d.e_res[1] = v;
    } else if i == 16 {
        d.e_res[2] = v;
    } else if i == 17 {
        d.e_res[3] = v;
    } else if i == 18 {
        d.e_oemid = v;
    } else if i == 19 {
        d.e_oeminfo = v;
    } else if i == 20 {
        d.e_res2[0] = v;
    } else if i == 21 {
        d.e_res2[1] = v;
    } else if i == 22 {
        d.e_res2[2] = v;
    } else if i == 23 {
        d.e_res2[3] = v;
    } else if i == 24 {
        d.e_res2[4] = v;
    } else if i == 25 {
        d.e_res2[5] = v;
    } else if i == 26 {
        d.e_res2[6] = v;
    } else if i == 27 {
        d.e_res2[7] = v;
    } else if i == 28 {
        d.e_res2[8] = v;
    } else if i == 29 {
        d.e_res2[9] = v;
    }
    assert(d@.words =~= old(d)@.words.update(i as int, v));
}

/// The rows of the COFF header page behind the machine.
pub open spec fn coff_rows(c: CoffHeader) -> Seq<FieldModel> {
    seq![
        text_row("number of sections"@, dec_text(c.number_of_sections as nat)),
        number_row("time/date stamp"@, c.time_date_stamp as u64, 8, 0xffff_ffff),
        number_row("pointer to symbol table"@, c.pointer_to_symbol_table as u64, 8, 0xffff_ffff),
        number_row("number of symbols"@, c.number_of_symbols as u64, 8, 0xffff_ffff),
        text_row("size of optional header"@, dec_text(c.size_of_optional_header as nat)),
        number_row("characteristics"@, c.characteristics as u64, 4, 0xffff),
    ]
}

/// The rows of the COFF header page behind the machine.
pub fn coff_fields(c: &CoffHeader) -> (r: Vec<Field>)
    ensures
        views(r@) == coff_rows(*c),
{
    let mut rows = new_rows();
    push_text(&mut rows, "number of sections", dec_string(c.number_of_sections as u64));
    push_number(&mut rows, "time/date stamp", c.time_date_stamp as u64, 8, 0xffff_ffff);
    push_number(
        &mut rows,
        "pointer to symbol table",
        c.pointer_to_symbol_table as u64,
        8,
        0xffff_ffff,
    );
    push_number(&mut rows, "number of symbols", c.number_of_symbols as u64, 8, 0xffff_ffff);
    push_text(&mut rows, "size of optional header", dec_string(c.size_of_optional_header as u64));
    push_number(&mut rows, "characteristics", c.characteristics as u64, 4, 0xffff);
    assert(views(rows@) =~= coff_rows(*c));
    rows
}

/// The largest value of row `i`, or nothing where it cannot be edited.
pub open spec fn row_max(rows: Seq<FieldModel>, i: int) -> Option<u64> {
    match rows[i].cell {
        CellModel::Number { value: _, digits: _, max } => Some(max),
        CellModel::Text(_) => None,
    }
}

/// A COFF header with row `i` set.
pub open spec fn with_coff_row(c: CoffHeader, i: int, v: u64) -> CoffHeader {
    if i == 1 {
        CoffHeader { time_date_stamp: v as u32, ..c }
    } else if i == 2 {
        CoffHeader { pointer_to_symbol_table: v as u32, ..c }
    } else if i == 3 {
        CoffHeader { number_of_symbols: v as u32, ..c }
    } else if i == 5 {
        CoffHeader { characteristics: v as u16, ..c }
    } else {
        c
    }
}

/// Set row `i` of the COFF header page; a row that cannot be edited stays.
pub fn set_coff_field(c: &mut CoffHeader, i: usize, v: u64)
    requires
        i < coff_rows(*old(c)).len(),
        row_max(coff_rows(*old(c)), i as int) matches Some(max) ==> v <= max,
    ensures
        *final(c) == with_coff_row(*old(c), i as int, v),
{
    if i == 1 {
        c.time_date_stamp = v as u32;
    } else if i == 2 {
        c.pointer_to_symbol_table = v as u32;
    } else if i == 3 {
        c.number_of_symbols = v as u32;
    } else if i == 5 {
        c.characteristics = v as u16;
    }
}

/// What editing a row does to a page: the row takes the value.
pub open spec fn edited_rows(rows: Seq<FieldModel>, i: int, v: u64) -> Seq<FieldModel> {
    match rows[i].cell {
        CellModel::Number { value: _, digits, max } => rows.update(
            i,
            FieldModel {
                label: rows[i].label,
                cell: CellModel::Number { value: v, digits, max },
            },
        ),
        CellModel::Text(_) => rows,
    }
}

/// Editing a row of the COFF page changes that row and no other.
pub proof fn coff_edit_changes_one_row(c: CoffHeader, i: int, v: u64)
    requires
        0 <= i < coff_rows(c).len(),
        row_max(coff_rows(c), i) matches Some(max) ==> v <= max,
    ensures
        coff_rows(with_coff_row(c, i, v)) == edited_rows(coff_rows(c), i, v),
{
    assert(coff_rows(with_coff_row(c, i, v)) =~= edited_rows(coff_rows(c), i, v));
}

/// Editing a word of the DOS page changes that row and no other.
pub proof fn dos_edit_changes_one_row(d: DosModel, i: int, v: u16)
    requires
        d.words.len() == 30,
        0 <= i < 30,
    ensures
        dos_rows(DosModel { words: d.words.update(i, v), ..d }) == edited_rows(
            dos_rows(d),
            i,
            v as u64,
        ),
{
    assert(dos_rows(DosModel { words: d.words.update(i, v), ..d }) =~= edited_rows(
        dos_rows(d),
        i,
        v as u64,
    ));
}

/// The rows of the optional header page of a PE32 file.
#[verifier::opaque]
pub open spec fn optional32_rows(h: OptionalHeader32) -> Seq<FieldModel> {
    seq![
        text_row("magic"@, hex_text(h.magic as nat) + " (PE32)"@),
        number_row("linker version (major)"@, h.major_linker_version as u64, 2, 0xff),
        number_row("linker version (minor)"@, h.minor_linker_version as u64, 2, 0xff),
        number_row("size of code"@, h.size_of_code as u64, 8, 0xffff_ffff),
        number_row("size of initialized data"@, h.size_of_initialized_data as u64, 8, 0xffff_ffff),
        number_row(
            "size of uninitialized data"@,
            h.size_of_uninitialized_data as u64,
            8,
            0xffff_ffff,
        ),
        number_row("address of entry point"@, h.address_of_entry_point.0 as u64, 8, 0xffff_ffff),
        number_row("base of code"@, h.base_of_code.0 as u64, 8, 0xffff_ffff),
        number_row("base of data"@, h.base_of_data.0 as u64, 8, 0xffff_ffff),
        number_row("image base"@, h.image_base as u64, 8, 0xffff_ffff),
        number_row("section alignment"@, h.section_alignment as u64, 8, 0xffff_ffff),
        number_row("file alignment"@, h.file_alignment as u64, 8, 0xffff_ffff),
        number_row("os version (major)"@, h.major_operating_system_version as u64, 4, 0xffff),
        number_row("os version (minor)"@, h.minor_operating_system_version as u64, 4, 0xffff),
        number_row("image version (major)"@, h.major_image_version as u64, 4, 0xffff),
        number_row("image version (minor)"@, h.minor_image_version as u64, 4, 0xffff),
        number_row("subsystem version (major)"@, h.major_subsystem_version as u64, 4, 0xffff),
        number_row("subsystem version (minor)"@, h.minor_subsystem_version as u64, 4, 0xffff),
        number_row("win32 version value"@, h.win32_version_value as u64, 8, 0xffff_ffff),
        text_row("size of image"@, hex_text(h.size_of_image as nat)),
        text_row("size of headers"@, hex_text(h.size_of_headers as nat)),
        number_row("checksum"@, h.checksum as u64, 8, 0xffff_ffff),
        number_row("subsystem"@, h.subsystem as u64, 4, 0xffff),
        number_row("dll characteristics"@, h.dll_characteristics as u64, 4, 0xffff),
        number_row("size of stack reserve"@, h.size_of_stack_reserve as u64, 8, 0xffff_ffff),
        number_row("size of stack commit"@, h.size_of_stack_commit as u64, 8, 0xffff_ffff),
        number_row("size of heap reserve"@, h.size_of_heap_reserve as u64, 8, 0xffff_ffff),
        number_row("size of heap commit"@, h.size_of_heap_commit as u64, 8, 0xffff_ffff),
        number_row("loader flags"@, h.loader_flags as u64, 8, 0xffff_ffff),
        text_row("number of rva and sizes"@, dec_text(h.number_of_rva_and_sizes as nat)),
    ]
}

fn optional32_fields(h: &OptionalHeader32) -> (r: Vec<Field>)
    ensures
        views(r@) == optional32_rows(*h),
{
    let mut rows = new_rows();
    push_text(&mut rows, "magic", hex_with(h.magic as u64, " (PE32)"));
    push_number(&mut rows, "linker version (major)", h.major_linker_version as u64, 2, 0xff);
    push_number(&mut rows, "linker version (minor)", h.minor_linker_version as u64, 2, 0xff);
    push_number(&mut rows, "size of code", h.size_of_code as u64, 8, 0xffff_ffff);
    push_number(
        &mut rows,
        "size of initialized data",
        h.size_of_initialized_data as u64,
        8,
        0xffff_ffff,
    );
    push_number(
        &mut rows,
        "size of uninitialized data",
        h.size_of_uninitialized_data as u64,
        8,
        0xffff_ffff,
    );
    push_number(
        &mut rows,
        "address of entry point",
        h.address_of_entry_point.0 as u64,
        8,
        0xffff_ffff,
    );
    push_number(&mut rows, "base of code", h.base_of_code.0 as u64, 8, 0xffff_ffff);
    push_number(&mut rows, "base of data", h.base_of_data.0 as u64, 8, 0xffff_ffff);
    push_number(&mut rows, "image base", h.image_base as u64, 8, 0xffff_ffff);
    push_number(&mut rows, "section alignment", h.section_alignment as u64, 8, 0xffff_ffff);
    push_number(&mut rows, "file alignment", h.file_alignment as u64, 8, 0xffff_ffff);
    push_number(
        &mut rows,
        "os version (major)",
        h.major_operating_system_version as u64,
        4,
        0xffff,
    );
    push_number(
        &mut rows,
        "os version (minor)",
        h.minor_operating_system_version as u64,
        4,
        0xffff,
    );
    push_number(&mut rows, "image version (major)", h.major_image_version as u64, 4, 0xffff);
    push_number(&mut rows, "image version (minor)", h.minor_image_version as u64, 4, 0xffff);
    push_number(
        &mut rows,
        "subsystem version (major)",
        h.major_subsystem_version as u64,
        4,
        0xffff,
    );
    push_number(
        &mut rows,
        "subsystem version (minor)",
        h.minor_subsystem_version as u64,
        4,
        0xffff,
    );
    push_number(&mut rows, "win32 version value", h.win32_version_value as u64, 8, 0xffff_ffff);
    push_text(&mut rows, "size of image", hex_string(h.size_of_image as u64));
    push_text(&mut rows, "size of headers", hex_string(h.size_of_headers as u64));
    push_number(&mut rows, "checksum", h.checksum as u64, 8, 0xffff_ffff);
    push_number(&mut rows, "subsystem", h.subsystem as u64, 4, 0xffff);
    push_number(&mut rows, "dll characteristics", h.dll_characteristics as u64, 4, 0xffff);
    push_number(&mut rows, "size of stack reserve", h.size_of_stack_reserve as u64, 8, 0xffff_ffff);
    push_number(&mut rows, "size of stack commit", h.size_of_stack_commit as u64, 8, 0xffff_ffff);
    push_number(&mut rows, "size of heap reserve", h.size_of_heap_reserve as u64, 8, 0xffff_ffff);
    push_number(&mut rows, "size of heap commit", h.size_of_heap_commit as u64, 8, 0xffff_ffff);
    push_number(&mut rows, "loader flags", h.loader_flags as u64, 8, 0xffff_ffff);
    push_text(&mut rows, "number of rva and sizes", dec_string(h.number_of_rva_and_sizes as u64));
    proof {
        reveal(optional32_rows);
        assert(views(rows@) =~= optional32_rows(*h));
    }
    rows
}

/// A PE32 optional header with row `i` set.
pub open spec fn with_optional32_row(h: OptionalHeader32, i: int, v: u64) -> OptionalHeader32 {
    if i == 1 {
        OptionalHeader32 { major_linker_version: v as u8, ..h }
    } else if i == 2 {
        OptionalHeader32 { minor_linker_version: v as u8, ..h }
    } else if i == 3 {
        OptionalHeader32 { size_of_code: v as u32, ..h }
    } else if i == 4 {
        OptionalHeader32 { size_of_initialized_data: v as u32, ..h }
    } else if i == 5 {
        OptionalHeader32 { size_of_uninitialized_data: v as u32, ..h }
    } else if i == 6 {
        OptionalHeader32 { address_of_entry_point: Rva(v as u32), ..h }
    } else if i == 7 {
        OptionalHeader32 { base_of_code: Rva(v as u32), ..h }
    } else if i == 8 {
        OptionalHeader32 { base_of_data: Rva(v as u32), ..h }
    } else if i == 9 {
        OptionalHeader32 { image_base: v as u32, ..h }
    } else if i == 10 {
        OptionalHeader32 { section_alignment: v as u32, ..h }
    } else if i == 11 {
        OptionalHeader32 { file_alignment: v as u32, ..h }
    } else if i == 12 {
        OptionalHeader32 { major_operating_system_version: v as u16, ..h }
    } else if i == 13 {
        OptionalHeader32 { minor_operating_system_version: v as u16, ..h }
    } else if i == 14 {
        OptionalHeader32 { major_image_version: v as u16, ..h }
    } else if i == 15 {
        OptionalHeader32 { minor_image_version: v as u16, ..h }
    } else if i == 16 {
        OptionalHeader32 { major_subsystem_version: v as u16, ..h }
    } else if i == 17 {
        OptionalHeader32 { minor_subsystem_version: v as u16, ..h }
    } else if i == 18 {
        OptionalHeader32 { win32_version_value: v as u32, ..h }
    } else if i == 21 {
        OptionalHeader32 { checksum: v as u32, ..h }
    } else if i == 22 {
        OptionalHeader32 { subsystem: v as u16, ..h }
    } else if i == 23 {
        OptionalHeader32 { dll_characteristics: v as u16, ..h }
    } else if i == 24 {
        OptionalHeader32 { size_of_stack_reserve: v as u32, ..h }
    } else if i == 25 {
        OptionalHeader32 { size_of_stack_commit: v as u32, ..h }
    } else if i == 26 {
        OptionalHeader32 { size_of_heap_reserve: v as u32, ..h }
    } else if i == 27 {
        OptionalHeader32 { size_of_heap_commit: v as u32, ..h }
    } else if i == 28 {
        OptionalHeader32 { loader_flags: v as u32, ..h }
    } else {
        h
    }
}

fn set_optional32_field(h: &mut OptionalHeader32, i: usize, v: u64)
    requires
        i < 30,
        row_max(optional32_rows(*old(h)), i as int) matches Some(max) ==> v <= max,
    ensures
        *final(h) == with_optional32_row(*old(h), i as int, v),
{
    reveal(optional32_rows);
    if i == 1 {
        h.major_linker_version = v as u8;
    } else if i == 2 {
        h.minor_linker_version = v as u8;
    } else if i == 3 {
        h.size_of_code = v as u32;
    } else if i == 4 {
        h.size_of_initialized_data = v as u32;
    } else if i == 5 {
        h.size_of_uninitialized_data = v as u32;
    } else if i == 6 {
        h.address_of_entry_point = Rva(v as u32);
    } else if i == 7 {
        h.base_of_code = Rva(v as u32);
    } else if i == 8 {
        h.base_of_data = Rva(v as u32);
    } else if i == 9 {
        h.image_base = v as u32;
    } else if i == 10 {
        h.section_alignment = v as u32;
    } else if i == 11 {
        h.file_alignment = v as u32;
    } else if i == 12 {
        h.major_operating_system_version = v as u16;
    } else if i == 13 {
        h.minor_operating_system_version = v as u16;
    } else if i == 14 {
        h.major_image_version = v as u16;
    } else if i == 15 {
        h.minor_image_version = v as u16;
    } else if i == 16 {
        h.major_subsystem_version = v as u16;
    } else if i == 17 {
        h.minor_subsystem_version = v as u16;
    } else if i == 18 {
        h.win32_version_value = v as u32;
    } else if i == 21 {
        h.checksum = v as u32;
    } else if i == 22 {
        h.subsystem = v as u16;
    } else if i == 23 {
        h.dll_characteristics = v as u16;
    } else if i == 24 {
        h.size_of_stack_reserve = v as u32;
    } else if i == 25 {
        h.size_of_stack_commit = v as u32;
    } else if i == 26 {
        h.size_of_heap_reserve = v as u32;
    } else if i == 27 {
        h.size_of_heap_commit = v as u32;
    } else if i == 28 {
        h.loader_flags = v as u32;
    }
}

/// Editing a row of the PE32 optional header page changes that row and no
/// other.
pub proof fn optional32_edit_changes_one_row(h: OptionalHeader32, i: int, v: u64)
    requires
        0 <= i < optional32_rows(h).len(),
        row_max(optional32_rows(h), i) matches Some(max) ==> v <= max,
    ensures
        optional32_rows(with_optional32_row(h, i, v)) == edited_rows(
            optional32_rows(h),
            i,
            v,
        ),
{
    reveal(optional32_rows);
    let a = optional32_rows(with_optional32_row(h, i, v));
    let b = edited_rows(optional32_rows(h), i, v);
    assert(a.len() == b.len());
    assert forall|j: int| 0 <= j < a.len() implies a[j] == b[j] by {
        if j != i {
            assert(b[j] == optional32_rows(h)[j]);
        }
    }
    assert(a =~= b);
}

/// The rows of the optional header page of a PE32+ file.
#[verifier::opaque]
pub open spec fn optional64_rows(h: OptionalHeader64) -> Seq<FieldModel> {
    seq![
        text_row("magic"@, hex_text(h.magic as nat) + " (PE32+)"@),
        number_row("linker version (major)"@, h.major_linker_version as u64, 2, 0xff),
        number_row("linker version (minor)"@, h.minor_linker_version as u64, 2, 0xff),
        number_row("size of code"@, h.size_of_code as u64, 8, 0xffff_ffff),
        number_row("size of initialized data"@, h.size_of_initialized_data as u64, 8, 0xffff_ffff),
        number_row(
            "size of uninitialized data"@,
            h.size_of_uninitialized_data as u64,
            8,
            0xffff_ffff,
        ),
        number_row("address of entry point"@, h.address_of_entry_point.0 as u64, 8, 0xffff_ffff),
        number_row("base of code"@, h.base_of_code.0 as u64, 8, 0xffff_ffff),
        number_row("image base"@, h.image_base as u64, 16, 0xffff_ffff_ffff_ffff),
        number_row("section alignment"@, h.section_alignment as u64, 8, 0xffff_ffff),
        number_row("file alignment"@, h.file_alignment as u64, 8, 0xffff_ffff),
        number_row("os version (major)"@, h.major_operating_system_version as u64, 4, 0xffff),
        number_row("os version (minor)"@, h.minor_operating_system_version as u64, 4, 0xffff),
        number_row("image version (major)"@, h.major_image_version as u64, 4, 0xffff),
        number_row("image version (minor)"@, h.minor_image_version as u64, 4, 0xffff),
        number_row("subsystem version (major)"@, h.major_subsystem_version as u64, 4, 0xffff),
        number_row("subsystem version (minor)"@, h.minor_subsystem_version as u64, 4, 0xffff),
        number_row("win32 version value"@, h.win32_version_value as u64, 8, 0xffff_ffff),
        text_row("size of image"@, hex_text(h.size_of_image as nat)),
        text_row("size of headers"@, hex_text(h.size_of_headers as nat)),
        number_row("checksum"@, h.checksum as u64, 8, 0xffff_ffff),
        number_row("subsystem"@, h.subsystem as u64, 4, 0xffff),
        number_row("dll characteristics"@, h.dll_characteristics as u64, 4, 0xffff),
        number_row(
            "size of stack reserve"@,
            h.size_of_stack_reserve as u64,
            16,
            0xffff_ffff_ffff_ffff,
        ),
        number_row(
            "size of stack commit"@,
            h.size_of_stack_commit as u64,
            16,
            0xffff_ffff_ffff_ffff,
        ),
        number_row(
            "size of heap reserve"@,
            h.size_of_heap_reserve as u64,
            16,
            0xffff_ffff_ffff_ffff,
        ),
        number_row("size of heap commit"@, h.size_of_heap_commit as u64, 16, 0xffff_ffff_ffff_ffff),
        number_row("loader flags"@, h.loader_flags as u64, 8, 0xffff_ffff),
        text_row("number of rva and sizes"@, dec_text(h.number_of_rva_and_sizes as nat)),
    ]
}

fn optional64_fields(h: &OptionalHeader64) -> (r: Vec<Field>)
    ensures
        views(r@) == optional64_rows(*h),
{
    let mut rows = new_rows();
    push_text(&mut rows, "magic", hex_with(h.magic as u64, " (PE32+)"));
    push_number(&mut rows, "linker version (major)", h.major_linker_version as u64, 2, 0xff);
    push_number(&mut rows, "linker version (minor)", h.minor_linker_version as u64, 2, 0xff);
    push_number(&mut rows, "size of code", h.size_of_code as u64, 8, 0xffff_ffff);
    push_number(
        &mut rows,
        "size of initialized data",
        h.size_of_initialized_data as u64,
        8,
        0xffff_ffff,
    );
    push_number(
        &mut rows,
        "size of uninitialized data",
        h.size_of_uninitialized_data as u64,
        8,
        0xffff_ffff,
    );
    push_number(
        &mut rows,
        "address of entry point",
        h.address_of_entry_point.0 as u64,
        8,
        0xffff_ffff,
    );
    push_number(&mut rows, "base of code", h.base_of_code.0 as u64, 8, 0xffff_ffff);
    push_number(&mut rows, "image base", h.image_base as u64, 16, 0xffff_ffff_ffff_ffff);
    push_number(&mut rows, "section alignment", h.section_alignment as u64, 8, 0xffff_ffff);
    push_number(&mut rows, "file alignment", h.file_alignment as u64, 8, 0xffff_ffff);
    push_number(
        &mut rows,
        "os version (major)",
        h.major_operating_system_version as u64,
        4,
        0xffff,
    );
    push_number(
        &mut rows,
        "os version (minor)",
        h.minor_operating_system_version as u64,
        4,
        0xffff,
    );
    push_number(&mut rows, "image version (major)", h.major_image_version as u64, 4, 0xffff);
    push_number(&mut rows, "image version (minor)", h.minor_image_version as u64, 4, 0xffff);
    push_number(
        &mut rows,
        "subsystem version (major)",
        h.major_subsystem_version as u64,
        4,
        0xffff,
    );
    push_number(
        &mut rows,
        "subsystem version (minor)",
        h.minor_subsystem_version as u64,
        4,
        0xffff,
    );
    push_number(&mut rows, "win32 version value", h.win32_version_value as u64, 8, 0xffff_ffff);
    push_text(&mut rows, "size of image", hex_string(h.size_of_image as u64));
    push_text(&mut rows, "size of headers", hex_string(h.size_of_headers as u64));
    push_number(&mut rows, "checksum", h.checksum as u64, 8, 0xffff_ffff);
    push_number(&mut rows, "subsystem", h.subsystem as u64, 4, 0xffff);
    push_number(&mut rows, "dll characteristics", h.dll_characteristics as u64, 4, 0xffff);
    push_number(
        &mut rows,
        "size of stack reserve",
        h.size_of_stack_reserve as u64,
        16,
        0xffff_ffff_ffff_ffff,
    );
    push_number(
        &mut rows,
        "size of stack commit",
        h.size_of_stack_commit as u64,
        16,
        0xffff_ffff_ffff_ffff,
    );
    push_number(
        &mut rows,
        "size of heap reserve",
        h.size_of_heap_reserve as u64,
        16,
        0xffff_ffff_ffff_ffff,
    );
    push_number(
        &mut rows,
        "size of heap commit",
        h.size_of_heap_commit as u64,
        16,
        0xffff_ffff_ffff_ffff,
    );
    push_number(&mut rows, "loader flags", h.loader_flags as u64, 8, 0xffff_ffff);
    push_text(&mut rows, "number of rva and sizes", dec_string(h.number_of_rva_and_sizes as u64));
    proof {
        reveal(optional64_rows);
        assert(views(rows@) =~= optional64_rows(*h));
    }
    rows
}

/// A PE32+ optional header with row `i` set.
pub open spec fn with_optional64_row(h: OptionalHeader64, i: int, v: u64) -> OptionalHeader64 {
    if i == 1 {
        OptionalHeader64 { major_linker_version: v as u8, ..h }
    } else if i == 2 {
        OptionalHeader64 { minor_linker_version: v as u8, ..h }
    } else if i == 3 {
        OptionalHeader64 { size_of_code: v as u32, ..h }
    } else if i == 4 {
        OptionalHeader64 { size_of_initialized_data: v as u32, ..h }
    } else if i == 5 {
        OptionalHeader64 { size_of_uninitialized_data: v as u32, ..h }
    } else if i == 6 {
        OptionalHeader64 { address_of_entry_point: Rva(v as u32), ..h }
    } else if i == 7 {
        OptionalHeader64 { base_of_code: Rva(v as u32), ..h }
    } else if i == 8 {
        OptionalHeader64 { image_base: v, ..h }
    } else if i == 9 {
        OptionalHeader64 { section_alignment: v as u32, ..h }
    } else if i == 10 {
        OptionalHeader64 { file_alignment: v as u32, ..h }
    } else if i == 11 {
        OptionalHeader64 { major_operating_system_version: v as u16, ..h }
    } else if i == 12 {
        OptionalHeader64 { minor_operating_system_version: v as u16, ..h }
    } else if i == 13 {
        OptionalHeader64 { major_image_version: v as u16, ..h }
    } else if i == 14 {
        OptionalHeader64 { minor_image_version: v as u16, ..h }
    } else if i == 15 {
        OptionalHeader64 { major_subsystem_version: v as u16, ..h }
    } else if i == 16 {
        OptionalHeader64 { minor_subsystem_version: v as u16, ..h }
    } else if i == 17 {
        OptionalHeader64 { win32_version_value: v as u32, ..h }
    } else if i == 20 {
        OptionalHeader64 { checksum: v as u32, ..h }
    } else if i == 21 {
        OptionalHeader64 { subsystem: v as u16, ..h }
    } else if i == 22 {
        OptionalHeader64 { dll_characteristics: v as u16, ..h }
    } else if i == 23 {
        OptionalHeader64 { size_of_stack_reserve: v, ..h }
    } else if i == 24 {
        OptionalHeader64 { size_of_stack_commit: v, ..h }
    } else if i == 25 {
        OptionalHeader64 { size_of_heap_reserve: v, ..h }
    } else if i == 26 {
        OptionalHeader64 { size_of_heap_commit: v, ..h }
    } else if i == 27 {
        OptionalHeader64 { loader_flags: v as u32, ..h }
    } else {
        h
    }
}

fn set_optional64_field(h: &mut OptionalHeader64, i: usize, v: u64)
    requires
        i < 29,
        row_max(optional64_rows(*old(h)), i as int) matches Some(max) ==> v <= max,
    ensures
        *final(h) == with_optional64_row(*old(h), i as int, v),
{
    reveal(optional64_rows);
    if i == 1 {
        h.major_linker_version = v as u8;
    } else if i == 2 {
        h.minor_linker_version = v as u8;
    } else if i == 3 {
        h.size_of_code = v as u32;
    } else if i == 4 {
        h.size_of_initialized_data = v as u32;
    } else if i == 5 {
        h.size_of_uninitialized_data = v as u32;
    } else if i == 6 {
        h.address_of_entry_point = Rva(v as u32);
    } else if i == 7 {
        h.base_of_code = Rva(v as u32);
    } else if i == 8 {
        h.image_base = v;
    } else if i == 9 {
        h.section_alignment = v as u32;
    } else if i == 10 {
        h.file_alignment = v as u32;
    } else if i == 11 {
        h.major_operating_system_version = v as u16;
    } else if i == 12 {
        h.minor_operating_system_version = v as u16;
    } else if i == 13 {
        h.major_image_version = v as u16;
    } else if i == 14 {
        h.minor_image_version = v as u16;
    } else if i == 15 {
        h.major_subsystem_version = v as u16;
    } else if i == 16 {
        h.minor_subsystem_version = v as u16;
    } else if i == 17 {
        h.win32_version_value = v as u32;
    } else if i == 20 {
        h.checksum = v as u32;
    } else if i == 21 {
        h.subsystem = v as u16;
    } else if i == 22 {
        h.dll_characteristics = v as u16;
    } else if i == 23 {
        h.size_of_stack_reserve = v;
    } else if i == 24 {
        h.size_of_stack_commit = v;
    } else if i == 25 {
        h.size_of_heap_reserve = v;
    } else if i == 26 {
        h.size_of_heap_commit = v;
    } else if i == 27 {
        h.loader_flags = v as u32;
    }
}

/// Editing a row of the PE32+ optional header page changes that row and no
/// other.
pub proof fn optional64_edit_changes_one_row(h: OptionalHeader64, i: int, v: u64)
    requires
        0 <= i < optional64_rows(h).len(),
        row_max(optional64_rows(h), i) matches Some(max) ==> v <= max,
    ensures
        optional64_rows(with_optional64_row(h, i, v)) == edited_rows(
            optional64_rows(h),
            i,
            v,
        ),
{
    reveal(optional64_rows);
    let a = optional64_rows(with_optional64_row(h, i, v));
    let b = edited_rows(optional64_rows(h), i, v);
    assert(a.len() == b.len());
    assert forall|j: int| 0 <= j < a.len() implies a[j] == b[j] by {
        if j != i {
            assert(b[j] == optional64_rows(h)[j]);
        }
    }
    assert(a =~= b);
}

/// The rows of the optional header page.
pub open spec fn optional_rows(h: OptionalHeader) -> Seq<FieldModel> {
    match h {
        OptionalHeader::Bit32(h) => optional32_rows(h),
        OptionalHeader::Bit64(h) => optional64_rows(h),
    }
}

/// An optional header with row `i` set.
pub open spec fn with_optional_row(h: OptionalHeader, i: int, v: u64) -> OptionalHeader {
    match h {
        OptionalHeader::Bit32(h) => OptionalHeader::Bit32(with_optional32_row(h, i, v)),
        OptionalHeader::Bit64(h) => OptionalHeader::Bit64(with_optional64_row(h, i, v)),
    }
}

/// The rows of the optional header page.
pub fn optional_fields(h: &OptionalHeader) -> (r: Vec<Field>)
    ensures
        views(r@) == optional_rows(*h),
{
    match h {
        OptionalHeader::Bit32(h) => optional32_fields(h),
        OptionalHeader::Bit64(h) => optional64_fields(h),
    }
}

/// Set row `i` of the optional header page; a row that cannot be edited stays.
pub fn set_optional_field(h: &mut OptionalHeader, i: usize, v: u64)
    requires
        i < optional_rows(*old(h)).len(),
        row_max(optional_rows(*old(h)), i as int) matches Some(max) ==> v <= max,
    ensures
        *final(h) == with_optional_row(*old(h), i as int, v),
{
    reveal(optional32_rows);
    reveal(optional64_rows);
    match h {
        OptionalHeader::Bit32(h) => set_optional32_field(h, i, v),
        OptionalHeader::Bit64(h) => set_optional64_field(h, i, v),
    }
}

/// The rows of the TLS page.
pub open spec fn tls_rows(t: TlsDirectory) -> Seq<FieldModel> {
    seq![
        text_row("start"@, hex_text(t.start_address_of_raw_data as nat)),
        text_row("end"@, hex_text(t.end_address_of_raw_data as nat)),
        text_row("index"@, hex_text(t.address_of_index as nat)),
        text_row("callbacks"@, hex_text(t.address_of_callbacks as nat)),
        text_row("zero fill"@, hex_text(t.size_of_zero_fill as nat)),
    ]
}

/// The rows of the TLS page.
pub fn tls_fields(t: &TlsDirectory) -> (r: Vec<Field>)
    ensures
        views(r@) == tls_rows(*t),
{
    let mut rows = new_rows();
    push_text(&mut rows, "start", hex_string(t.start_address_of_raw_data));
    push_text(&mut rows, "end", hex_string(t.end_address_of_raw_data));
    push_text(&mut rows, "index", hex_string(t.address_of_index));
    push_text(&mut rows, "callbacks", hex_string(t.address_of_callbacks));
    push_text(&mut rows, "zero fill", hex_string(t.size_of_zero_fill as u64));
    assert(views(rows@) =~= tls_rows(*t));
    rows
}

/// The rows of the load configuration page.
pub open spec fn load_config_rows(l: LoadConfigDirectory) -> Seq<FieldModel> {
    seq![
        text_row("size"@, hex_text(l.size as nat)),
        text_row("cookie"@, hex_text(l.security_cookie as nat)),
        text_row("guard flags"@, hex_text(l.guard_flags as nat)),
        text_row(
            "cf table"@,
            hex_text(l.guard_cf_function_table as nat) + " ("@ + dec_text(
                l.guard_cf_function_count as nat,
            ) + " funcs)"@,
        ),
        text_row("xfg check"@, hex_text(l.guard_xfg_check_function_pointer as nat)),
    ]
}

/// The rows of the load configuration page.
pub fn load_config_fields(l: &LoadConfigDirectory) -> (r: Vec<Field>)
    ensures
        views(r@) == load_config_rows(*l),
{
    let mut rows = new_rows();
    push_text(&mut rows, "size", hex_string(l.size as u64));
    push_text(&mut rows, "cookie", hex_string(l.security_cookie));
    push_text(&mut rows, "guard flags", hex_string(l.guard_flags as u64));
    let mut table = hex_with(l.guard_cf_function_table, " (");
    table.append(dec_string(l.guard_cf_function_count).as_str());
    table.append(" funcs)");
    push_text(&mut rows, "cf table", table);
    push_text(&mut rows, "xfg check", hex_string(l.guard_xfg_check_function_pointer));
    assert(views(rows@) =~= load_config_rows(*l));
    rows
}

} // verus!

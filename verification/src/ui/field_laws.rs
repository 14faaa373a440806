//! The rows of the header views show the fields in the order of the file.

use crate::bytes::decode_fields;
use crate::domain::dos::DosModel;
use crate::io::pe::decode::{coff_of, optional32_of, optional64_of};
use crate::io::pe::laws::format::{
    lemma_coff_fields, lemma_optional32_fields, lemma_optional64_fields, u16_at, u32_at, u64_at,
};
use crate::io::pe::layout::{coff_fields, optional32_fields, optional64_fields};
use crate::ui::fields::{
    coff_rows, dos_labels, dos_rows, optional32_rows, optional64_rows, CellModel, FieldModel,
};
use vstd::prelude::*;
use vstd::string::*;

verus! {

/// Whether a row has the label and shows the number.
pub open spec fn shows(row: FieldModel, label: Seq<char>, v: u64) -> bool {
    row.label == label && (row.cell matches CellModel::Number { value, digits: _, max: _ } && value
        == v)
}

/// The rows of a 32-bit optional header show its fields in the order of the file.
pub proof fn optional32_rows_follow_the_file(b: Seq<u8>, o: int)
    requires
        0 <= o,
        o + 96 <= b.len(),
    ensures
        ({
            let r = b.subrange(o, o + 96);
            let rows = optional32_rows(optional32_of(decode_fields(optional32_fields(), r)));
            &&& rows.len() == 30
            &&& rows[0].label == "magic"@ && rows[0].cell is Text
            &&& shows(rows[1], "linker version (major)"@, b[o + 2] as u64)
            &&& shows(rows[2], "linker version (minor)"@, b[o + 3] as u64)
            &&& shows(rows[3], "size of code"@, u32_at(b, o + 4) as u64)
            &&& shows(rows[4], "size of initialized data"@, u32_at(b, o + 8) as u64)
            &&& shows(rows[5], "size of uninitialized data"@, u32_at(b, o + 12) as u64)
            &&& shows(rows[6], "address of entry point"@, u32_at(b, o + 16) as u64)
            &&& shows(rows[7], "base of code"@, u32_at(b, o + 20) as u64)
            &&& shows(rows[8], "base of data"@, u32_at(b, o + 24) as u64)
            &&& shows(rows[9], "image base"@, u32_at(b, o + 28) as u64)
            &&& shows(rows[10], "section alignment"@, u32_at(b, o + 32) as u64)
            &&& shows(rows[11], "file alignment"@, u32_at(b, o + 36) as u64)
            &&& shows(rows[12], "os version (major)"@, u16_at(b, o + 40) as u64)
            &&& shows(rows[13], "os version (minor)"@, u16_at(b, o + 42) as u64)
            &&& shows(rows[14], "image version (major)"@, u16_at(b, o + 44) as u64)
            &&& shows(rows[15], "image version (minor)"@, u16_at(b, o + 46) as u64)
            &&& shows(rows[16], "subsystem version (major)"@, u16_at(b, o + 48) as u64)
            &&& shows(rows[17], "subsystem version (minor)"@, u16_at(b, o + 50) as u64)
            &&& shows(rows[18], "win32 version value"@, u32_at(b, o + 52) as u64)
            &&& rows[19].label == "size of image"@ && rows[19].cell is Text
            &&& rows[20].label == "size of headers"@ && rows[20].cell is Text
            &&& shows(rows[21], "checksum"@, u32_at(b, o + 64) as u64)
            &&& shows(rows[22], "subsystem"@, u16_at(b, o + 68) as u64)
            &&& shows(rows[23], "dll characteristics"@, u16_at(b, o + 70) as u64)
            &&& shows(rows[24], "size of stack reserve"@, u32_at(b, o + 72) as u64)
            &&& shows(rows[25], "size of stack commit"@, u32_at(b, o + 76) as u64)
            &&& shows(rows[26], "size of heap reserve"@, u32_at(b, o + 80) as u64)
            &&& shows(rows[27], "size of heap commit"@, u32_at(b, o + 84) as u64)
            &&& shows(rows[28], "loader flags"@, u32_at(b, o + 88) as u64)
            &&& rows[29].label == "number of rva and sizes"@ && rows[29].cell is Text
        }),
{
    lemma_optional32_fields(b, o);
    reveal(optional32_rows);
}

/// The rows of a 64-bit optional header show its fields in the order of the file.
pub proof fn optional64_rows_follow_the_file(b: Seq<u8>, o: int)
    requires
        0 <= o,
        o + 112 <= b.len(),
    ensures
        ({
            let r = b.subrange(o, o + 112);
            let rows = optional64_rows(optional64_of(decode_fields(optional64_fields(), r)));
            &&& rows.len() == 29
            &&& rows[0].label == "magic"@ && rows[0].cell is Text
            &&& shows(rows[1], "linker version (major)"@, b[o + 2] as u64)
            &&& shows(rows[2], "linker version (minor)"@, b[o + 3] as u64)
            &&& shows(rows[3], "size of code"@, u32_at(b, o + 4) as u64)
            &&& shows(rows[4], "size of initialized data"@, u32_at(b, o + 8) as u64)
            &&& shows(rows[5], "size of uninitialized data"@, u32_at(b, o + 12) as u64)
            &&& shows(rows[6], "address of entry point"@, u32_at(b, o + 16) as u64)
            &&& shows(rows[7], "base of code"@, u32_at(b, o + 20) as u64)
            &&& shows(rows[8], "image base"@, u64_at(b, o + 24))
            &&& shows(rows[9], "section alignment"@, u32_at(b, o + 32) as u64)
            &&& shows(rows[10], "file alignment"@, u32_at(b, o + 36) as u64)
            &&& shows(rows[11], "os version (major)"@, u16_at(b, o + 40) as u64)
            &&& shows(rows[12], "os version (minor)"@, u16_at(b, o + 42) as u64)
            &&& shows(rows[13], "image version (major)"@, u16_at(b, o + 44) as u64)
            &&& shows(rows[14], "image version (minor)"@, u16_at(b, o + 46) as u64)
            &&& shows(rows[15], "subsystem version (major)"@, u16_at(b, o + 48) as u64)
            &&& shows(rows[16], "subsystem version (minor)"@, u16_at(b, o + 50) as u64)
            &&& shows(rows[17], "win32 version value"@, u32_at(b, o + 52) as u64)
            &&& rows[18].label == "size of image"@ && rows[18].cell is Text
            &&& rows[19].label == "size of headers"@ && rows[19].cell is Text
            &&& shows(rows[20], "checksum"@, u32_at(b, o + 64) as u64)
            &&& shows(rows[21], "subsystem"@, u16_at(b, o + 68) as u64)
            &&& shows(rows[22], "dll characteristics"@, u16_at(b, o + 70) as u64)
            &&& shows(rows[23], "size of stack reserve"@, u64_at(b, o + 72))
            &&& shows(rows[24], "size of stack commit"@, u64_at(b, o + 80))
            &&& shows(rows[25], "size of heap reserve"@, u64_at(b, o + 88))
            &&& shows(rows[26], "size of heap commit"@, u64_at(b, o + 96))
            &&& shows(rows[27], "loader flags"@, u32_at(b, o + 104) as u64)
            &&& rows[28].label == "number of rva and sizes"@ && rows[28].cell is Text
        }),
{
    lemma_optional64_fields(b, o);
    reveal(optional64_rows);
}

/// The rows of a file header show its fields in the order of the file, behind the
/// machine.
pub proof fn coff_rows_follow_the_file(b: Seq<u8>, o: int)
    requires
        0 <= o,
        o + 20 <= b.len(),
    ensures
        ({
            let r = b.subrange(o, o + 20);
            let rows = coff_rows(coff_of(decode_fields(coff_fields(), r)));
            &&& rows.len() == 6
            &&& rows[0].label == "number of sections"@ && rows[0].cell is Text
            &&& shows(rows[1], "time/date stamp"@, u32_at(b, o + 4) as u64)
            &&& shows(rows[2], "pointer to symbol table"@, u32_at(b, o + 8) as u64)
            &&& shows(rows[3], "number of symbols"@, u32_at(b, o + 12) as u64)
            &&& rows[4].label == "size of optional header"@ && rows[4].cell is Text
            &&& shows(rows[5], "characteristics"@, u16_at(b, o + 18) as u64)
        }),
{
    lemma_coff_fields(b, o);
}

/// The rows of a DOS header show its words in the order of the file.
pub proof fn dos_rows_follow_the_file(d: DosModel, i: int)
    requires
        0 <= i < 30,
    ensures
        dos_rows(d).len() == 32,
        shows(dos_rows(d)[i], dos_labels()[i], d.words[i] as u64),
{
}

} // verus!

//! What is read back from the headers and sections of a written file.

use crate::bytes::{
    decode_fields, encode_fields, fields_fit, join, layout_ok, layout_size, le_bytes, le_value,
    lemma_encode_len, lemma_fields_roundtrip, lemma_join_part, lemma_le_roundtrip,
    lemma_pow256_values, low, pow256, zeros,
};
use crate::domain::coff::CoffHeader;
use crate::domain::data_directory::DataDirectory;
use crate::domain::document::{at_least_one, image_end, DocModel};
use crate::domain::dos::{DosModel, DOS_MAGIC};
use crate::domain::optional::{
    header_arch, header_file_alignment, header_number_of_rva_and_sizes, header_section_alignment,
    OptionalHeader, OptionalHeader32, OptionalHeader64, PE32_MAGIC, PE32_PLUS_MAGIC,
};
use crate::domain::section::{SectionHeader, SectionModel};
use crate::domain::types::{
    align_up_is_least_multiple, aligned, machine_code, machine_of, RawOffset,
};
use crate::io::pe::decode::{
    coff_of, counted_directories, directories_of, dos_of, loaded, optional32_of, optional64_of,
    optional_at, raw_data, record_at, section_header_of, section_of, sections_at, skeleton,
};
use crate::io::pe::layout::{
    coff_fields, directories_fields, dos_fields, lemma_coff_size, lemma_directories_size,
    lemma_dos_size, lemma_optional32_size, lemma_optional64_size, lemma_section_size,
    optional32_fields, optional64_fields, section_fields,
};
use crate::io::pe::writer::{
    coff_values, directory_values, dos_values, file_bytes, head_end, header_bytes, headers_size,
    optional32_values, optional64_values, optional_bytes, optional_len, raw_offset, raw_size,
    resized, section_data_parts, section_file_bytes, section_header_parts, section_values, FilePlan,
};
use vstd::prelude::*;

verus! {

pub proof fn lemma_low(n: nat)
    ensures
        n <= u32::MAX ==> low(n) == n,
        low(n) <= n,
{
    reveal(low);
}

/// A part of a part is a part of the whole.
pub proof fn lemma_nested(x: Seq<u8>, a: int, y: Seq<u8>, b: int, z: Seq<u8>)
    requires
        0 <= a,
        0 <= b,
        a + y.len() <= x.len(),
        b + z.len() <= y.len(),
        x.subrange(a, a + y.len()) == y,
        y.subrange(b, b + z.len()) == z,
    ensures
        x.subrange(a + b, a + b + z.len()) == z,
{
    assert(x.subrange(a + b, a + b + z.len()) =~= x.subrange(a, a + y.len()).subrange(
        b,
        b + z.len(),
    ));
}

/// Decoding a stretch of bytes that holds an encoded record gives its values.
pub proof fn lemma_record_at(bytes: Seq<u8>, off: nat, ws: Seq<u8>, vs: Seq<u64>)
    requires
        layout_ok(ws),
        fields_fit(ws, vs),
        off + layout_size(ws) <= bytes.len(),
        bytes.subrange(off as int, (off + layout_size(ws)) as int) == encode_fields(ws, vs),
    ensures
        record_at(bytes, off, ws) is Ok,
        record_at(bytes, off, ws)->Ok_0 == vs,
{
    lemma_fields_roundtrip(ws, vs);
}

/// Whether a document can be written under `p` without any offset or size
/// leaving its field, and reads as a PE file: the DOS and optional header
/// magics are those of the format.
pub open spec fn file_fits(d: DocModel, p: FilePlan) -> bool {
    let fa = at_least_one(header_file_alignment(d.optional));
    let n = p.sections.len();
    &&& d.dos.words.len() == 30
    &&& d.dos.words[0] == DOS_MAGIC
    &&& match d.optional {
        OptionalHeader::Bit32(h) => h.magic == PE32_MAGIC,
        OptionalHeader::Bit64(h) => h.magic == PE32_PLUS_MAGIC,
    }
    &&& n <= u16::MAX
    &&& p.dirs.len() >= 16
    &&& 64 + d.dos.stub.len() < 0x8000_0000
    &&& head_end(d.dos.stub.len(), d.optional, n) + fa - 1 <= u32::MAX
    &&& forall|i: int| 0 <= i < n ==> (#[trigger] p.sections[i]).data.len() + fa - 1 <= u32::MAX
    &&& raw_offset(d, p.sections, n as int) <= u32::MAX
}

/// The DOS header that is read back.
pub open spec fn reread_dos(d: DocModel) -> DosModel {
    DosModel { e_lfanew: (64 + d.dos.stub.len()) as u32, ..d.dos }
}

/// The file header that is read back.
pub open spec fn reread_coff(d: DocModel, p: FilePlan) -> CoffHeader {
    CoffHeader {
        machine: machine_of(machine_code(d.coff.machine)),
        number_of_sections: p.sections.len() as u16,
        size_of_optional_header: optional_len(d.optional) as u16,
        ..d.coff
    }
}

/// The optional header that is read back: the computed sizes, and sixteen data
/// directories.
pub open spec fn reread_optional(d: DocModel, p: FilePlan) -> OptionalHeader {
    let size_of_headers = headers_size(d, p.sections.len());
    let size_of_image = aligned(
        image_end(p.sections),
        at_least_one(header_section_alignment(d.optional)),
    );
    match d.optional {
        OptionalHeader::Bit32(h) => OptionalHeader::Bit32(
            OptionalHeader32 { size_of_headers, size_of_image, number_of_rva_and_sizes: 16, ..h },
        ),
        OptionalHeader::Bit64(h) => OptionalHeader::Bit64(
            OptionalHeader64 { size_of_headers, size_of_image, number_of_rva_and_sizes: 16, ..h },
        ),
    }
}

/// The section that is read back: its place in the file in the header, its
/// bytes as they are loaded from there.
pub open spec fn reread_section(d: DocModel, sections: Seq<SectionModel>, i: int) -> SectionModel {
    SectionModel {
        header: SectionHeader {
            size_of_raw_data: raw_size(d, sections[i]),
            pointer_to_raw_data: RawOffset(raw_offset(d, sections, i) as u32),
            ..sections[i].header
        },
        data: loaded(section_file_bytes(d, sections[i]), sections[i].header.virtual_size),
    }
}

pub open spec fn reread_sections(d: DocModel, sections: Seq<SectionModel>) -> Seq<SectionModel> {
    Seq::new(sections.len(), |i: int| reread_section(d, sections, i))
}

/// The document that is read back from a written file, before its directories
/// are read.
pub open spec fn reread(d: DocModel, p: FilePlan) -> DocModel {
    DocModel {
        arch: header_arch(d.optional),
        dos: reread_dos(d),
        coff: reread_coff(d, p),
        optional: reread_optional(d, p),
        sections: reread_sections(d, p.sections),
        data_directories: p.dirs.take(16),
        imports: Seq::empty(),
        exports: None,
        resources: None,
        relocations: None,
        tls: None,
        load_config: None,
    }
}

pub proof fn lemma_raw_size(d: DocModel, p: FilePlan, i: int)
    requires
        file_fits(d, p),
        0 <= i < p.sections.len(),
    ensures
        raw_size(d, p.sections[i]) >= p.sections[i].data.len(),
        section_file_bytes(d, p.sections[i]).len() == raw_size(d, p.sections[i]),
{
    let s = p.sections[i];
    let fa = at_least_one(header_file_alignment(d.optional));
    assert(p.sections[i].data.len() + fa - 1 <= u32::MAX);
    lemma_low(s.data.len());
    align_up_is_least_multiple(low(s.data.len()), fa);
}

pub proof fn lemma_raw_offset_mono(d: DocModel, sections: Seq<SectionModel>, i: int, j: int)
    requires
        0 <= i <= j,
    ensures
        raw_offset(d, sections, i) <= raw_offset(d, sections, j),
    decreases j - i,
{
    if i < j {
        lemma_raw_offset_mono(d, sections, i, j - 1);
    }
}

/// The bytes of section `i` stand in the data area where its offset says.
pub proof fn lemma_data_offset(d: DocModel, p: FilePlan, i: int)
    requires
        file_fits(d, p),
        0 <= i <= p.sections.len(),
    ensures
        join(section_data_parts(d, p.sections).take(i)).len() + headers_size(
            d,
            p.sections.len(),
        ) == raw_offset(d, p.sections, i),
    decreases i,
{
    let parts = section_data_parts(d, p.sections);
    if i > 0 {
        lemma_data_offset(d, p, i - 1);
        lemma_raw_size(d, p, i - 1);
        assert(parts.take(i).drop_last() =~= parts.take(i - 1));
    } else {
        assert(parts.take(0) =~= Seq::empty());
    }
}

pub proof fn lemma_header_parts_len(d: DocModel, sections: Seq<SectionModel>, i: int)
    requires
        0 <= i <= sections.len(),
    ensures
        join(section_header_parts(d, sections).take(i)).len() == 40 * i,
    decreases i,
{
    let parts = section_header_parts(d, sections);
    if i > 0 {
        lemma_header_parts_len(d, sections, i - 1);
        lemma_section_size();
        lemma_encode_len(
            section_fields(),
            section_values(
                sections[i - 1].header,
                raw_size(d, sections[i - 1]),
                low(raw_offset(d, sections, i - 1)),
            ),
        );
        assert(parts.take(i).drop_last() =~= parts.take(i - 1));
    } else {
        assert(parts.take(0) =~= Seq::empty());
    }
}

/// Where the parts of the headers stand in a written file.
pub proof fn lemma_header_slices(d: DocModel, p: FilePlan)
    requires
        file_fits(d, p),
    ensures
        ({
            let b = file_bytes(d, p);
            let pe = 64 + d.dos.stub.len() as int;
            let ol = optional_len(d.optional);
            let fixed = (ol - 128) as int;
            let oh = optional_bytes(
                d.optional,
                headers_size(d, p.sections.len()),
                aligned(image_end(p.sections), at_least_one(header_section_alignment(d.optional))),
            );
            let table = join(section_header_parts(d, p.sections));
            &&& b.len() == raw_offset(d, p.sections, p.sections.len() as int)
            &&& headers_size(d, p.sections.len()) <= b.len()
            &&& pe + 24 + ol + 40 * p.sections.len() <= headers_size(d, p.sections.len())
            &&& b.subrange(0, 64) == encode_fields(dos_fields(), dos_values(d.dos))
            &&& b.subrange(64, pe) == d.dos.stub
            &&& b.subrange(pe, pe + 4) == seq![80u8, 69u8, 0u8, 0u8]
            &&& b.subrange(pe + 4, pe + 24) == encode_fields(
                coff_fields(),
                coff_values(d.coff, p.sections.len(), ol),
            )
            &&& oh.len() == fixed
            &&& b.subrange(pe + 24, pe + 24 + fixed) == oh
            &&& b.subrange(pe + 24 + fixed, (pe + 24 + ol) as int) == encode_fields(
                directories_fields(),
                directory_values(p.dirs),
            )
            &&& table.len() == 40 * p.sections.len()
            &&& b.subrange((pe + 24 + ol) as int, (pe + 24 + ol + 40 * p.sections.len()) as int)
                == table
            &&& b.subrange(headers_size(d, p.sections.len()) as int, b.len() as int) == join(
                section_data_parts(d, p.sections),
            )
        }),
{
    let n = p.sections.len();
    let fa = at_least_one(header_file_alignment(d.optional));
    let dos = encode_fields(dos_fields(), dos_values(d.dos));
    let stub = d.dos.stub;
    let sig = seq![80u8, 69u8, 0u8, 0u8];
    let coff = encode_fields(coff_fields(), coff_values(d.coff, n, optional_len(d.optional)));
    let oh = optional_bytes(
        d.optional,
        headers_size(d, n),
        aligned(image_end(p.sections), at_least_one(header_section_alignment(d.optional))),
    );
    let dirs = encode_fields(directories_fields(), directory_values(p.dirs));
    let table = join(section_header_parts(d, p.sections));
    lemma_dos_size();
    lemma_coff_size();
    lemma_optional32_size();
    lemma_optional64_size();
    lemma_directories_size();
    lemma_encode_len(dos_fields(), dos_values(d.dos));
    lemma_encode_len(coff_fields(), coff_values(d.coff, n, optional_len(d.optional)));
    lemma_encode_len(directories_fields(), directory_values(p.dirs));
    match d.optional {
        OptionalHeader::Bit32(h) => {
            lemma_encode_len(
                optional32_fields(),
                optional32_values(
                    h,
                    headers_size(d, n),
                    aligned(
                        image_end(p.sections),
                        at_least_one(header_section_alignment(d.optional)),
                    ),
                ),
            );
        },
        OptionalHeader::Bit64(h) => {
            lemma_encode_len(
                optional64_fields(),
                optional64_values(
                    h,
                    headers_size(d, n),
                    aligned(
                        image_end(p.sections),
                        at_least_one(header_section_alignment(d.optional)),
                    ),
                ),
            );
        },
    }
    lemma_header_parts_len(d, p.sections, n as int);
    assert(section_header_parts(d, p.sections).take(n as int) =~= section_header_parts(
        d,
        p.sections,
    ));
    lemma_data_offset(d, p, n as int);
    assert(section_data_parts(d, p.sections).take(n as int) =~= section_data_parts(
        d,
        p.sections,
    ));
    lemma_raw_offset_mono(d, p.sections, 0, n as int);
    let he = head_end(stub.len(), d.optional, n);
    lemma_low(he);
    align_up_is_least_multiple(low(he), fa);
    let hb = header_bytes(d, p);
    let hs = headers_size(d, n);
    assert(hb.len() == he);
    let pad = zeros((hs - hb.len()) as nat);
    let data = join(section_data_parts(d, p.sections));
    let b = file_bytes(d, p);
    assert(resized(hb, hs as nat) =~= hb + pad);
    let tail = pad + data;
    assert(b =~= hb + tail);
    lemma_split7(dos, stub, sig, coff, oh, dirs, table, tail);
    assert(b.subrange(hs as int, b.len() as int) =~= data);
}

/// Eight parts one after the other, taken apart.
proof fn lemma_split7(
    a: Seq<u8>,
    b: Seq<u8>,
    c: Seq<u8>,
    d: Seq<u8>,
    e: Seq<u8>,
    f: Seq<u8>,
    g: Seq<u8>,
    t: Seq<u8>,
)
    ensures
        ({
            let w = a + b + c + d + e + f + g + t;
            let ab = (a.len() + b.len()) as int;
            let abc = ab + c.len();
            let abcd = abc + d.len();
            let abcde = abcd + e.len();
            let abcdef = abcde + f.len();
            &&& w.subrange(0, a.len() as int) == a
            &&& w.subrange(a.len() as int, ab) == b
            &&& w.subrange(ab, abc) == c
            &&& w.subrange(abc, abcd) == d
            &&& w.subrange(abcd, abcde) == e
            &&& w.subrange(abcde, abcdef) == f
            &&& w.subrange(abcdef, abcdef + g.len()) == g
        }),
{
    let w = a + b + c + d + e + f + g + t;
    let ab = (a.len() + b.len()) as int;
    let abc = ab + c.len();
    let abcd = abc + d.len();
    let abcde = abcd + e.len();
    let abcdef = abcde + f.len();
    assert(w.subrange(0, a.len() as int) =~= a);
    assert(w.subrange(a.len() as int, ab) =~= b);
    assert(w.subrange(ab, abc) =~= c);
    assert(w.subrange(abc, abcd) =~= d);
    assert(w.subrange(abcd, abcde) =~= e);
    assert(w.subrange(abcde, abcdef) =~= f);
    assert(w.subrange(abcdef, abcdef + g.len()) =~= g);
}

proof fn lemma_dos_values_fit(dos: DosModel)
    requires
        dos.words.len() == 30,
    ensures
        fields_fit(dos_fields(), dos_values(dos)),
{
    lemma_dos_size();
    lemma_pow256_values();
    let vs = dos_values(dos);
    let ws = dos_fields();
    assert forall|i: int| 0 <= i < ws.len() implies #[trigger] vs[i] < pow256(ws[i] as nat) by {
        if i < 30 {
            assert(ws[i] == 2);
        } else {
            assert(ws[30] == 4);
        }
    }
}

proof fn lemma_dos_reread(d: DocModel, p: FilePlan)
    requires
        file_fits(d, p),
    ensures
        record_at(file_bytes(d, p), 0, dos_fields()) is Ok,
        dos_of(record_at(file_bytes(d, p), 0, dos_fields())->Ok_0, file_bytes(d, p)) == reread_dos(
            d,
        ),
{
    let b = file_bytes(d, p);
    lemma_header_slices(d, p);
    lemma_dos_size();
    lemma_dos_values_fit(d.dos);
    lemma_record_at(b, 0, dos_fields(), dos_values(d.dos));
    lemma_low(64 + d.dos.stub.len());
    let v = dos_values(d.dos);
    assert(v[30] == 64 + d.dos.stub.len());
    assert(dos_of(v, b).words =~= d.dos.words);
    assert(dos_of(v, b) =~= reread_dos(d));
}

proof fn lemma_coff_reread(d: DocModel, p: FilePlan)
    requires
        file_fits(d, p),
    ensures
        record_at(file_bytes(d, p), 64 + d.dos.stub.len() + 4, coff_fields()) is Ok,
        coff_of(record_at(file_bytes(d, p), 64 + d.dos.stub.len() + 4, coff_fields())->Ok_0)
            == reread_coff(d, p),
{
    let b = file_bytes(d, p);
    let n = p.sections.len();
    lemma_header_slices(d, p);
    lemma_coff_size();
    lemma_pow256_values();
    let v = coff_values(d.coff, n, optional_len(d.optional));
    let ws = coff_fields();
    assert(ws[0] == 2 && ws[1] == 2 && ws[2] == 4 && ws[3] == 4 && ws[4] == 4 && ws[5] == 2 && ws[6]
        == 2);
    assert(fields_fit(ws, v));
    lemma_record_at(b, 64 + d.dos.stub.len() + 4, ws, v);
}

proof fn lemma_optional32_roundtrip(h: OptionalHeader32, hs: u32, im: u32)
    ensures
        fields_fit(optional32_fields(), optional32_values(h, hs, im)),
        decode_fields(
            optional32_fields(),
            encode_fields(optional32_fields(), optional32_values(h, hs, im)),
        ) == optional32_values(h, hs, im),
        optional32_of(optional32_values(h, hs, im)) == (OptionalHeader32 {
            size_of_headers: hs,
            size_of_image: im,
            number_of_rva_and_sizes: 16,
            ..h
        }),
{
    lemma_optional32_size();
    lemma_pow256_values();
    assert(fields_fit(optional32_fields(), optional32_values(h, hs, im)));
    lemma_fields_roundtrip(optional32_fields(), optional32_values(h, hs, im));
}

proof fn lemma_optional64_roundtrip(h: OptionalHeader64, hs: u32, im: u32)
    ensures
        fields_fit(optional64_fields(), optional64_values(h, hs, im)),
        decode_fields(
            optional64_fields(),
            encode_fields(optional64_fields(), optional64_values(h, hs, im)),
        ) == optional64_values(h, hs, im),
        optional64_of(optional64_values(h, hs, im)) == (OptionalHeader64 {
            size_of_headers: hs,
            size_of_image: im,
            number_of_rva_and_sizes: 16,
            ..h
        }),
{
    lemma_optional64_size();
    lemma_pow256_values();
    assert(fields_fit(optional64_fields(), optional64_values(h, hs, im)));
    lemma_fields_roundtrip(optional64_fields(), optional64_values(h, hs, im));
}

proof fn lemma_directories_roundtrip(dirs: Seq<DataDirectory>)
    requires
        dirs.len() >= 16,
    ensures
        directories_of(
            decode_fields(
                directories_fields(),
                encode_fields(directories_fields(), directory_values(dirs)),
            ),
        ) == dirs.take(16),
{
    lemma_directories_size();
    lemma_pow256_values();
    let ws = directories_fields();
    let vs = directory_values(dirs);
    assert forall|i: int| 0 <= i < ws.len() implies #[trigger] vs[i] < pow256(ws[i] as nat) by {
        assert(ws[i] == 4);
    }
    lemma_fields_roundtrip(ws, vs);
    assert forall|i: int| 0 <= i < 16 implies directories_of(vs)[i] == dirs[i] by {
        assert((2 * i) % 2 == 0 && (2 * i) / 2 == i && (2 * i + 1) % 2 == 1 && (2 * i + 1) / 2 == i);
    }
    assert(directories_of(vs) =~= dirs.take(16));
}

/// The first two bytes of a record whose first field has two bytes are that field.
proof fn lemma_first_word(ws: Seq<u8>, vs: Seq<u64>)
    requires
        layout_ok(ws),
        fields_fit(ws, vs),
        ws.len() > 0,
        ws[0] == 2,
    ensures
        encode_fields(ws, vs).len() >= 2,
        le_value(encode_fields(ws, vs).subrange(0, 2)) == vs[0],
    decreases ws.len(),
{
    let e = encode_fields(ws, vs);
    if ws.len() == 1 {
        assert(ws.drop_last().len() == 0);
        assert(ws.last() == 2 && vs.last() == vs[0]);
        assert(encode_fields(ws.drop_last(), vs.drop_last()) =~= Seq::empty());
        assert(e =~= le_bytes(2, vs[0] as nat));
        lemma_le_roundtrip(2, vs[0] as nat);
        assert(e.subrange(0, 2) =~= e);
    } else {
        let w1 = ws.drop_last();
        let v1 = vs.drop_last();
        assert forall|i: int| 0 <= i < w1.len() implies #[trigger] v1[i] < pow256(w1[i] as nat) by {
            assert(vs[i] < pow256(ws[i] as nat));
        }
        assert forall|i: int| 0 <= i < w1.len() implies #[trigger] w1[i] <= 8 by {
            assert(ws[i] <= 8);
        }
        lemma_first_word(w1, v1);
        assert(e.subrange(0, 2) =~= encode_fields(w1, v1).subrange(0, 2));
    }
}

proof fn lemma_optional32_at(
    b: Seq<u8>,
    off: nat,
    h: OptionalHeader32,
    hs: u32,
    im: u32,
    dirs: Seq<DataDirectory>,
)
    requires
        off + 224 <= b.len(),
        dirs.len() >= 16,
        h.magic == PE32_MAGIC,
        b.subrange(off as int, off as int + 96) == encode_fields(
            optional32_fields(),
            optional32_values(h, hs, im),
        ),
        b.subrange(off as int + 96, off as int + 224) == encode_fields(
            directories_fields(),
            directory_values(dirs),
        ),
    ensures
        optional_at(b, off, 224) is Ok,
        optional_at(b, off, 224)->Ok_0 == (
            OptionalHeader::Bit32(
                OptionalHeader32 {
                    size_of_headers: hs,
                    size_of_image: im,
                    number_of_rva_and_sizes: 16,
                    ..h
                },
            ),
            dirs.take(16),
        ),
{
    let vs = optional32_values(h, hs, im);
    let ws = optional32_fields();
    let e = encode_fields(ws, vs);
    assert(le_value(b.subrange(off as int, off as int + 2)) == h.magic) by {
        lemma_optional32_roundtrip(h, hs, im);
        lemma_optional32_size();
        assert(ws[0] == 2);
        lemma_first_word(ws, vs);
        assert(b.subrange(off as int, off as int + 2) =~= b.subrange(
            off as int,
            off as int + 96,
        ).subrange(0, 2));
        assert(vs[0] == h.magic);
    }
    lemma_optional32_roundtrip(h, hs, im);
    lemma_directories_roundtrip(dirs);
}

proof fn lemma_optional64_at(
    b: Seq<u8>,
    off: nat,
    h: OptionalHeader64,
    hs: u32,
    im: u32,
    dirs: Seq<DataDirectory>,
)
    requires
        off + 240 <= b.len(),
        dirs.len() >= 16,
        h.magic == PE32_PLUS_MAGIC,
        b.subrange(off as int, off as int + 112) == encode_fields(
            optional64_fields(),
            optional64_values(h, hs, im),
        ),
        b.subrange(off as int + 112, off as int + 240) == encode_fields(
            directories_fields(),
            directory_values(dirs),
        ),
    ensures
        optional_at(b, off, 240) is Ok,
        optional_at(b, off, 240)->Ok_0 == (
            OptionalHeader::Bit64(
                OptionalHeader64 {
                    size_of_headers: hs,
                    size_of_image: im,
                    number_of_rva_and_sizes: 16,
                    ..h
                },
            ),
            dirs.take(16),
        ),
{
    let vs = optional64_values(h, hs, im);
    let ws = optional64_fields();
    let e = encode_fields(ws, vs);
    assert(le_value(b.subrange(off as int, off as int + 2)) == h.magic) by {
        lemma_optional64_roundtrip(h, hs, im);
        lemma_optional64_size();
        assert(ws[0] == 2);
        lemma_first_word(ws, vs);
        assert(b.subrange(off as int, off as int + 2) =~= b.subrange(
            off as int,
            off as int + 112,
        ).subrange(0, 2));
        assert(vs[0] == h.magic);
    }
    lemma_optional64_roundtrip(h, hs, im);
    lemma_directories_roundtrip(dirs);
}

proof fn lemma_optional_reread(d: DocModel, p: FilePlan)
    requires
        file_fits(d, p),
    ensures
        optional_at(
            file_bytes(d, p),
            64 + d.dos.stub.len() + 24,
            optional_len(d.optional),
        ) is Ok,
        optional_at(file_bytes(d, p), 64 + d.dos.stub.len() + 24, optional_len(d.optional))->Ok_0
            == (reread_optional(d, p), p.dirs.take(16)),
{
    let b = file_bytes(d, p);
    let off = 64 + d.dos.stub.len() + 24;
    let hs = headers_size(d, p.sections.len());
    let im = aligned(
        image_end(p.sections),
        at_least_one(header_section_alignment(d.optional)),
    );
    lemma_header_slices(d, p);
    match d.optional {
        OptionalHeader::Bit32(h) => {
            lemma_optional32_at(b, off, h, hs, im, p.dirs);
        },
        OptionalHeader::Bit64(h) => {
            lemma_optional64_at(b, off, h, hs, im, p.dirs);
        },
    }
}

proof fn lemma_section_values_fit(h: SectionHeader, size: u32, ptr: u32)
    ensures
        fields_fit(section_fields(), section_values(h, size, ptr)),
        section_header_of(section_values(h, size, ptr)) == (SectionHeader {
            size_of_raw_data: size,
            pointer_to_raw_data: RawOffset(ptr),
            ..h
        }),
{
    lemma_section_size();
    lemma_pow256_values();
    assert(fields_fit(section_fields(), section_values(h, size, ptr)));
    let r = section_header_of(section_values(h, size, ptr));
    assert(r.name =~= h.name);
}

proof fn lemma_section_reread(d: DocModel, p: FilePlan, i: int)
    requires
        file_fits(d, p),
        0 <= i < p.sections.len(),
    ensures
        ({
            let b = file_bytes(d, p);
            let at = (64 + d.dos.stub.len() + 24 + optional_len(d.optional) + 40 * i) as nat;
            let r = record_at(b, at, section_fields());
            r is Ok && section_of(b, section_header_of(r->Ok_0)) == reread_section(
                d,
                p.sections,
                i,
            )
        }),
{
    let b = file_bytes(d, p);
    let n = p.sections.len();
    let at = (64 + d.dos.stub.len() + 24 + optional_len(d.optional)) as int;
    let s = p.sections[i];
    let size = raw_size(d, s);
    let ptr = raw_offset(d, p.sections, i);
    let hparts = section_header_parts(d, p.sections);
    let dparts = section_data_parts(d, p.sections);
    lemma_header_slices(d, p);
    lemma_header_parts_len(d, p.sections, i);
    lemma_header_parts_len(d, p.sections, i + 1);
    lemma_join_part(hparts, i);
    lemma_section_size();
    lemma_raw_offset_mono(d, p.sections, i + 1, n as int);
    lemma_raw_offset_mono(d, p.sections, 0, i);
    lemma_low(ptr);
    let vs = section_values(s.header, size, low(ptr));
    lemma_section_values_fit(s.header, size, low(ptr));
    lemma_nested(b, at, join(hparts), 40 * i, hparts[i]);
    lemma_record_at(b, (at + 40 * i) as nat, section_fields(), vs);
    lemma_data_offset(d, p, i);
    lemma_raw_size(d, p, i);
    lemma_join_part(dparts, i);
    let hs = headers_size(d, n) as int;
    lemma_nested(b, hs, join(dparts), join(dparts.take(i)).len() as int, dparts[i]);
    let h = section_header_of(vs);
    assert(raw_data(b, h) == section_file_bytes(d, s));
}

proof fn lemma_sections_reread(d: DocModel, p: FilePlan, k: nat)
    requires
        file_fits(d, p),
        k <= p.sections.len(),
    ensures
        ({
            let at = 64 + d.dos.stub.len() + 24 + optional_len(d.optional);
            let r = sections_at(file_bytes(d, p), at, k);
            r is Ok && r->Ok_0 == reread_sections(d, p.sections).take(k as int)
        }),
    decreases k,
{
    let all = reread_sections(d, p.sections);
    if k == 0 {
        assert(all.take(0) =~= Seq::empty());
    } else {
        lemma_sections_reread(d, p, (k - 1) as nat);
        lemma_section_reread(d, p, k - 1);
        assert(all.take(k as int) =~= all.take(k - 1).push(all[k - 1]));
    }
}

/// Reading a written file gives the document's headers and section data back:
/// the DOS and file header but for the counts and offsets that follow from the
/// layout, the optional header with its computed sizes, the data directories
/// of the plan, and every section with its bytes as loaded from the file.
pub proof fn headers_survive(d: DocModel, p: FilePlan)
    requires
        file_fits(d, p),
    ensures
        skeleton(file_bytes(d, p)) is Ok,
        skeleton(file_bytes(d, p))->Ok_0 == reread(d, p),
{
    let b = file_bytes(d, p);
    let n = p.sections.len();
    lemma_header_slices(d, p);
    lemma_dos_reread(d, p);
    lemma_coff_reread(d, p);
    lemma_optional_reread(d, p);
    lemma_sections_reread(d, p, n);
    let all = reread_sections(d, p.sections);
    assert(all.take(n as int) =~= all);
    let dirs = p.dirs.take(16);
    assert(counted_directories(dirs, 16) =~= dirs);
    assert(header_number_of_rva_and_sizes(reread_optional(d, p)) == 16);
    assert(skeleton(b)->Ok_0 =~= reread(d, p));
}

} // verus!

//! Documents that can be written and read back, by what they hold.

use crate::bytes::low;
use crate::domain::document::{
    at_least_one, image_end, lemma_image_end, lemma_len32, section_end, DocModel,
};
use crate::domain::export::{ExportSymbolModel, ExportTableModel};
use crate::domain::optional::{header_arch, header_file_alignment, header_section_alignment};
use crate::domain::section::SectionModel;
use crate::domain::types::{align_up_is_least_multiple, aligned, pointer_size};
use crate::io::pe::decode::{loaded, parsed};
use crate::io::pe::directory_render::{load_config_bytes, reloc_bytes, tls_bytes, with_directory};
use crate::io::pe::export_render::rendered_export;
use crate::io::pe::import_render::rendered_import;
use crate::io::pe::laws::exports::{
    contiguous, contiguous_exports_are_kept, named_apart, plain_exports, rendered_exports_size,
    reread_exports_keep_count,
};
use crate::io::pe::laws::extension::{imports_end_alike, lemma_ends_alike_itself};
use crate::io::pe::laws::headers::{file_fits, lemma_low};
use crate::io::pe::laws::imports::plain_imports;
use crate::io::pe::laws::roundtrip::{
    above, content_survives, exports_kept, exports_ok, full_section_is_stable, headers_kept,
    image_kept, imports_ok, lemma_cleared, lemma_grows, lemma_prefixes, plan1, plan2, plan3, plan4,
    plan5, plan6, read_back, section_stable, sections_kept, stacked, written_exports,
    written_exports_are_kept, written_file_is_read_back, written_imports_are_kept,
};
use crate::io::pe::laws::stability::saved_document_is_stable;
use crate::io::pe::writer::{
    exports_match, file_plan, full_directories, imports_match, initial_plan, next_base,
    rendered_section, section_file_bytes, serialized, FilePlan,
};
use vstd::prelude::*;

verus! {

/// Whether sections lie in the lower half of the address space.
pub open spec fn roomy(sections: Seq<SectionModel>) -> bool {
    forall|i: int|
        0 <= i < sections.len() ==> (#[trigger] sections[i]).header.virtual_address.0
            + sections[i].data.len() <= 0x7fff_ffff
}

/// Whether there is room for the sections that writing a document adds: the
/// image stays in the lower half of the address space, there is a section to
/// put new ones behind, and an import table that stands in the image ends before
/// them.
pub open spec fn roomy_document(d: DocModel) -> bool {
    let s = file_plan(d)->Ok_0.sections;
    &&& roomy(s)
    &&& header_section_alignment(d.optional) <= 0x8000_0000
    &&& image_end(d.sections) > 0
    &&& imports_match(d) ==> imports_end_alike(
        d.sections,
        s,
        full_directories(d.data_directories)[1].rva.0 as int,
        pointer_size(d.arch),
    )
}

/// Whether an export table can be rendered without loss: every symbol has a name
/// and an ordinal of its own, every text can be read back, and what is exported
/// lies in the sections.
pub open spec fn plain_export_table(sections: Seq<SectionModel>, t: ExportTableModel) -> bool {
    &&& named_apart(t.symbols)
    &&& plain_exports(t)
    &&& forall|i: int|
        0 <= i < t.symbols.len() && (#[trigger] t.symbols[i]).forwarder is None
            ==> t.symbols[i].rva.0 < image_end(sections)
}

/// A document with ordinary content: it fits into a file, its sections are
/// loaded as they are, there is room for what is added, and the imports and
/// exports that do not yet stand in the image can be rendered without loss.
pub open spec fn plain_document(d: DocModel) -> bool {
    let p = file_plan(d)->Ok_0;
    &&& file_plan(d) is Ok
    &&& file_fits(d, p)
    &&& d.arch == header_arch(d.optional)
    &&& forall|i: int| 0 <= i < d.sections.len() ==> section_stable(d, #[trigger] d.sections[i])
    &&& p.sections.len() > d.sections.len() ==> roomy_document(d)
    &&& imports_match(d) || plain_imports(d.imports)
    &&& d.exports matches Some(t) ==> exports_match(d) || plain_export_table(d.sections, t)
}

/// Sections whose virtual size is the number of their bytes, at least one, are
/// what a plain document needs of its sections.
pub proof fn full_sections_are_plain(d: DocModel)
    requires
        file_plan(d) is Ok,
        file_fits(d, file_plan(d)->Ok_0),
        d.sections.len() > 0,
        forall|i: int|
            0 <= i < d.sections.len() ==> (#[trigger] d.sections[i]).header.virtual_size
                == d.sections[i].data.len() && d.sections[i].data.len() > 0,
    ensures
        image_end(d.sections) > 0,
        forall|i: int|
            0 <= i < d.sections.len() ==> section_stable(d, #[trigger] d.sections[i]),
{
    let p = file_plan(d)->Ok_0;
    lemma_grows(d);
    lemma_prefixes(d);
    assert forall|i: int| 0 <= i < d.sections.len() implies section_stable(
        d,
        #[trigger] d.sections[i],
    ) by {
        assert(p.sections[i] == p.sections.take(d.sections.len() as int)[i]);
        full_section_is_stable(d, p, i);
    }
    lemma_image_end(d.sections);
    lemma_len32(d.sections[0]);
    assert(d.sections[0].data.len() > 0);
    assert(section_end(d.sections[0]) > 0);
}

/// Whether every section from `n` on was rendered above the ones before it.
spec fn added(sections: Seq<SectionModel>, n: int) -> bool {
    &&& image_end(sections) > 0
    &&& forall|i: int|
        n <= i < sections.len() ==> #[trigger] above(sections, i)
            && sections[i].header.virtual_size == low(sections[i].data.len())
}

/// The end of an image in the lower half lies there too.
proof fn lemma_end_low(sections: Seq<SectionModel>)
    requires
        roomy(sections),
    ensures
        image_end(sections) <= 0x7fff_ffff,
    decreases sections.len(),
{
    if sections.len() > 0 {
        let x = sections.drop_last();
        assert forall|i: int| 0 <= i < x.len() implies (#[trigger] x[i]).header.virtual_address.0
            + x[i].data.len() <= 0x7fff_ffff by {
            assert(x[i] == sections[i]);
        }
        lemma_end_low(x);
        let l = sections.last();
        assert(l == sections[sections.len() - 1]);
        assert(l.header.virtual_address.0 + l.data.len() <= 0x7fff_ffff);
    }
}

/// A base for a new section lies above all sections.
proof fn lemma_base(d: DocModel, q: FilePlan)
    requires
        roomy(q.sections),
        header_section_alignment(d.optional) <= 0x8000_0000,
    ensures
        image_end(q.sections) <= next_base(d, q),
{
    lemma_end_low(q.sections);
    align_up_is_least_multiple(
        image_end(q.sections),
        at_least_one(header_section_alignment(d.optional)),
    );
}

/// A part of sections in the lower half lies there too.
proof fn lemma_roomy_part(a: Seq<SectionModel>, s: Seq<SectionModel>)
    requires
        roomy(s),
        a.len() <= s.len(),
        s.take(a.len() as int) == a,
    ensures
        roomy(a),
{
    assert forall|i: int| 0 <= i < a.len() implies (#[trigger] a[i]).header.virtual_address.0
        + a[i].data.len() <= 0x7fff_ffff by {
        assert(a[i] == s[i]);
    }
}

/// One more rendered section keeps the stack.
proof fn lemma_added_step(
    d: DocModel,
    q: FilePlan,
    name: [u8; 8],
    blob: Seq<u8>,
    n: int,
)
    requires
        0 <= n <= q.sections.len(),
        added(q.sections, n),
        header_section_alignment(d.optional) <= 0x8000_0000,
        roomy(q.sections.push(rendered_section(name, next_base(d, q), blob))),
    ensures
        added(q.sections.push(rendered_section(name, next_base(d, q), blob)), n),
{
    let x = rendered_section(name, next_base(d, q), blob);
    let s = q.sections.push(x);
    let k = q.sections.len() as int;
    assert(s.take(k) =~= q.sections);
    lemma_roomy_part(q.sections, s);
    lemma_base(d, q);
    lemma_image_end(q.sections);
    assert(s.drop_last() =~= q.sections);
    assert(s.last() == x);
    assert(s[k] == x);
    assert forall|i: int| n <= i < s.len() implies #[trigger] above(s, i)
        && s[i].header.virtual_size == low(s[i].data.len()) by {
        if i < k {
            assert(above(q.sections, i));
            assert(s[i] == q.sections[i]);
            assert forall|j: int| 0 <= j < i implies section_end(#[trigger] s[j])
                <= s[i].header.virtual_address.0 by {
                assert(s[j] == q.sections[j]);
            }
        } else {
            assert forall|j: int| 0 <= j < i implies section_end(#[trigger] s[j])
                <= s[i].header.virtual_address.0 by {
                assert(s[j] == q.sections[j]);
            }
        }
    }
}

/// The sections that a document is written with stack up.
proof fn lemma_added(d: DocModel)
    requires
        file_plan(d) is Ok,
        roomy_document(d),
    ensures
        added(plan6(d).sections, d.sections.len() as int),
        file_plan(d)->Ok_0 == plan6(d),
{
    let n = d.sections.len() as int;
    let s = plan6(d).sections;
    lemma_grows(d);
    lemma_prefixes(d);
    let p0 = initial_plan(d);
    assert(added(p0.sections, n));
    lemma_roomy_part(plan1(d).sections, s);
    if d.imports.len() > 0 && !imports_match(d) {
        let r = rendered_import(d.imports, d.arch, next_base(d, p0))->Ok_0;
        lemma_added_step(d, p0, crate::io::pe::writer::import_section_name(), r.blob, n);
    }
    lemma_roomy_part(plan2(d).sections, s);
    if d.exports is Some && !exports_match(d) {
        let r = rendered_export(d.exports->0, next_base(d, plan1(d)))->Ok_0;
        lemma_added_step(d, plan1(d), crate::io::pe::writer::export_section_name(), r.blob, n);
    }
    lemma_roomy_part(plan3(d).sections, s);
    if plan3(d).sections != plan2(d).sections {
        let b = with_directory(Seq::empty(), d.resources->0, 0)->Ok_0;
        lemma_added_step(d, plan2(d), crate::io::pe::writer::resource_section_name(), b, n);
    }
    lemma_roomy_part(plan4(d).sections, s);
    if plan4(d).sections != plan3(d).sections {
        let b = reloc_bytes(d.relocations->0);
        lemma_added_step(d, plan3(d), crate::io::pe::writer::relocation_section_name(), b, n);
    }
    lemma_roomy_part(plan5(d).sections, s);
    if plan5(d).sections != plan4(d).sections {
        let b = tls_bytes(d.tls->0, d.arch);
        lemma_added_step(d, plan4(d), crate::io::pe::writer::tls_section_name(), b, n);
    }
    if plan6(d).sections != plan5(d).sections {
        let b = load_config_bytes(d.load_config->0, d.arch);
        lemma_added_step(d, plan5(d), crate::io::pe::writer::load_config_section_name(), b, n);
    }
}

/// The end of an image does not fall when sections are added.
proof fn lemma_end_grows(a: Seq<SectionModel>, s: Seq<SectionModel>)
    requires
        a.len() <= s.len(),
        s.take(a.len() as int) == a,
    ensures
        image_end(a) <= image_end(s),
    decreases s.len(),
{
    if a.len() == s.len() {
        assert(s.take(a.len() as int) =~= s);
    } else {
        let x = s.drop_last();
        assert(x.take(a.len() as int) =~= s.take(a.len() as int));
        lemma_end_grows(a, x);
    }
}

/// A rendered section is loaded as it is.
proof fn lemma_rendered_stable(d: DocModel, p: FilePlan, i: int)
    requires
        file_fits(d, p),
        0 <= i < p.sections.len(),
        p.sections[i].header.virtual_size == low(p.sections[i].data.len()),
        p.sections[i].data.len() <= u32::MAX,
    ensures
        section_stable(d, p.sections[i]),
{
    let x = p.sections[i];
    lemma_low(x.data.len());
    if x.data.len() > 0 {
        full_section_is_stable(d, p, i);
    } else {
        let fa = at_least_one(header_file_alignment(d.optional));
        align_up_is_least_multiple(0, fa);
        assert(aligned(0, fa) == 0) by (nonlinear_arith)
            requires
                aligned(0, fa) % fa == 0,
                0 <= aligned(0, fa) < fa,
        ;
        assert(loaded(section_file_bytes(d, x), 0) =~= x.data);
    }
}

/// The sections that a plain document is written with are loaded as they are.
proof fn lemma_all_stable(d: DocModel, i: int)
    requires
        plain_document(d),
        file_plan(d)->Ok_0.sections.len() > d.sections.len() ==> added(
            file_plan(d)->Ok_0.sections,
            d.sections.len() as int,
        ),
        file_plan(d)->Ok_0.sections.take(d.sections.len() as int) == d.sections,
        0 <= i < file_plan(d)->Ok_0.sections.len(),
    ensures
        section_stable(d, file_plan(d)->Ok_0.sections[i]),
{
    let s = file_plan(d)->Ok_0.sections;
    let n = d.sections.len() as int;
    if i < n {
        assert(s[i] == s.take(n)[i]);
        assert(section_stable(d, d.sections[i]));
    } else {
        assert(above(s, i));
        lemma_rendered_stable(d, file_plan(d)->Ok_0, i);
    }
}

/// A plain document's image survives.
proof fn lemma_image_kept(d: DocModel)
    requires
        plain_document(d),
    ensures
        image_kept(d),
{
    let s = file_plan(d)->Ok_0.sections;
    lemma_grows(d);
    lemma_prefixes(d);
    if s.len() > d.sections.len() {
        lemma_added(d);
    }
    assert(stacked(s, d.sections.len() as int));
    assert forall|i: int| 0 <= i < s.len() implies section_stable(d, #[trigger] s[i]) by {
        lemma_all_stable(d, i);
    }
}

/// A plain document's imports survive.
proof fn lemma_imports_ok(d: DocModel)
    requires
        plain_document(d),
    ensures
        imports_ok(d),
{
    let s = file_plan(d)->Ok_0.sections;
    lemma_grows(d);
    lemma_prefixes(d);
    if d.imports.len() > 0 {
        if imports_match(d) {
            if s.len() == d.sections.len() {
                assert(s.take(s.len() as int) =~= s);
                lemma_ends_alike_itself(
                    s,
                    full_directories(d.data_directories)[1].rva.0 as int,
                    pointer_size(d.arch),
                );
            }
        } else {
            let k = d.sections.len() as int;
            assert(plan1(d).sections.len() == k + 1);
            assert(plan1(d).sections[k] == s.take(k + 1)[k]);
            assert(s[k] == plan1(d).sections[k]);
            assert(s[k].header.virtual_address.0 + s[k].data.len() <= 0x7fff_ffff);
        }
    }
}

/// A plain document's exports survive.
proof fn lemma_exports_ok(d: DocModel)
    requires
        plain_document(d),
    ensures
        exports_ok(d),
{
    let s = file_plan(d)->Ok_0.sections;
    lemma_grows(d);
    lemma_prefixes(d);
    if let Some(t) = d.exports {
        if !exports_match(d) {
            let q = plan1(d);
            let base = next_base(d, q);
            let k = q.sections.len() as int;
            assert(plan2(d).sections.len() == k + 1);
            assert(plan2(d).sections[k] == s.take(k + 1)[k]);
            assert(s[k] == plan2(d).sections[k]);
            assert(s[k].header.virtual_address.0 + s[k].data.len() <= 0x7fff_ffff);
            rendered_exports_size(t, base);
            lemma_roomy_part(q.sections, s);
            lemma_base(d, q);
            assert(q.sections.take(d.sections.len() as int) =~= s.take(k).take(
                d.sections.len() as int,
            ));
            assert(s.take(k).take(d.sections.len() as int) =~= s.take(d.sections.len() as int));
            lemma_end_grows(d.sections, q.sections);
        }
    }
}

/// When a plain document's exports are read back as they were.
proof fn lemma_exports_same(d: DocModel)
    requires
        plain_document(d),
        exports_kept(written_exports(d), read_back(d).exports),
    ensures
        d.exports matches Some(t) ==> {
            &&& exports_match(d) && t.module_name is Some ==> read_back(d).exports == d.exports
            &&& contiguous(t) && unforwarded(t.symbols) ==> read_back(d).exports == d.exports
        },
{
    if let Some(t) = d.exports {
        if contiguous(t) && unforwarded(t.symbols) {
            contiguous_exports_are_kept(t, next_base(d, plan1(d)));
        }
    }
}

/// What a plain document holds is read back from its file: its headers, its
/// sections with their bytes, its imports, and its exports as they were
/// written. Exports that stand in the image under their module's name, and those
/// that are numbered without a gap and not forwarded, are what they were.
pub proof fn plain_document_survives(d: DocModel)
    requires
        plain_document(d),
    ensures
        serialized(d) is Ok,
        parsed(serialized(d)->Ok_0) is Ok,
        ({
            let r = read_back(d);
            &&& headers_kept(d, r)
            &&& sections_kept(d, r)
            &&& r.imports == d.imports
            &&& exports_kept(written_exports(d), r.exports)
            &&& d.exports matches Some(t) ==> {
                &&& exports_match(d) && t.module_name is Some ==> r.exports == d.exports
                &&& contiguous(t) && unforwarded(t.symbols) ==> r.exports == d.exports
            }
        }),
{
    lemma_image_kept(d);
    lemma_imports_ok(d);
    lemma_exports_ok(d);
    content_survives(d);
    lemma_exports_same(d);
}

/// Whether no symbol is forwarded to another module.
pub open spec fn unforwarded(s: Seq<ExportSymbolModel>) -> bool {
    forall|i: int| 0 <= i < s.len() ==> (#[trigger] s[i]).forwarder is None
}

/// A plain document that was saved and read again is written as the same file
/// once more, with no further section. An export table without symbols is left
/// out: it is rendered anew each time.
pub proof fn plain_document_is_stable(d: DocModel)
    requires
        plain_document(d),
        d.exports matches Some(t) ==> t.symbols.len() > 0,
    ensures
        serialized(d) is Ok,
        parsed(serialized(d)->Ok_0) is Ok,
        file_plan(read_back(d)) is Ok,
        file_plan(read_back(d))->Ok_0.sections == read_back(d).sections,
        serialized(read_back(d)) == serialized(d),
{
    lemma_image_kept(d);
    lemma_imports_ok(d);
    lemma_exports_ok(d);
    written_imports_are_kept(d);
    written_exports_are_kept(d);
    written_file_is_read_back(d);
    lemma_cleared(d);
    if let Some(t) = d.exports {
        if !exports_match(d) {
            reread_exports_keep_count(t, next_base(d, plan1(d)));
        }
    }
    saved_document_is_stable(d);
}

} // verus!

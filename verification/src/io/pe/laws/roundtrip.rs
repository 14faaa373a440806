//! Reading back a written document gives its content.

use crate::domain::data_directory::{directory_slot, empty_directory, DataDirectoryIndex};
use crate::domain::document::{covers, image_read, lemma_locate, locate, section_end, DocModel};
use crate::domain::export::ExportTableModel;
use crate::domain::optional::{
    header_address_of_entry_point, header_arch, header_file_alignment, header_image_base,
    header_section_alignment, header_subsystem,
};
use crate::domain::section::SectionModel;
use crate::domain::types::{machine_code, machine_code_roundtrip, pointer_size};
use crate::error::PeErrorModel;
use crate::io::pe::decode::{
    enriched, exports_of, imports_of, load_config_in, loaded, parsed, present_directory,
    relocations_of, resources_of, tls_in,
};
use crate::io::pe::directory_render::{load_config_bytes, reloc_bytes, tls_bytes, with_directory};
use crate::io::pe::export_render::{export_plan, rendered_export};
use crate::io::pe::import_render::rendered_import;
use crate::io::pe::laws::directories::{
    block_sound, load_config_sound, load_config_survives, relocations_survive, resources_survive,
    tls_fits, tls_survives, tree_sound,
};
use crate::io::pe::laws::exports::{
    exports_placed, exports_survive, named_apart, plain_exports, reread_exports,
};
use crate::io::pe::laws::extension::{
    extends, imports_end_alike, lemma_ends_alike_same, lemma_exports_extend, lemma_imports_extend,
    lemma_load_config_extend, lemma_prefix_extends, lemma_relocs_extend, lemma_resources_extend,
    lemma_tls_extend,
};
use crate::io::pe::laws::headers::{
    file_fits, headers_survive, lemma_low, lemma_raw_size, reread, reread_section, reread_sections,
};
use crate::io::pe::laws::image::{image_holds, lemma_own_section_holds};
use crate::io::pe::laws::imports::{imports_placed, imports_survive, plain_imports};
use crate::io::pe::writer::{
    exports_match, export_section_name, file_plan, full_directories, import_section_name,
    imports_match, initial_plan, load_config_section_name, relocation_section_name,
    resource_section_name, tls_section_name, next_base, plan_exports, plan_imports,
    plan_load_config, plan_relocations, plan_resources, plan_tls, rendered_section,
    section_file_bytes, serialized, with_rendered, FilePlan,
};
use vstd::prelude::*;

verus! {

/// Whether a section's bytes are what is loaded back from the file: the stated
/// virtual size neither cuts nor pads them.
pub open spec fn section_stable(d: DocModel, s: SectionModel) -> bool {
    loaded(section_file_bytes(d, s), s.header.virtual_size) == s.data
}

/// A section whose virtual size is the length of its bytes is stable.
pub proof fn full_section_is_stable(d: DocModel, p: FilePlan, i: int)
    requires
        file_fits(d, p),
        0 <= i < p.sections.len(),
        p.sections[i].header.virtual_size == p.sections[i].data.len(),
        p.sections[i].data.len() > 0,
    ensures
        section_stable(d, p.sections[i]),
{
    let s = p.sections[i];
    lemma_raw_size(d, p, i);
    assert(loaded(section_file_bytes(d, s), s.header.virtual_size) =~= s.data);
}

/// Whether section `i` lies above address 0 and all sections before it, and
/// below the top of the address space.
pub open spec fn above(sections: Seq<SectionModel>, i: int) -> bool {
    let va = sections[i].header.virtual_address.0;
    &&& 0 < va
    &&& va + sections[i].data.len() <= u32::MAX
    &&& forall|j: int| 0 <= j < i ==> section_end(#[trigger] sections[j]) <= va
}

/// Whether every section from `k` on lies above those before it.
pub open spec fn stacked(sections: Seq<SectionModel>, k: int) -> bool {
    forall|i: int| k <= i < sections.len() ==> #[trigger] above(sections, i)
}

/// Sections with the same addresses and bytes make the same image.
proof fn lemma_same_image(a: Seq<SectionModel>, b: Seq<SectionModel>, r: u32, n: nat)
    requires
        a.len() == b.len(),
        forall|i: int|
            0 <= i < a.len() ==> (#[trigger] a[i]).header.virtual_address
                == b[i].header.virtual_address && a[i].data == b[i].data,
    ensures
        image_read(a, r, n) == image_read(b, r, n),
{
    lemma_locate(a, r);
    lemma_locate(b, r);
    assert forall|j: int| 0 <= j < a.len() implies covers(a[j], r) == covers(b[j], r) by {}
    match locate(a, r) {
        Some(i) => {
            assert(covers(b[i], r));
            assert(locate(b, r) is Some);
            let j = locate(b, r)->0;
            assert(covers(a[j], r));
            assert(i == j);
        },
        None => {
            if let Some(j) = locate(b, r) {
                assert(covers(a[j], r));
            }
        },
    }
}

/// Whether a document's image survives being written: it fits into a file, its
/// sections are loaded as they are, and the added sections have room above the
/// others.
pub open spec fn image_kept(d: DocModel) -> bool {
    let p = file_plan(d)->Ok_0;
    &&& file_plan(d) is Ok
    &&& file_fits(d, p)
    &&& d.arch == header_arch(d.optional)
    &&& forall|i: int| 0 <= i < p.sections.len() ==> section_stable(d, #[trigger] p.sections[i])
    &&& stacked(p.sections, d.sections.len() as int)
}

/// Whether the import table of a document can be read back: there is none; or
/// the directory in the image already says the same and no added section
/// carries it on; or it is rendered, and its names can be read back.
pub open spec fn imports_ok(d: DocModel) -> bool {
    d.imports.len() == 0 || if imports_match(d) {
        imports_end_alike(
            d.sections,
            file_plan(d)->Ok_0.sections,
            full_directories(d.data_directories)[1].rva.0 as int,
            pointer_size(d.arch),
        )
    } else {
        plain_imports(d.imports) && imports_placed(
            d.imports,
            pointer_size(d.arch),
            next_base(d, initial_plan(d)),
        )
    }
}

/// Whether the export table of a document can be read back: there is none; or
/// the directory in the image already says the same; or it is rendered, every
/// symbol has a name and an ordinal of its own, and the texts can be read back.
pub open spec fn exports_ok(d: DocModel) -> bool {
    d.exports matches Some(t) ==> exports_match(d) || (named_apart(t.symbols) && plain_exports(t)
        && exports_placed(t, next_base(d, plan_imports(d, initial_plan(d))->Ok_0)))
}

/// Whether a written export table is the one read back. One that stands in the
/// image and names no module may have a name once there are more sections.
pub open spec fn exports_kept(
    written: Option<ExportTableModel>,
    read: Option<ExportTableModel>,
) -> bool {
    match (written, read) {
        (None, None) => true,
        (Some(w), Some(r)) => r == (ExportTableModel { module_name: r.module_name, ..w }) && (
        w.module_name is Some ==> r == w),
        _ => false,
    }
}

/// Whether the resources can be read back: they already stand in the image, or
/// they are rendered and every name can be read back.
pub open spec fn resources_ok(d: DocModel) -> bool {
    match d.resources {
        None => resources_of(d) is Some || present_directory(
            d.data_directories,
            DataDirectoryIndex::Resource,
        ) is None,
        Some(t) => resources_of(d) == d.resources || tree_sound(t) && (with_directory(
            Seq::empty(),
            t,
            0,
        ) matches Ok(b) ==> b.len() <= 0x7fff_ffff),
    }
}

/// Whether the relocations can be read back: they already stand in the image, or
/// they are rendered and every block can be.
pub open spec fn relocations_ok(d: DocModel) -> bool {
    match d.relocations {
        None => relocations_of(d) is Some || present_directory(
            d.data_directories,
            DataDirectoryIndex::BaseReloc,
        ) is None,
        Some(t) => relocations_of(d) == d.relocations || forall|j: int|
            0 <= j < t.len() ==> #[trigger] block_sound(t[j]),
    }
}

/// Whether the TLS directory can be read back: it already stands in the image, or
/// its values fit their fields.
pub open spec fn tls_ok(d: DocModel) -> bool {
    match d.tls {
        None => tls_in(d) is Some || present_directory(
            d.data_directories,
            DataDirectoryIndex::Tls,
        ) is None,
        Some(t) => tls_in(d) == d.tls || tls_fits(t, d.arch),
    }
}

/// Whether the load configuration can be read back: it already stands in the
/// image, or its values fit their fields.
pub open spec fn load_config_ok(d: DocModel) -> bool {
    match d.load_config {
        None => load_config_in(d) is Some || present_directory(
            d.data_directories,
            DataDirectoryIndex::LoadConfig,
        ) is None,
        Some(t) => load_config_in(d) == d.load_config || load_config_sound(t, d.arch),
    }
}

/// `p` comes from `q` by adding sections behind and changing directory entries
/// in the slots `s` and `t` only.
pub open spec fn grows(q: FilePlan, p: FilePlan, s: int, t: int) -> bool {
    &&& q.sections.len() <= p.sections.len()
    &&& p.sections.take(q.sections.len() as int) == q.sections
    &&& p.dirs.len() == q.dirs.len()
    &&& forall|i: int| 0 <= i < q.dirs.len() && i != s && i != t ==> #[trigger] p.dirs[i] == q.dirs[i]
}

/// The plan after each step.
pub open spec fn plan1(d: DocModel) -> FilePlan {
    plan_imports(d, initial_plan(d))->Ok_0
}

pub open spec fn plan2(d: DocModel) -> FilePlan {
    plan_exports(d, plan1(d))->Ok_0
}

pub open spec fn plan3(d: DocModel) -> FilePlan {
    plan_resources(d, plan2(d))->Ok_0
}

pub open spec fn plan4(d: DocModel) -> FilePlan {
    plan_relocations(d, plan3(d))
}

pub open spec fn plan5(d: DocModel) -> FilePlan {
    plan_tls(d, plan4(d))
}

pub open spec fn plan6(d: DocModel) -> FilePlan {
    plan_load_config(d, plan5(d))
}

proof fn lemma_take_push(a: Seq<SectionModel>, s: SectionModel)
    ensures
        a.push(s).take(a.len() as int) == a,
{
    assert(a.push(s).take(a.len() as int) =~= a);
}

proof fn lemma_same_grows(p: FilePlan, q: FilePlan, s: int, t: int)
    requires
        p.sections == q.sections,
        p.dirs.len() == q.dirs.len(),
        forall|i: int|
            0 <= i < q.dirs.len() && i != s && i != t ==> #[trigger] p.dirs[i] == q.dirs[i],
    ensures
        grows(q, p, s, t),
{
    assert(p.sections.take(q.sections.len() as int) =~= q.sections);
}

proof fn lemma_grows_imports(d: DocModel, q: FilePlan)
    requires
        plan_imports(d, q) is Ok,
        q.dirs.len() >= 16,
    ensures
        grows(q, plan_imports(d, q)->Ok_0, 1, 12),
{
    let va = next_base(d, q);
    if d.imports.len() == 0 || imports_match(d) {
        lemma_same_grows(plan_imports(d, q)->Ok_0, q, 1, 12);
    } else {
        let r = rendered_import(d.imports, d.arch, va)->Ok_0;
        lemma_take_push(q.sections, rendered_section(import_section_name(), va, r.blob));
    }
}

proof fn lemma_grows_exports(d: DocModel, q: FilePlan)
    requires
        plan_exports(d, q) is Ok,
        q.dirs.len() >= 16,
    ensures
        grows(q, plan_exports(d, q)->Ok_0, 0, 0),
{
    let va = next_base(d, q);
    if d.exports is None || exports_match(d) {
        lemma_same_grows(plan_exports(d, q)->Ok_0, q, 0, 0);
    } else {
        let r = rendered_export(d.exports->0, va)->Ok_0;
        lemma_take_push(q.sections, rendered_section(export_section_name(), va, r.blob));
    }
}

proof fn lemma_grows_rendered(
    d: DocModel,
    q: FilePlan,
    name: [u8; 8],
    index: DataDirectoryIndex,
    blob: Seq<u8>,
)
    requires
        q.dirs.len() >= 16,
    ensures
        grows(
            q,
            with_rendered(d, q, name, index, blob),
            directory_slot(index),
            directory_slot(index),
        ),
{
    lemma_take_push(q.sections, rendered_section(name, next_base(d, q), blob));
}

proof fn lemma_grows_resources(d: DocModel, q: FilePlan)
    requires
        plan_resources(d, q) is Ok,
        q.dirs.len() >= 16,
    ensures
        grows(q, plan_resources(d, q)->Ok_0, 2, 2),
{
    if resources_of(d) == d.resources || d.resources is None {
        lemma_same_grows(plan_resources(d, q)->Ok_0, q, 2, 2);
    } else {
        let b = with_directory(Seq::empty(), d.resources->0, 0)->Ok_0;
        lemma_grows_rendered(d, q, resource_section_name(), DataDirectoryIndex::Resource, b);
    }
}

proof fn lemma_grows_relocations(d: DocModel, q: FilePlan)
    requires
        q.dirs.len() >= 16,
    ensures
        grows(q, plan_relocations(d, q), 5, 5),
{
    if relocations_of(d) == d.relocations || d.relocations is None {
        lemma_same_grows(plan_relocations(d, q), q, 5, 5);
    } else {
        let b = reloc_bytes(d.relocations->0);
        lemma_grows_rendered(d, q, relocation_section_name(), DataDirectoryIndex::BaseReloc, b);
    }
}

proof fn lemma_grows_tls(d: DocModel, q: FilePlan)
    requires
        q.dirs.len() >= 16,
    ensures
        grows(q, plan_tls(d, q), 9, 9),
{
    if tls_in(d) == d.tls || d.tls is None {
        lemma_same_grows(plan_tls(d, q), q, 9, 9);
    } else {
        let b = tls_bytes(d.tls->0, d.arch);
        lemma_grows_rendered(d, q, tls_section_name(), DataDirectoryIndex::Tls, b);
    }
}

proof fn lemma_grows_load_config(d: DocModel, q: FilePlan)
    requires
        q.dirs.len() >= 16,
    ensures
        grows(q, plan_load_config(d, q), 10, 10),
{
    if load_config_in(d) == d.load_config || d.load_config is None {
        lemma_same_grows(plan_load_config(d, q), q, 10, 10);
    } else {
        let b = load_config_bytes(d.load_config->0, d.arch);
        lemma_grows_rendered(d, q, load_config_section_name(), DataDirectoryIndex::LoadConfig, b);
    }
}

pub proof fn lemma_grows(d: DocModel)
    requires
        file_plan(d) is Ok,
    ensures
        file_plan(d)->Ok_0 == plan6(d),
        initial_plan(d).dirs.len() >= 16,
        grows(initial_plan(d), plan1(d), 1, 12),
        grows(plan1(d), plan2(d), 0, 0),
        grows(plan2(d), plan3(d), 2, 2),
        grows(plan3(d), plan4(d), 5, 5),
        grows(plan4(d), plan5(d), 9, 9),
        grows(plan5(d), plan6(d), 10, 10),
{
    lemma_grows_imports(d, initial_plan(d));
    lemma_grows_exports(d, plan1(d));
    lemma_grows_resources(d, plan2(d));
    lemma_grows_relocations(d, plan3(d));
    lemma_grows_tls(d, plan4(d));
    lemma_grows_load_config(d, plan5(d));
}

/// The directories that the writer clears are clear in the final plan.
pub proof fn lemma_cleared(d: DocModel)
    requires
        file_plan(d) is Ok,
    ensures
        file_plan(d)->Ok_0.dirs.len() >= 16,
        d.imports.len() == 0 ==> file_plan(d)->Ok_0.dirs[1] == empty_directory() && file_plan(
            d,
        )->Ok_0.dirs[12] == empty_directory(),
        d.exports is None ==> file_plan(d)->Ok_0.dirs[0] == empty_directory(),
{
    lemma_grows(d);
    assert(plan6(d).dirs[1] == plan1(d).dirs[1]);
    assert(plan6(d).dirs[12] == plan1(d).dirs[12]);
    assert(plan6(d).dirs[0] == plan2(d).dirs[0]);
}

/// The sections of an earlier plan are the first of a later one.
proof fn lemma_prefix_of_prefix(a: Seq<SectionModel>, b: Seq<SectionModel>, c: Seq<SectionModel>)
    requires
        a.len() <= b.len() <= c.len(),
        b.take(a.len() as int) == a,
        c.take(b.len() as int) == b,
    ensures
        c.take(a.len() as int) == a,
{
    assert(c.take(a.len() as int) =~= c.take(b.len() as int).take(a.len() as int));
}

/// The sections of every plan are the first of the final one.
pub proof fn lemma_prefixes(d: DocModel)
    requires
        file_plan(d) is Ok,
    ensures
        ({
            let s = plan6(d).sections;
            &&& d.sections.len() <= plan1(d).sections.len() <= plan2(d).sections.len()
                <= plan3(d).sections.len() <= plan4(d).sections.len() <= plan5(d).sections.len()
                <= s.len()
            &&& s.take(d.sections.len() as int) == d.sections
            &&& s.take(plan1(d).sections.len() as int) == plan1(d).sections
            &&& s.take(plan2(d).sections.len() as int) == plan2(d).sections
            &&& s.take(plan3(d).sections.len() as int) == plan3(d).sections
            &&& s.take(plan4(d).sections.len() as int) == plan4(d).sections
            &&& s.take(plan5(d).sections.len() as int) == plan5(d).sections
        }),
{
    lemma_grows(d);
    let s = plan6(d).sections;
    lemma_prefix_of_prefix(plan4(d).sections, plan5(d).sections, s);
    lemma_prefix_of_prefix(plan3(d).sections, plan4(d).sections, s);
    lemma_prefix_of_prefix(plan2(d).sections, plan3(d).sections, s);
    lemma_prefix_of_prefix(plan1(d).sections, plan2(d).sections, s);
    lemma_prefix_of_prefix(initial_plan(d).sections, plan1(d).sections, s);
}

/// A section rendered behind the sections of `q` holds its bytes in the final
/// image.
proof fn lemma_rendered_holds(
    d: DocModel,
    s: Seq<SectionModel>,
    q: FilePlan,
    name: [u8; 8],
    blob: Seq<u8>,
)
    requires
        d.sections.len() <= q.sections.len() < s.len(),
        s.take(q.sections.len() as int + 1) == q.sections.push(
            rendered_section(name, next_base(d, q), blob),
        ),
        stacked(s, d.sections.len() as int),
        forall|i: int| 0 <= i < s.len() ==> section_stable(d, #[trigger] s[i]),
    ensures
        image_holds(reread_sections(d, s), next_base(d, q), blob),
        next_base(d, q) > 0,
        s[q.sections.len() as int] == rendered_section(name, next_base(d, q), blob),
{
    let k = q.sections.len() as int;
    assert(above(s, k));
    assert(s[k] == s.take(k + 1)[k]);
    assert(s[k].header.virtual_address.0 == next_base(d, q));
    assert(s[k].data == blob);
    lemma_own_section_holds(s, k);
    let rs = reread_sections(d, s);
    let base = next_base(d, q);
    assert forall|off: int, n: nat|
        #![trigger image_read(rs, (base + off) as u32, n)]
        0 <= off < blob.len() && off + n <= blob.len() implies image_read(
        rs,
        (base + off) as u32,
        n,
    ) == Some(blob.subrange(off, off + n)) by {
        lemma_same_image(rs, s, (base + off) as u32, n);
        assert(image_read(s, (base + off) as u32, n) == Some(blob.subrange(off, off + n)));
    }
}

/// The image that is read back holds everything that the document's own holds.
proof fn lemma_reread_image(d: DocModel)
    requires
        image_kept(d),
    ensures
        extends(d.sections, reread_sections(d, plan6(d).sections)),
        reread(d, plan6(d)).arch == d.arch,
        reread(d, plan6(d)).sections == reread_sections(d, plan6(d).sections),
        reread(d, plan6(d)).data_directories == plan6(d).dirs.take(16),
        forall|r: u32, n: nat| #[trigger]
            image_read(reread_sections(d, plan6(d).sections), r, n) == image_read(
                plan6(d).sections,
                r,
                n,
            ),
{
    let s = plan6(d).sections;
    let rs = reread_sections(d, s);
    lemma_grows(d);
    lemma_prefixes(d);
    lemma_prefix_extends(d.sections, s);
    assert forall|r: u32, n: nat| #[trigger] image_read(rs, r, n) == image_read(s, r, n) by {
        lemma_same_image(rs, s, r, n);
    }
    assert forall|r: u32, n: nat|
        #![trigger image_read(rs, r, n)]
        image_read(d.sections, r, n) is Some implies image_read(rs, r, n) == image_read(
        d.sections,
        r,
        n,
    ) by {
        lemma_same_image(rs, s, r, n);
        assert(image_read(s, r, n) == image_read(d.sections, r, n));
    }
}

proof fn lemma_imports(d: DocModel)
    requires
        image_kept(d),
        imports_ok(d),
    ensures
        imports_of(reread(d, plan6(d))) == d.imports,
{
    let s = plan6(d).sections;
    let rs = reread_sections(d, s);
    lemma_grows(d);
    lemma_prefixes(d);
    lemma_reread_image(d);
    let dirs = plan6(d).dirs.take(16);
    assert(dirs[1] == plan1(d).dirs[1]);
    let p0 = initial_plan(d);
    let ps = pointer_size(d.arch);
    if d.imports.len() == 0 {
        assert(dirs[1] == empty_directory());
        assert(d.imports =~= Seq::empty());
    } else if imports_match(d) {
        lemma_ends_alike_same(d.sections, s, rs, p0.dirs[1].rva.0 as int, ps);
        lemma_imports_extend(d.sections, rs, p0.dirs[1].rva.0 as int, ps);
    } else {
        let va = next_base(d, p0);
        let r = rendered_import(d.imports, d.arch, va)->Ok_0;
        lemma_rendered_holds(d, s, p0, import_section_name(), r.blob);
        let k = d.sections.len() as int;
        assert(s[k].data.len() == r.blob.len());
        imports_survive(rs, d.imports, ps, va);
    }
}

proof fn lemma_exports(d: DocModel)
    requires
        image_kept(d),
        exports_ok(d),
    ensures
        exports_kept(written_exports(d), exports_of(reread(d, plan6(d)))),
{
    let s = plan6(d).sections;
    let rs = reread_sections(d, s);
    lemma_grows(d);
    lemma_prefixes(d);
    lemma_reread_image(d);
    let dirs = plan6(d).dirs.take(16);
    assert(dirs[0] == plan2(d).dirs[0]);
    let p1 = plan1(d);
    assert(p1.dirs[0] == initial_plan(d).dirs[0]);
    match d.exports {
        None => {
            assert(dirs[0] == empty_directory());
        },
        Some(t) => {
            if exports_match(d) {
                lemma_exports_extend(d.sections, rs, dirs[0]);
            } else {
                let va = next_base(d, p1);
                let b = export_plan(t).blob(va, t.base);
                lemma_rendered_holds(d, s, p1, export_section_name(), b);
                exports_survive(rs, t, va);
            }
        },
    }
}

/// The export table that is read back from a written document: the table
/// itself, and where it had to be rendered, with the addresses of its
/// forwarder strings.
pub open spec fn written_exports(d: DocModel) -> Option<ExportTableModel> {
    match d.exports {
        None => None,
        Some(t) => if exports_match(d) {
            Some(t)
        } else {
            Some(reread_exports(t, next_base(d, plan_imports(d, initial_plan(d))->Ok_0)))
        },
    }
}

proof fn lemma_resources(d: DocModel)
    requires
        image_kept(d),
        resources_ok(d),
    ensures
        resources_of(reread(d, plan6(d))) == d.resources,
{
    let s = plan6(d).sections;
    let rs = reread_sections(d, s);
    lemma_grows(d);
    lemma_prefixes(d);
    lemma_reread_image(d);
    let dirs = plan6(d).dirs.take(16);
    assert(dirs[2] == plan3(d).dirs[2]);
    let p2 = plan2(d);
    assert(p2.dirs[2] == initial_plan(d).dirs[2]);
    lemma_full_directory(d, DataDirectoryIndex::Resource);
    if resources_of(d) == d.resources {
        if let Some(t) = d.resources {
            lemma_resources_extend(d.sections, rs, dirs[2].rva.0, dirs[2].rva.0, 0);
        }
    } else {
        match d.resources {
            None => {
                assert(dirs[2] == empty_directory());
            },
            Some(t) => {
                let b = with_directory(Seq::empty(), t, 0)->Ok_0;
                lemma_rendered_holds(d, s, p2, resource_section_name(), b);
                resources_survive(rs, t, next_base(d, p2));
            },
        }
    }
}

/// An entry of the padded directory array is present exactly when it is in the
/// document's own.
proof fn lemma_full_directory(d: DocModel, index: DataDirectoryIndex)
    ensures
        present_directory(full_directories(d.data_directories), index) == present_directory(
            d.data_directories,
            index,
        ),
        full_directories(d.data_directories).len() >= 16,
{
}

proof fn lemma_relocations(d: DocModel)
    requires
        image_kept(d),
        relocations_ok(d),
    ensures
        relocations_of(reread(d, plan6(d))) == d.relocations,
{
    let s = plan6(d).sections;
    let rs = reread_sections(d, s);
    lemma_grows(d);
    lemma_prefixes(d);
    lemma_reread_image(d);
    let dirs = plan6(d).dirs.take(16);
    assert(dirs[5] == plan4(d).dirs[5]);
    let p3 = plan3(d);
    assert(p3.dirs[5] == initial_plan(d).dirs[5]);
    lemma_full_directory(d, DataDirectoryIndex::BaseReloc);
    if relocations_of(d) == d.relocations {
        if let Some(t) = d.relocations {
            lemma_relocs_extend(d.sections, rs, dirs[5], 0);
        }
    } else {
        match d.relocations {
            None => {
                assert(dirs[5] == empty_directory());
            },
            Some(t) => {
                let b = reloc_bytes(t);
                lemma_rendered_holds(d, s, p3, relocation_section_name(), b);
                lemma_low(b.len());
                relocations_survive(rs, t, dirs[5]);
            },
        }
    }
}

proof fn lemma_tls(d: DocModel)
    requires
        image_kept(d),
        tls_ok(d),
    ensures
        tls_in(reread(d, plan6(d))) == d.tls,
{
    let s = plan6(d).sections;
    let rs = reread_sections(d, s);
    lemma_grows(d);
    lemma_prefixes(d);
    lemma_reread_image(d);
    let dirs = plan6(d).dirs.take(16);
    assert(dirs[9] == plan5(d).dirs[9]);
    let p4 = plan4(d);
    assert(p4.dirs[9] == initial_plan(d).dirs[9]);
    lemma_full_directory(d, DataDirectoryIndex::Tls);
    if tls_in(d) == d.tls {
        if let Some(t) = d.tls {
            lemma_tls_extend(d.sections, rs, d.arch, dirs[9]);
        }
    } else {
        match d.tls {
            None => {
                assert(dirs[9] == empty_directory());
            },
            Some(t) => {
                lemma_rendered_holds(d, s, p4, tls_section_name(), tls_bytes(t, d.arch));
                tls_survives(rs, t, d.arch, dirs[9]);
            },
        }
    }
}

proof fn lemma_load_config(d: DocModel)
    requires
        image_kept(d),
        load_config_ok(d),
    ensures
        load_config_in(reread(d, plan6(d))) == d.load_config,
{
    let s = plan6(d).sections;
    let rs = reread_sections(d, s);
    lemma_grows(d);
    lemma_prefixes(d);
    lemma_reread_image(d);
    let dirs = plan6(d).dirs.take(16);
    let p5 = plan5(d);
    assert(p5.dirs[10] == initial_plan(d).dirs[10]);
    lemma_full_directory(d, DataDirectoryIndex::LoadConfig);
    if load_config_in(d) == d.load_config {
        if let Some(t) = d.load_config {
            lemma_load_config_extend(d.sections, rs, d.arch, dirs[10]);
        }
    } else {
        match d.load_config {
            None => {
                assert(dirs[10] == empty_directory());
            },
            Some(t) => {
                let b = load_config_bytes(t, d.arch);
                let q = p5.sections.push(
                    rendered_section(load_config_section_name(), next_base(d, p5), b),
                );
                assert(s.take(p5.sections.len() as int + 1) =~= q);
                lemma_rendered_holds(d, s, p5, load_config_section_name(), b);
                load_config_survives(rs, t, d.arch, dirs[10]);
            },
        }
    }
}

/// Whether two sections have the same name, place and flags.
pub open spec fn same_section(a: SectionModel, b: SectionModel) -> bool {
    &&& a.header.name == b.header.name
    &&& a.header.virtual_address == b.header.virtual_address
    &&& a.header.virtual_size == b.header.virtual_size
    &&& a.header.characteristics == b.header.characteristics
}

/// The document read back from a written one.
pub open spec fn read_back(d: DocModel) -> DocModel {
    parsed(serialized(d)->Ok_0)->Ok_0
}

/// Whether `r` has the headers of `d`, but for the counts, sizes and offsets
/// that follow from how it was written.
pub open spec fn headers_kept(d: DocModel, r: DocModel) -> bool {
    &&& r.arch == header_arch(d.optional)
    &&& r.dos.words == d.dos.words
    &&& r.dos.stub == d.dos.stub
    &&& machine_code(r.coff.machine) == machine_code(d.coff.machine)
    &&& r.coff.time_date_stamp == d.coff.time_date_stamp
    &&& r.coff.characteristics == d.coff.characteristics
    &&& header_image_base(r.optional) == header_image_base(d.optional)
    &&& header_address_of_entry_point(r.optional) == header_address_of_entry_point(d.optional)
    &&& header_section_alignment(r.optional) == header_section_alignment(d.optional)
    &&& header_file_alignment(r.optional) == header_file_alignment(d.optional)
    &&& header_subsystem(r.optional) == header_subsystem(d.optional)
    &&& r.data_directories.len() == 16
}

/// Whether `r` begins with the sections of `d`, each with its bytes where they
/// are loaded as they are.
pub open spec fn sections_kept(d: DocModel, r: DocModel) -> bool {
    &&& d.sections.len() <= r.sections.len()
    &&& forall|i: int| 0 <= i < d.sections.len() ==> #[trigger] same_section(
        r.sections[i],
        d.sections[i],
    ) && (section_stable(d, d.sections[i]) ==> r.sections[i].data == d.sections[i].data)
}

/// A file that was written is read back: the headers but for the counts and
/// offsets that follow from the layout, and every section under its name, at
/// its address and with its flags; its bytes too, where they are loaded as they
/// are.
pub proof fn written_file_is_read_back(d: DocModel)
    requires
        file_plan(d) is Ok,
        file_fits(d, file_plan(d)->Ok_0),
    ensures
        serialized(d) is Ok,
        parsed(serialized(d)->Ok_0) is Ok,
        parsed(serialized(d)->Ok_0)->Ok_0 == enriched(reread(d, file_plan(d)->Ok_0)),
        headers_kept(d, read_back(d)),
        sections_kept(d, read_back(d)),
{
    let p = file_plan(d)->Ok_0;
    let s = p.sections;
    lemma_grows(d);
    lemma_prefixes(d);
    headers_survive(d, p);
    machine_code_roundtrip(machine_code(d.coff.machine));
    let r = parsed(serialized(d)->Ok_0)->Ok_0;
    assert forall|i: int| 0 <= i < d.sections.len() implies #[trigger] same_section(
        r.sections[i],
        d.sections[i],
    ) && (section_stable(d, d.sections[i]) ==> r.sections[i].data == d.sections[i].data) by {
        assert(s[i] == s.take(d.sections.len() as int)[i]);
        assert(r.sections[i] == reread_section(d, s, i));
    }
}

proof fn lemma_read_back(d: DocModel)
    requires
        image_kept(d),
    ensures
        read_back(d) == enriched(reread(d, plan6(d))),
{
    lemma_grows(d);
    written_file_is_read_back(d);
}

/// The imports of a document are read back.
pub proof fn written_imports_are_kept(d: DocModel)
    requires
        image_kept(d),
        imports_ok(d),
    ensures
        read_back(d).imports == d.imports,
{
    lemma_read_back(d);
    lemma_imports(d);
}

/// The exports of a document are read back.
pub proof fn written_exports_are_kept(d: DocModel)
    requires
        image_kept(d),
        exports_ok(d),
    ensures
        exports_kept(written_exports(d), read_back(d).exports),
{
    lemma_read_back(d);
    lemma_exports(d);
}

/// The resources of a document are read back.
pub proof fn written_resources_are_kept(d: DocModel)
    requires
        image_kept(d),
        resources_ok(d),
    ensures
        read_back(d).resources == d.resources,
{
    lemma_read_back(d);
    lemma_resources(d);
}

/// The relocations of a document are read back.
pub proof fn written_relocations_are_kept(d: DocModel)
    requires
        image_kept(d),
        relocations_ok(d),
    ensures
        read_back(d).relocations == d.relocations,
{
    lemma_read_back(d);
    lemma_relocations(d);
}

/// The TLS directory of a document is read back.
pub proof fn written_tls_is_kept(d: DocModel)
    requires
        image_kept(d),
        tls_ok(d),
    ensures
        read_back(d).tls == d.tls,
{
    lemma_read_back(d);
    lemma_tls(d);
}

/// The load configuration of a document is read back.
pub proof fn written_load_config_is_kept(d: DocModel)
    requires
        image_kept(d),
        load_config_ok(d),
    ensures
        read_back(d).load_config == d.load_config,
{
    lemma_read_back(d);
    lemma_load_config(d);
}

/// Reading a written document keeps its content: its headers, its sections with
/// their bytes, its imports and its exports, whatever its other directories
/// hold.
pub proof fn content_survives(d: DocModel)
    requires
        image_kept(d),
        imports_ok(d),
        exports_ok(d),
    ensures
        serialized(d) is Ok,
        parsed(serialized(d)->Ok_0) is Ok,
        ({
            let p = file_plan(d)->Ok_0;
            let r = read_back(d);
            &&& r.imports == d.imports
            &&& exports_kept(written_exports(d), r.exports)
            &&& r == (DocModel {
                imports: d.imports,
                exports: r.exports,
                resources: r.resources,
                relocations: r.relocations,
                tls: r.tls,
                load_config: r.load_config,
                ..reread(d, p)
            })
            &&& headers_kept(d, r)
            &&& sections_kept(d, r)
        }),
{
    written_file_is_read_back(d);
    written_imports_are_kept(d);
    written_exports_are_kept(d);
}

/// Where every directory can be read back, the whole document is.
pub proof fn document_survives(d: DocModel)
    requires
        image_kept(d),
        imports_ok(d),
        exports_ok(d),
        resources_ok(d),
        relocations_ok(d),
        tls_ok(d),
        load_config_ok(d),
    ensures
        serialized(d) is Ok,
        exports_kept(written_exports(d), read_back(d).exports),
        parsed(serialized(d)->Ok_0) == Ok::<DocModel, PeErrorModel>(
            DocModel {
                imports: d.imports,
                exports: read_back(d).exports,
                resources: d.resources,
                relocations: d.relocations,
                tls: d.tls,
                load_config: d.load_config,
                ..reread(d, file_plan(d)->Ok_0)
            },
        ),
{
    content_survives(d);
    written_resources_are_kept(d);
    written_relocations_are_kept(d);
    written_tls_is_kept(d);
    written_load_config_is_kept(d);
}

} // verus!

//! What the edits of a document leave of its tables.

use crate::api::directory_editor::{
    blocks_with, blocks_without, entries_without, entry_at, with_entry, without_resource,
};
use crate::api::editor::{added_section, with_directory};
use crate::api::exporter::{exports_with, exports_without, symbol_at, symbols_without};
use crate::api::importer::{
    imports_with, imports_without, merged_functions, module_at, rebuilt_imports_read_back,
    rebuilt_table, table_base, table_fits,
};
use crate::domain::data_directory::{directory_slot, DataDirectory, DataDirectoryIndex};
use crate::domain::document::{
    allocated_section, at_least_one, image_end, image_end_is_reached, lemma_len32, locate_raw,
    raw_covers, section_end, DocModel,
};
use crate::domain::export::{ExportSymbolModel, ExportTableModel};
use crate::domain::iat::{first_at, region_entries, region_entry, slot_count, IatEntry};
use crate::domain::import::{ImportDescriptorModel, ImportFunctionModel};
use crate::domain::optional::header_section_alignment;
use crate::domain::relocation::RelocationBlockModel;
use crate::domain::resource::{ResourceDataModel, ResourceEntryModel, ResourceNameModel};
use crate::domain::section::SectionModel;
use crate::domain::types::{align_up_is_least_multiple, Rva};
use crate::io::pe::decode::imports_of;
use crate::io::pe::laws::headers::lemma_low;
use crate::io::pe::laws::imports::plain_imports;
use crate::io::pe::laws::tables::{image_pointer, numbers_of_pointers};
use vstd::prelude::*;

verus! {

/// Whether descriptor `i` is the first of the named module.
pub open spec fn first_named(im: Seq<ImportDescriptorModel>, module: Seq<char>, i: int) -> bool {
    &&& 0 <= i < im.len()
    &&& im[i].name == module
    &&& forall|j: int| 0 <= j < i ==> (#[trigger] im[j]).name != module
}

/// Whether the table has a descriptor of the module.
pub open spec fn names_module(im: Seq<ImportDescriptorModel>, module: Seq<char>) -> bool {
    exists|i: int| 0 <= i < im.len() && (#[trigger] im[i]).name == module
}

proof fn lemma_module_at(im: Seq<ImportDescriptorModel>, module: Seq<char>)
    ensures
        module_at(im, module) matches Some(i) ==> first_named(im, module, i),
        module_at(im, module) is None ==> !names_module(im, module),
    decreases im.len(),
{
    if im.len() > 0 {
        let d = im.drop_last();
        lemma_module_at(d, module);
        assert forall|j: int| 0 <= j < d.len() implies d[j] == im[j] by {}
        if module_at(im, module) is None {
            assert forall|i: int| 0 <= i < im.len() implies (#[trigger] im[i]).name != module by {
                if i < d.len() {
                    assert(d[i].name != module);
                }
            }
        }
    }
}

proof fn lemma_merged(have: Seq<ImportFunctionModel>, more: Seq<ImportFunctionModel>)
    ensures
        ({
            let r = merged_functions(have, more);
            &&& have.len() <= r.len()
            &&& r.take(have.len() as int) == have
            &&& forall|k: int| 0 <= k < more.len() ==> r.contains(#[trigger] more[k])
            &&& forall|k: int|
                have.len() <= k < r.len() ==> more.contains(#[trigger] r[k]) && !r.take(k).contains(
                    r[k],
                )
        }),
    decreases more.len(),
{
    let r = merged_functions(have, more);
    if more.len() == 0 {
        assert(r.take(have.len() as int) =~= have);
    } else {
        let l = more.drop_last();
        let b = merged_functions(have, l);
        lemma_merged(have, l);
        assert(r.take(b.len() as int) =~= b);
        assert(r.take(have.len() as int) =~= b.take(have.len() as int));
        assert forall|k: int| 0 <= k < more.len() implies r.contains(#[trigger] more[k]) by {
            if k < l.len() {
                assert(b.contains(l[k]));
                let j = choose|j: int| 0 <= j < b.len() && b[j] == l[k];
                assert(r[j] == more[k]);
            } else if b.contains(more.last()) {
                let j = choose|j: int| 0 <= j < b.len() && b[j] == more.last();
                assert(r[j] == more[k]);
            } else {
                assert(r[b.len() as int] == more[k]);
            }
        }
        assert forall|k: int| have.len() <= k < r.len() implies more.contains(#[trigger] r[k])
            && !r.take(k).contains(r[k]) by {
            if k < b.len() {
                assert(b[k] == r[k]);
                assert(r.take(k) =~= b.take(k));
                let j = choose|j: int| 0 <= j < l.len() && l[j] == b[k];
                assert(more[j] == r[k]);
            } else {
                assert(r.take(k) =~= b);
                assert(more[more.len() - 1] == r[k]);
            }
        }
    }
}

/// Adding imports of a module the table already names puts those it lacks behind
/// the ones it has, in the first descriptor of that name, and leaves the other
/// descriptors alone; of another module it adds one descriptor at the end.
pub proof fn added_imports_join_their_module(
    im: Seq<ImportDescriptorModel>,
    module: Seq<char>,
    functions: Seq<ImportFunctionModel>,
    i: int,
)
    ensures
        !names_module(im, module) ==> imports_with(im, module, functions) == im.push(
            ImportDescriptorModel { name: module, functions },
        ),
        first_named(im, module, i) ==> ({
            let r = imports_with(im, module, functions);
            let have = im[i].functions;
            let now = r[i].functions;
            &&& r.len() == im.len()
            &&& forall|j: int| 0 <= j < im.len() && j != i ==> #[trigger] r[j] == im[j]
            &&& r[i].name == module
            &&& have.len() <= now.len()
            &&& now.take(have.len() as int) == have
            &&& forall|k: int| 0 <= k < functions.len() ==> now.contains(#[trigger] functions[k])
            &&& forall|k: int|
                have.len() <= k < now.len() ==> functions.contains(#[trigger] now[k])
                    && !now.take(k).contains(now[k])
        }),
{
    lemma_module_at(im, module);
    if first_named(im, module, i) {
        assert(im[i].name == module);
        assert(names_module(im, module));
        let k = module_at(im, module)->0;
        assert(k == i) by {
            if k < i {
                assert(im[k].name != module);
            } else if i < k {
                assert(im[i].name != module);
            }
        }
        lemma_merged(im[i].functions, functions);
    }
}

/// Removing a module removes every descriptor of that name and no other.
pub proof fn removed_imports_are_gone(im: Seq<ImportDescriptorModel>, module: Seq<char>)
    ensures
        imports_without(im, module) == im.filter(|d: ImportDescriptorModel| d.name != module),
        module_at(im, module) is Some <==> names_module(im, module),
    decreases im.len(),
{
    reveal(Seq::filter);
    lemma_module_at(im, module);
    if im.len() > 0 {
        removed_imports_are_gone(im.drop_last(), module);
    }
    if let Some(i) = module_at(im, module) {
        assert(im[i].name == module);
    }
}

/// A rebuilt import table is the one that the document's import directory then
/// points at: reading it gives the imports.
pub proof fn rebuilt_imports_are_pointed_at(d: DocModel, im: Seq<ImportDescriptorModel>)
    requires
        table_fits(d, im),
        plain_imports(im),
        table_base(d) > 0,
    ensures
        rebuilt_table(d, im).1 is Ok,
        imports_of(rebuilt_table(d, im).0) == im,
        rebuilt_table(d, im).0.data_directories[1].rva.0 == rebuilt_table(d, im).1->Ok_0.rva.0,
        rebuilt_table(d, im).0.data_directories[1].size == rebuilt_table(d, im).1->Ok_0.size,
        rebuilt_table(d, im).0.data_directories[12].rva == rebuilt_table(d, im).1->Ok_0.iat_rva,
        rebuilt_table(d, im).0.data_directories[12].size == rebuilt_table(d, im).1->Ok_0.iat_size,
{
    rebuilt_imports_read_back(d, im);
}

/// Whether symbol `i` is the first with the ordinal.
pub open spec fn first_numbered(s: Seq<ExportSymbolModel>, ordinal: u16, i: int) -> bool {
    &&& 0 <= i < s.len()
    &&& s[i].ordinal == ordinal
    &&& forall|j: int| 0 <= j < i ==> (#[trigger] s[j]).ordinal != ordinal
}

/// Whether some symbol has the ordinal.
pub open spec fn numbers_symbol(s: Seq<ExportSymbolModel>, ordinal: u16) -> bool {
    exists|i: int| 0 <= i < s.len() && (#[trigger] s[i]).ordinal == ordinal
}

proof fn lemma_symbol_at(s: Seq<ExportSymbolModel>, ordinal: u16)
    ensures
        symbol_at(s, ordinal) matches Some(i) ==> first_numbered(s, ordinal, i),
        symbol_at(s, ordinal) is None ==> !numbers_symbol(s, ordinal),
    decreases s.len(),
{
    if s.len() > 0 {
        let d = s.drop_last();
        lemma_symbol_at(d, ordinal);
        assert forall|j: int| 0 <= j < d.len() implies d[j] == s[j] by {}
        if symbol_at(s, ordinal) is None {
            assert forall|i: int| 0 <= i < s.len() implies (#[trigger] s[i]).ordinal != ordinal by {
                if i < d.len() {
                    assert(d[i].ordinal != ordinal);
                }
            }
        }
    }
}

/// Adding an export puts it in the place of the first symbol with its ordinal,
/// or at the end where there is none; the other symbols, the base and the
/// module's name stay. A document without a table gets one without a name and
/// with base 0.
pub proof fn added_export_has_its_ordinal(
    exports: Option<ExportTableModel>,
    s: ExportSymbolModel,
    i: int,
)
    ensures
        ({
            let r = exports_with(exports, s);
            let have = match exports {
                Some(t) => t.symbols,
                None => Seq::empty(),
            };
            &&& exports matches Some(t) ==> r.module_name == t.module_name && r.base == t.base
            &&& exports is None ==> r.module_name is None && r.base == 0
            &&& r.symbols.len() <= u32::MAX ==> r.number_of_functions == r.symbols.len()
            &&& !numbers_symbol(have, s.ordinal) ==> r.symbols == have.push(s)
            &&& first_numbered(have, s.ordinal, i) ==> {
                &&& r.symbols.len() == have.len()
                &&& r.symbols[i] == s
                &&& forall|j: int| 0 <= j < have.len() && j != i ==> #[trigger] r.symbols[j] == have[j]
            }
        }),
{
    let have = match exports {
        Some(t) => t.symbols,
        None => Seq::empty(),
    };
    lemma_symbol_at(have, s.ordinal);
    lemma_low(exports_with(exports, s).symbols.len());
    if first_numbered(have, s.ordinal, i) {
        assert(have[i].ordinal == s.ordinal);
        assert(numbers_symbol(have, s.ordinal));
        let k = symbol_at(have, s.ordinal)->0;
        assert(k == i) by {
            if k < i {
                assert(have[k].ordinal != s.ordinal);
            } else if i < k {
                assert(have[i].ordinal != s.ordinal);
            }
        }
    }
}

proof fn lemma_symbols_without(s: Seq<ExportSymbolModel>, ordinal: u16)
    ensures
        symbols_without(s, ordinal) == s.filter(|x: ExportSymbolModel| x.ordinal != ordinal),
    decreases s.len(),
{
    reveal(Seq::filter);
    if s.len() > 0 {
        lemma_symbols_without(s.drop_last(), ordinal);
    }
}

/// Removing an export removes every symbol with that ordinal and no other, and
/// the table with its last symbol. It is refused where no symbol has the
/// ordinal.
pub proof fn removed_export_is_gone(exports: Option<ExportTableModel>, ordinal: u16)
    ensures
        exports_without(exports, ordinal) is Ok <==> (exports matches Some(t) && numbers_symbol(
            t.symbols,
            ordinal,
        )),
        exports matches Some(t) && numbers_symbol(t.symbols, ordinal) ==> ({
            let kept = exports->0.symbols.filter(|x: ExportSymbolModel| x.ordinal != ordinal);
            let r = exports_without(exports, ordinal)->Ok_0;
            &&& kept.len() == 0 ==> r is None
            &&& kept.len() > 0 ==> r is Some && r->0.symbols == kept && r->0.base
                == exports->0.base && r->0.module_name == exports->0.module_name
            &&& 0 < kept.len() <= u32::MAX ==> r->0.number_of_functions == kept.len()
        }),
{
    if let Some(t) = exports {
        lemma_symbol_at(t.symbols, ordinal);
        lemma_symbols_without(t.symbols, ordinal);
        lemma_low(symbols_without(t.symbols, ordinal).len());
        if let Some(i) = symbol_at(t.symbols, ordinal) {
            assert(t.symbols[i].ordinal == ordinal);
        }
    }
}

/// Relocation blocks are appended at the end and removed by their number.
pub proof fn relocation_blocks_keep_their_order(
    blocks: Option<Seq<RelocationBlockModel>>,
    b: RelocationBlockModel,
    n: nat,
)
    ensures
        ({
            let have = match blocks {
                Some(x) => x,
                None => Seq::empty(),
            };
            &&& blocks_with(blocks, b) == have.push(b)
            &&& blocks_without(blocks, n) is Ok <==> n < have.len()
            &&& n < have.len() ==> blocks_without(blocks, n)->Ok_0 == have.take(n as int)
                + have.skip(n + 1 as int)
        }),
{
    let have = match blocks {
        Some(x) => x,
        None => Seq::empty(),
    };
    assert(blocks_with(blocks, b) =~= have.push(b));
    if n < have.len() {
        assert(have.remove(n as int) =~= have.take(n as int) + have.skip(n + 1 as int));
    }
}

/// Whether entry `i` is the first of that name.
pub open spec fn first_entry(
    e: Seq<ResourceEntryModel>,
    name: ResourceNameModel,
    i: int,
) -> bool {
    &&& 0 <= i < e.len()
    &&& e[i].name == name
    &&& forall|j: int| 0 <= j < i ==> (#[trigger] e[j]).name != name
}

/// Whether some entry has the name.
pub open spec fn names_entry(e: Seq<ResourceEntryModel>, name: ResourceNameModel) -> bool {
    exists|i: int| 0 <= i < e.len() && (#[trigger] e[i]).name == name
}

proof fn lemma_entry_at(e: Seq<ResourceEntryModel>, name: ResourceNameModel)
    ensures
        entry_at(e, name) matches Some(i) ==> first_entry(e, name, i),
        entry_at(e, name) is None ==> !names_entry(e, name),
    decreases e.len(),
{
    if e.len() > 0 {
        let d = e.drop_last();
        lemma_entry_at(d, name);
        assert forall|j: int| 0 <= j < d.len() implies d[j] == e[j] by {}
        if entry_at(e, name) is None {
            assert forall|i: int| 0 <= i < e.len() implies (#[trigger] e[i]).name != name by {
                if i < d.len() {
                    assert(d[i].name != name);
                }
            }
        }
    }
}

proof fn lemma_entries_without(e: Seq<ResourceEntryModel>, name: ResourceNameModel)
    ensures
        entries_without(e, name) == e.filter(|x: ResourceEntryModel| x.name != name),
    decreases e.len(),
{
    reveal(Seq::filter);
    if e.len() > 0 {
        lemma_entries_without(e.drop_last(), name);
    }
}

/// Removing a resource removes every entry of that name under its type, and the
/// type with its last entry; the other types stay. It is refused where the type
/// or the name is not there.
pub proof fn removed_resource_is_gone(
    root: Seq<ResourceEntryModel>,
    type_id: u32,
    name: ResourceNameModel,
    i: int,
    entries: Seq<ResourceEntryModel>,
)
    requires
        first_entry(root, ResourceNameModel::Id(type_id), i),
        root[i].data == ResourceDataModel::Directory(entries),
    ensures
        without_resource(Some(root), type_id, name) is Ok <==> names_entry(entries, name),
        names_entry(entries, name) ==> ({
            let kept = entries.filter(|x: ResourceEntryModel| x.name != name);
            let r = without_resource(Some(root), type_id, name)->Ok_0;
            &&& kept.len() == 0 ==> r == root.remove(i)
            &&& kept.len() > 0 ==> {
                &&& r.len() == root.len()
                &&& r[i].name == ResourceNameModel::Id(type_id)
                &&& r[i].data == ResourceDataModel::Directory(kept)
                &&& forall|j: int| 0 <= j < root.len() && j != i ==> #[trigger] r[j] == root[j]
            }
        }),
{
    let kind = ResourceNameModel::Id(type_id);
    lemma_entry_at(root, kind);
    lemma_entry_at(entries, name);
    lemma_entries_without(entries, name);
    assert(root[i].name == kind);
    assert(names_entry(root, kind));
    let k = entry_at(root, kind)->0;
    assert(k == i) by {
        if k < i {
            assert(root[k].name != kind);
        } else if i < k {
            assert(root[i].name != kind);
        }
    }
    if let Some(n) = entry_at(entries, name) {
        assert(entries[n].name == name);
    }
}

/// Where a resource tree has no such type or no such name, nothing is removed.
pub proof fn absent_resource_is_not_removed(
    root: Option<Seq<ResourceEntryModel>>,
    type_id: u32,
    name: ResourceNameModel,
)
    ensures
        root is None ==> without_resource(root, type_id, name) is Err,
        root matches Some(r) && !names_entry(r, ResourceNameModel::Id(type_id))
            ==> without_resource(root, type_id, name) is Err,
{
    if let Some(r) = root {
        lemma_entry_at(r, ResourceNameModel::Id(type_id));
        if let Some(i) = entry_at(r, ResourceNameModel::Id(type_id)) {
            assert(r[i].name == ResourceNameModel::Id(type_id));
        }
    }
}

/// Setting an entry of a resource directory replaces the first of its name, or
/// adds one at the end; the others stay.
pub proof fn set_entry_stands_under_its_name(
    e: Seq<ResourceEntryModel>,
    name: ResourceNameModel,
    data: ResourceDataModel,
    i: int,
)
    ensures
        !names_entry(e, name) ==> with_entry(e, name, data) == e.push(
            ResourceEntryModel { name, data },
        ),
        first_entry(e, name, i) ==> ({
            let r = with_entry(e, name, data);
            &&& r.len() == e.len()
            &&& r[i] == (ResourceEntryModel { name, data })
            &&& forall|j: int| 0 <= j < e.len() && j != i ==> #[trigger] r[j] == e[j]
        }),
{
    lemma_entry_at(e, name);
    if first_entry(e, name, i) {
        assert(e[i].name == name);
        assert(names_entry(e, name));
        let k = entry_at(e, name)->0;
        assert(k == i) by {
            if k < i {
                assert(e[k].name != name);
            } else if i < k {
                assert(e[i].name != name);
            }
        }
    }
}

/// A section that is added has the name, the flags and the bytes it was given,
/// and begins at the least multiple of the section alignment that lies behind
/// all sections.
pub proof fn added_section_lies_behind_the_others(
    d: DocModel,
    name: [u8; 8],
    characteristics: u32,
    data: Seq<u8>,
)
    requires
        data.len() <= u32::MAX,
        image_end(d.sections) + at_least_one(header_section_alignment(d.optional)) <= u32::MAX,
        forall|i: int| 0 <= i < d.sections.len() ==> (#[trigger] d.sections[i]).data.len()
            <= u32::MAX,
    ensures
        ({
            let s = added_section(d, name, characteristics, data);
            let va = s.header.virtual_address.0 as int;
            let sa = at_least_one(header_section_alignment(d.optional)) as int;
            &&& s.header.name == name
            &&& s.header.characteristics == characteristics
            &&& s.header.virtual_size == data.len()
            &&& s.data == data
            &&& va % sa == 0
            &&& forall|i: int|
                0 <= i < d.sections.len() ==> (#[trigger] d.sections[i]).header.virtual_address.0
                    + d.sections[i].data.len() <= va
            &&& d.sections.len() > 0 ==> exists|i: int|
                0 <= i < d.sections.len() && va < (
                #[trigger] d.sections[i]).header.virtual_address.0 + d.sections[i].data.len() + sa
            &&& d.sections.len() == 0 ==> va == 0
        }),
{
    crate::domain::document::image_size_holds_all_sections(
        d.sections,
        at_least_one(header_section_alignment(d.optional)),
    );
    lemma_small(data.len());
}

proof fn lemma_small(n: nat)
    requires
        n <= u32::MAX,
    ensures
        n as u32 == n,
{
}

/// Allocated bytes are zero, readable and writable, and lie behind all sections.
pub proof fn allocated_bytes_are_zero(sections: Seq<SectionModel>, size: nat, alignment: u32)
    requires
        size <= u32::MAX,
        image_end(sections) + at_least_one(alignment) <= u32::MAX,
    ensures
        ({
            let s = allocated_section(sections, size, alignment);
            let va = s.header.virtual_address.0;
            &&& s.data.len() == size
            &&& forall|i: int| 0 <= i < size ==> #[trigger] s.data[i] == 0
            &&& s.header.virtual_size == size
            &&& s.header.characteristics == 0xc000_0040
            &&& va as int % at_least_one(alignment) as int == 0
            &&& forall|i: int| 0 <= i < sections.len() ==> section_end(#[trigger] sections[i]) <= va
        }),
{
    align_up_is_least_multiple(image_end(sections), at_least_one(alignment));
    image_end_is_reached(sections);
    assert(0x40u32 | 0x4000_0000u32 | 0x8000_0000u32 == 0xc000_0040u32) by (bit_vector);
}

/// Whether the bytes of a section in the file take up the offset `o`.
pub open spec fn holds_raw(s: SectionModel, o: u32) -> bool {
    s.header.pointer_to_raw_data.0 <= o < s.header.pointer_to_raw_data.0 + s.data.len() && o
        < u32::MAX
}

/// A file offset belongs to the first section whose bytes take it up.
pub proof fn offsets_belong_to_the_first_section(sections: Seq<SectionModel>, o: u32, i: int)
    requires
        forall|j: int| 0 <= j < sections.len() ==> (#[trigger] sections[j]).data.len() <= u32::MAX,
    ensures
        (forall|j: int| 0 <= j < sections.len() ==> !holds_raw(#[trigger] sections[j], o))
            ==> locate_raw(sections, o) is None,
        0 <= i < sections.len() && holds_raw(sections[i], o) && (forall|j: int|
            0 <= j < i ==> !holds_raw(#[trigger] sections[j], o)) ==> locate_raw(sections, o)
            == Some(i),
    decreases sections.len(),
{
    if sections.len() > 0 {
        let d = sections.drop_last();
        let l = sections.len() - 1;
        lemma_len32(sections[l]);
        assert(raw_covers(sections[l], o) == holds_raw(sections[l], o));
        assert forall|j: int| 0 <= j < d.len() implies (#[trigger] d[j]).data.len() <= u32::MAX by {
            assert(d[j] == sections[j]);
        }
        offsets_belong_to_the_first_section(d, o, i);
        if forall|j: int| 0 <= j < sections.len() ==> !holds_raw(#[trigger] sections[j], o) {
            assert forall|j: int| 0 <= j < d.len() implies !holds_raw(#[trigger] d[j], o) by {
                assert(d[j] == sections[j]);
            }
        }
        if 0 <= i < sections.len() && holds_raw(sections[i], o) && (forall|j: int|
            0 <= j < i ==> !holds_raw(#[trigger] sections[j], o)) {
            if i == l {
                assert forall|j: int| 0 <= j < d.len() implies !holds_raw(#[trigger] d[j], o) by {
                    assert(d[j] == sections[j]);
                }
            } else {
                assert(d[i] == sections[i]);
                assert forall|j: int| 0 <= j < i implies !holds_raw(#[trigger] d[j], o) by {
                    assert(d[j] == sections[j]);
                }
            }
        }
    }
}

/// Setting a directory entry sets that one; the others stay, and the array grows
/// with empty ones where it was too short.
pub proof fn set_directory_stands_alone(
    dirs: Seq<DataDirectory>,
    index: DataDirectoryIndex,
    rva: Rva,
    size: u32,
    j: int,
)
    ensures
        ({
            let n = directory_slot(index) as int;
            let r = with_directory(dirs, index, rva, size);
            &&& r.len() == if dirs.len() > n {
                dirs.len() as int
            } else {
                n + 1
            }
            &&& r[n].rva == rva && r[n].size == size
            &&& 0 <= j < dirs.len() && j != n ==> r[j] == dirs[j]
            &&& dirs.len() <= j < n ==> r[j].rva.0 == 0 && r[j].size == 0
        }),
{
}

proof fn lemma_region(sections: Seq<SectionModel>, rva: u32, ps: nat, n: nat)
    requires
        ps == 4 || ps == 8,
        rva + n * ps <= u32::MAX,
    ensures
        ({
            let r = region_entries(sections, rva, ps, n);
            &&& r.len() <= n
            &&& forall|k: int|
                0 <= k < r.len() ==> (#[trigger] r[k]).rva.0 == rva + k * ps && image_pointer(
                    sections,
                    rva + k * ps,
                    ps,
                ) == Some(r[k].value)
            &&& r.len() < n ==> image_pointer(sections, rva + r.len() * ps, ps) is None
        }),
    decreases n,
{
    if n > 0 {
        let m = (n - 1) as nat;
        assert(m * ps + ps == n * ps) by (nonlinear_arith)
            requires
                m + 1 == n,
        ;
        lemma_region(sections, rva, ps, m);
        lemma_low(m * ps);
        numbers_of_pointers(sections, (rva + m * ps) as int, ps);
        assert(region_entry(sections, rva, ps, m) is Ok <==> image_pointer(
            sections,
            (rva + m * ps) as int,
            ps,
        ) is Some);
    }
}

/// Adding a region to a table adds a slot for every pointer of it, one after the
/// other from its beginning, with the value that the image holds there, up to
/// the first that cannot be read.
pub proof fn added_region_has_its_slots(
    sections: Seq<SectionModel>,
    rva: u32,
    ps: nat,
    size: nat,
)
    requires
        ps == 4 || ps == 8,
        rva + size + ps <= u32::MAX,
    ensures
        ({
            let n = slot_count(size, ps);
            let r = region_entries(sections, rva, ps, n);
            &&& (n - 1) * ps < size <= n * ps
            &&& r.len() <= n
            &&& forall|k: int|
                0 <= k < r.len() ==> (#[trigger] r[k]).rva.0 == rva + k * ps && image_pointer(
                    sections,
                    rva + k * ps,
                    ps,
                ) == Some(r[k].value)
            &&& r.len() < n ==> image_pointer(sections, rva + r.len() * ps, ps) is None
        }),
{
    let n = slot_count(size, ps);
    if ps == 4 {
        assert((n - 1) * 4 < size <= n * 4);
    } else {
        assert((n - 1) * 8 < size <= n * 8);
    }
    assert((n - 1) * ps == n * ps - ps) by (nonlinear_arith);
    assert(n * ps == (if ps == 4 { n * 4 } else { n * 8 })) by (nonlinear_arith)
        requires
            ps == 4 || ps == 8,
    ;
    lemma_region(sections, rva, ps, n);
}

/// Removing an address from a table removes its first entry there and no other.
pub proof fn removed_slot_is_the_first(s: Seq<IatEntry>, rva: Rva, i: int)
    ensures
        (forall|j: int| 0 <= j < s.len() ==> (#[trigger] s[j]).rva != rva) <==> first_at(s, rva)
            is None,
        0 <= i < s.len() && s[i].rva == rva && (forall|j: int|
            0 <= j < i ==> (#[trigger] s[j]).rva != rva) ==> first_at(s, rva) == Some(i),
    decreases s.len(),
{
    if s.len() > 0 {
        let d = s.drop_last();
        removed_slot_is_the_first(d, rva, i);
        assert forall|j: int| 0 <= j < d.len() implies d[j] == s[j] by {}
        if first_at(s, rva) is None {
            assert forall|j: int| 0 <= j < s.len() implies (#[trigger] s[j]).rva != rva by {
                if j < d.len() {
                    assert(d[j].rva != rva);
                }
            }
        }
        if forall|j: int| 0 <= j < s.len() ==> (#[trigger] s[j]).rva != rva {
            assert(s[s.len() - 1].rva != rva);
            assert forall|j: int| 0 <= j < d.len() implies (#[trigger] d[j]).rva != rva by {
                assert(s[j].rva != rva);
            }
        }
        if 0 <= i < s.len() && s[i].rva == rva && (forall|j: int|
            0 <= j < i ==> (#[trigger] s[j]).rva != rva) {
            assert forall|j: int| 0 <= j < i && j < d.len() implies (#[trigger] d[j]).rva != rva by {
                assert(s[j].rva != rva);
            }
            if i < d.len() {
                assert(d[i].rva == rva);
            }
        }
    }
}

} // verus!

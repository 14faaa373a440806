//! What the command line prints of a document, and its checks.

use crate::api::importer::function_total;
use crate::domain::data_directory::{
    directory_name, directory_slot, DataDirectory, DataDirectoryIndex,
};
use crate::domain::document::{image_read, opt_view, DocModel, PeDocument};
use crate::domain::export::{
    opt_text, ExportSymbol, ExportSymbolModel, ExportTable, ExportTableModel,
};
use crate::domain::import::{
    lemma_views_push, same_imports, views, ImportDescriptor, ImportDescriptorModel,
    ImportFunctionModel,
};
use crate::domain::load_config::LoadConfigDirectory;
use crate::domain::optional::{header_address_of_entry_point, header_image_base, header_subsystem};
use crate::domain::relocation::{RelocationBlockModel, RelocationTable};
use crate::domain::resource::{
    lemma_directory_model, ResourceDataModel, ResourceDirectory, ResourceEntry, ResourceEntryData,
    ResourceEntryModel,
};
use crate::domain::section::{Section, SectionModel};
use crate::domain::tls::TlsDirectory;
use crate::domain::types::{Arch, Machine};
use crate::io::pe::decode::parsed;
use crate::io::pe::parser::parse;
use crate::io::pe::writer::{serialize, serialized, writable};
use crate::text::{debug_quoted, dec_text, hex_text, push_dec, push_hex, quoted};
use crate::ui::format::{
    dec_string, hex_string, join_texts, joined, left_in, push_left, push_right, right_in,
};
use crate::ui::search::section_name;
use vstd::prelude::*;
use vstd::string::*;

verus! {

/// A count held at the largest `usize`.
pub open spec fn capped(n: nat) -> nat {
    if n <= usize::MAX {
        n
    } else {
        usize::MAX as nat
    }
}

/// An architecture as its debug text.
pub open spec fn arch_debug(a: Arch) -> Seq<char> {
    match a {
        Arch::Bit32 => "Bit32"@,
        Arch::Bit64 => "Bit64"@,
    }
}

/// A machine as its debug text.
pub open spec fn machine_debug(m: Machine) -> Seq<char> {
    match m {
        Machine::I386 => "I386"@,
        Machine::Amd64 => "Amd64"@,
        Machine::Arm64 => "Arm64"@,
        Machine::Unknown(v) => "Unknown("@ + dec_text(v as nat) + ")"@,
    }
}

/// The two lines on the headers.
pub open spec fn header_lines(d: DocModel) -> Seq<Seq<char>> {
    seq![
        "arch: "@ + arch_debug(d.arch) + ", machine: "@ + machine_debug(d.coff.machine),
        "image_base: "@ + hex_text(header_image_base(d.optional) as nat) + ", entry: "@ + hex_text(
            header_address_of_entry_point(d.optional).0 as nat,
        ) + ", subsystem: "@ + dec_text(header_subsystem(d.optional) as nat),
    ]
}

/// The line on a section.
pub open spec fn section_line(s: SectionModel) -> Seq<char> {
    "  "@ + left_in(section_name(s), 10) + " va="@ + right_in(
        hex_text(s.header.virtual_address.0 as nat),
        8,
    ) + " vsize="@ + right_in(hex_text(s.header.virtual_size as nat), 8) + " raw="@ + right_in(
        hex_text(s.header.size_of_raw_data as nat),
        8,
    ) + " @"@ + right_in(hex_text(s.header.pointer_to_raw_data.0 as nat), 8) + " char="@ + right_in(
        hex_text(s.header.characteristics as nat),
        8,
    )
}

/// How many of the first `n` functions are imported by name.
pub open spec fn named_functions(f: Seq<ImportFunctionModel>, n: nat) -> nat
    decreases n,
{
    if n == 0 {
        0
    } else {
        named_functions(f, (n - 1) as nat) + if f[n - 1] is Name {
            1nat
        } else {
            0nat
        }
    }
}

/// The line on an imported module.
pub open spec fn module_line(m: ImportDescriptorModel) -> Seq<char> {
    "  "@ + left_in(m.name, 28) + " "@ + right_in(dec_text(m.functions.len()), 4) + " funcs ("@
        + dec_text(named_functions(m.functions, m.functions.len())) + " named)"@
}

/// A sample of an exported symbol.
pub open spec fn symbol_sample(s: ExportSymbolModel) -> Seq<char> {
    (match s.name {
        Some(name) => name,
        None => "<ordinal>"@,
    }) + "(#"@ + dec_text(s.ordinal as nat) + ")="@ + hex_text(s.rva.0 as nat)
}

/// How many symbols are shown as samples.
pub open spec fn sample_count(n: nat) -> nat {
    if n <= 4 {
        n
    } else {
        4
    }
}

/// An optional text as its debug text.
pub open spec fn opt_debug(s: Option<Seq<char>>) -> Seq<char> {
    match s {
        Some(t) => "Some("@ + debug_quoted(t) + ")"@,
        None => "None"@,
    }
}

/// The line on an export table whose module name is shown as `module`.
pub open spec fn export_table_line(t: ExportTableModel, module: Seq<char>) -> Seq<char> {
    "exports: "@ + dec_text(t.symbols.len()) + " symbols (module "@ + module + ")  e.g. "@ + joined(
        Seq::new(sample_count(t.symbols.len()), |i: int| symbol_sample(t.symbols[i])),
        ", "@,
    )
}

/// The line on the exports.
pub open spec fn exports_line(e: Option<ExportTableModel>) -> Seq<char> {
    match e {
        None => "exports: none"@,
        Some(t) => export_table_line(t, opt_debug(t.module_name)),
    }
}

/// How many leaves stand under the first `n` entries of a directory.
pub open spec fn leaf_count(e: Seq<ResourceEntryModel>, n: nat) -> nat
    decreases e, n,
{
    if n == 0 || n > e.len() {
        0
    } else {
        leaf_count(e, (n - 1) as nat) + match e[n - 1].data {
            ResourceDataModel::Directory(sub) => leaf_count(sub, sub.len()),
            ResourceDataModel::Leaf(_) => 1,
        }
    }
}

/// The line on the resources.
pub open spec fn resources_line(r: Option<Seq<ResourceEntryModel>>) -> Seq<char> {
    match r {
        None => "resources: none"@,
        Some(e) => "resources: "@ + dec_text(e.len()) + " top entries, "@ + dec_text(
            capped(leaf_count(e, e.len())),
        ) + " leaves"@,
    }
}

/// How many entries the first `n` relocation blocks have.
pub open spec fn reloc_total(b: Seq<RelocationBlockModel>, n: nat) -> nat
    decreases n,
{
    if n == 0 {
        0
    } else {
        reloc_total(b, (n - 1) as nat) + b[n - 1].entries.len()
    }
}

/// The line on the relocations.
pub open spec fn relocations_line(r: Option<Seq<RelocationBlockModel>>) -> Seq<char> {
    match r {
        None => "relocations: none"@,
        Some(b) => "relocations: "@ + dec_text(b.len()) + " blocks, "@ + dec_text(
            capped(reloc_total(b, b.len())),
        ) + " entries"@,
    }
}

/// The line on the TLS directory.
pub open spec fn tls_line(t: Option<TlsDirectory>) -> Seq<char> {
    match t {
        None => "tls: none"@,
        Some(t) => "tls: start="@ + hex_text(t.start_address_of_raw_data as nat) + " end="@
            + hex_text(t.end_address_of_raw_data as nat) + " callbacks="@ + hex_text(
            t.address_of_callbacks as nat,
        ),
    }
}

/// The line on the load configuration.
pub open spec fn load_config_line(l: Option<LoadConfigDirectory>) -> Seq<char> {
    match l {
        None => "load_config: none"@,
        Some(l) => "load_config: size="@ + hex_text(l.size as nat) + " cookie="@ + hex_text(
            l.security_cookie as nat,
        ) + " cf_flags="@ + hex_text(l.guard_flags as nat) + " cf_table="@ + hex_text(
            l.guard_cf_function_table as nat,
        ) + " ("@ + dec_text(l.guard_cf_function_count as nat) + " funcs) xfg_check="@ + hex_text(
            l.guard_xfg_check_function_pointer as nat,
        ),
    }
}

/// The lines that describe a document.
pub open spec fn document_report(d: DocModel) -> Seq<Seq<char>> {
    header_lines(d) + seq!["sections ("@ + dec_text(d.sections.len()) + "):"@] + Seq::new(
        d.sections.len(),
        |i: int| section_line(d.sections[i]),
    ) + seq![
        "imports: "@ + dec_text(d.imports.len()) + " modules, "@ + dec_text(
            capped(function_total(d.imports, d.imports.len())),
        ) + " functions"@,
    ] + Seq::new(d.imports.len(), |i: int| module_line(d.imports[i])) + seq![
        exports_line(d.exports),
        resources_line(d.resources),
        relocations_line(d.relocations),
        tls_line(d.tls),
        load_config_line(d.load_config),
    ]
}

fn arch_text(a: Arch) -> (r: &'static str)
    ensures
        r@ == arch_debug(a),
{
    match a {
        Arch::Bit32 => "Bit32",
        Arch::Bit64 => "Bit64",
    }
}

fn push_machine(out: &mut String, m: Machine)
    ensures
        final(out)@ == old(out)@ + machine_debug(m),
{
    let ghost before = out@;
    match m {
        Machine::I386 => out.append("I386"),
        Machine::Amd64 => out.append("Amd64"),
        Machine::Arm64 => out.append("Arm64"),
        Machine::Unknown(v) => {
            out.append("Unknown(");
            push_dec(out, v as u64);
            out.append(")");
        },
    }
    assert(out@ =~= before + machine_debug(m));
}

fn arch_line(doc: &PeDocument) -> (s: String)
    ensures
        s@ == header_lines(doc@)[0],
{
    let mut s: String = "arch: ".to_owned();
    s.append(arch_text(doc.arch));
    s.append(", machine: ");
    push_machine(&mut s, doc.coff.machine);
    s
}

fn base_line(doc: &PeDocument) -> (s: String)
    ensures
        s@ == header_lines(doc@)[1],
{
    let mut s: String = "image_base: ".to_owned();
    push_hex(&mut s, doc.optional.image_base());
    s.append(", entry: ");
    push_hex(&mut s, doc.optional.address_of_entry_point().get() as u64);
    s.append(", subsystem: ");
    push_dec(&mut s, doc.optional.subsystem() as u64);
    s
}

/// Append a number in hexadecimal, right-aligned in a column of 8.
fn push_column(out: &mut String, v: u32)
    ensures
        final(out)@ == old(out)@ + right_in(hex_text(v as nat), 8),
{
    push_right(out, hex_string(v as u64).as_str(), 8);
}

fn describe_section(x: &Section) -> (s: String)
    ensures
        s@ == section_line(x@),
{
    let mut s: String = "  ".to_owned();
    push_left(&mut s, x.name_str().as_str(), 10);
    s.append(" va=");
    push_column(&mut s, x.header.virtual_address.get());
    s.append(" vsize=");
    push_column(&mut s, x.header.virtual_size);
    s.append(" raw=");
    push_column(&mut s, x.header.size_of_raw_data);
    s.append(" @");
    push_column(&mut s, x.header.pointer_to_raw_data.get());
    s.append(" char=");
    push_column(&mut s, x.header.characteristics);
    s
}

fn describe_module(m: &ImportDescriptor) -> (s: String)
    ensures
        s@ == module_line(m@),
{
    let mut named: usize = 0;
    let mut i: usize = 0;
    while i < m.functions.len()
        invariant
            i <= m.functions.len(),
            named == named_functions(m@.functions, i as nat),
            named <= i,
        decreases m.functions.len() - i,
    {
        assert(m@.functions[i as int] == m.functions@[i as int]@);
        if m.functions[i].name().is_some() {
            named = named + 1;
        }
        i = i + 1;
    }
    let mut s: String = "  ".to_owned();
    push_left(&mut s, m.name.as_str(), 28);
    s.append(" ");
    push_right(&mut s, dec_string(m.functions.len() as u64).as_str(), 4);
    s.append(" funcs (");
    push_dec(&mut s, named as u64);
    s.append(" named)");
    s
}

fn describe_symbol(x: &ExportSymbol) -> (s: String)
    ensures
        s@ == symbol_sample(x@),
{
    let mut s: String = match &x.name {
        Some(name) => name.clone(),
        None => "<ordinal>".to_owned(),
    };
    s.append("(#");
    push_dec(&mut s, x.ordinal as u64);
    s.append(")=");
    push_hex(&mut s, x.rva.get() as u64);
    s
}

/// The line on an export table whose module name is shown as `module`.
pub fn describe_export_table(t: &ExportTable, module: &str) -> (s: String)
    ensures
        s@ == export_table_line(t@, module@),
{
    let ghost all = Seq::new(
        sample_count(t@.symbols.len()),
        |i: int| symbol_sample(t@.symbols[i]),
    );
    let mut samples: Vec<String> = Vec::new();
    let mut i: usize = 0;
    assert(views(samples@) =~= all.take(0));
    while i < 4 && i < t.symbols.len()
        invariant
            i <= sample_count(t@.symbols.len()),
            t@.symbols.len() == t.symbols.len(),
            all == Seq::new(
                sample_count(t@.symbols.len()),
                |i: int| symbol_sample(t@.symbols[i]),
            ),
            views(samples@) == all.take(i as int),
        decreases 4 - i,
    {
        let s = describe_symbol(&t.symbols[i]);
        proof {
            lemma_views_push(samples@, s);
            assert(all[i as int] == s@);
        }
        samples.push(s);
        i = i + 1;
        assert(views(samples@) =~= all.take(i as int));
    }
    assert(all.take(i as int) =~= all);
    let mut s: String = "exports: ".to_owned();
    push_dec(&mut s, t.symbols.len() as u64);
    s.append(" symbols (module ");
    s.append(module);
    s.append(")  e.g. ");
    s.append(join_texts(&samples, ", ").as_str());
    assert(s@ =~= export_table_line(t@, module@));
    s
}

fn describe_exports(e: &Option<ExportTable>) -> (s: String)
    ensures
        s@ == exports_line(opt_view(*e)),
{
    match e {
        None => "exports: none".to_owned(),
        Some(t) => {
            let mut module: String = String::new();
            match &t.module_name {
                Some(name) => {
                    module.append("Some(");
                    module.append(quoted(name.as_str()).as_str());
                    module.append(")");
                },
                None => module.append("None"),
            }
            assert(module@ =~= opt_debug(t@.module_name));
            describe_export_table(t, module.as_str())
        },
    }
}

/// How many leaves a resource tree has.
pub fn count_resource_leaves(dir: &ResourceDirectory) -> (r: usize)
    ensures
        r == capped(leaf_count(dir@, dir@.len())),
    decreases dir,
{
    let ghost all = dir@;
    let mut n: usize = 0;
    let mut i: usize = 0;
    proof {
        lemma_directory_model(*dir);
    }
    while i < dir.entries.len()
        invariant
            i <= dir.entries.len(),
            all == dir@,
            all.len() == dir.entries@.len(),
            n == capped(leaf_count(all, i as nat)),
        decreases dir.entries.len() - i,
    {
        let e: &ResourceEntry = &dir.entries[i];
        proof {
            lemma_directory_model(*dir);
            assert(all[i as int] == e@);
        }
        match &e.data {
            ResourceEntryData::Directory(sub) => {
                assert(decreases_to!(dir => dir.entries));
                assert(decreases_to!(dir.entries => dir.entries@[i as int]));
                n = n.saturating_add(count_resource_leaves(sub));
            },
            ResourceEntryData::Leaf(_) => {
                n = n.saturating_add(1);
            },
        }
        i = i + 1;
    }
    n
}

/// How many functions a document imports.
pub fn import_total(doc: &PeDocument) -> (r: usize)
    ensures
        r == capped(function_total(doc@.imports, doc@.imports.len())),
{
    let mut n: usize = 0;
    let mut i: usize = 0;
    while i < doc.imports.len()
        invariant
            i <= doc.imports.len(),
            n == capped(function_total(doc@.imports, i as nat)),
        decreases doc.imports.len() - i,
    {
        assert(doc@.imports[i as int] == doc.imports@[i as int]@);
        n = n.saturating_add(doc.imports[i].functions.len());
        i = i + 1;
    }
    n
}

/// How many entries a relocation table has.
pub fn relocation_total(t: &RelocationTable) -> (r: usize)
    ensures
        r == capped(reloc_total(t@, t@.len())),
{
    let mut n: usize = 0;
    let mut i: usize = 0;
    while i < t.blocks.len()
        invariant
            i <= t.blocks.len(),
            n == capped(reloc_total(t@, i as nat)),
        decreases t.blocks.len() - i,
    {
        assert(t@[i as int] == t.blocks@[i as int]@);
        n = n.saturating_add(t.blocks[i].entries.len());
        i = i + 1;
    }
    n
}

fn describe_resources(r: &Option<ResourceDirectory>) -> (s: String)
    ensures
        s@ == resources_line(opt_view(*r)),
{
    match r {
        None => "resources: none".to_owned(),
        Some(t) => {
            let mut s: String = "resources: ".to_owned();
            proof {
                lemma_directory_model(*t);
            }
            push_dec(&mut s, t.entries.len() as u64);
            s.append(" top entries, ");
            push_dec(&mut s, count_resource_leaves(t) as u64);
            s.append(" leaves");
            s
        },
    }
}

fn describe_relocations(r: &Option<RelocationTable>) -> (s: String)
    ensures
        s@ == relocations_line(opt_view(*r)),
{
    match r {
        None => "relocations: none".to_owned(),
        Some(t) => {
            let mut s: String = "relocations: ".to_owned();
            push_dec(&mut s, t.blocks.len() as u64);
            s.append(" blocks, ");
            push_dec(&mut s, relocation_total(t) as u64);
            s.append(" entries");
            s
        },
    }
}

fn describe_tls(t: &Option<TlsDirectory>) -> (s: String)
    ensures
        s@ == tls_line(*t),
{
    match t {
        None => "tls: none".to_owned(),
        Some(t) => {
            let mut s: String = "tls: start=".to_owned();
            push_hex(&mut s, t.start_address_of_raw_data);
            s.append(" end=");
            push_hex(&mut s, t.end_address_of_raw_data);
            s.append(" callbacks=");
            push_hex(&mut s, t.address_of_callbacks);
            s
        },
    }
}

fn describe_load_config(l: &Option<LoadConfigDirectory>) -> (s: String)
    ensures
        s@ == load_config_line(*l),
{
    match l {
        None => "load_config: none".to_owned(),
        Some(l) => {
            let mut s: String = "load_config: size=".to_owned();
            push_hex(&mut s, l.size as u64);
            s.append(" cookie=");
            push_hex(&mut s, l.security_cookie);
            s.append(" cf_flags=");
            push_hex(&mut s, l.guard_flags as u64);
            s.append(" cf_table=");
            push_hex(&mut s, l.guard_cf_function_table);
            s.append(" (");
            push_dec(&mut s, l.guard_cf_function_count);
            s.append(" funcs) xfg_check=");
            push_hex(&mut s, l.guard_xfg_check_function_pointer);
            s
        },
    }
}

fn push_line(lines: &mut Vec<String>, s: String)
    ensures
        views(final(lines)@) == views(old(lines)@).push(s@),
{
    proof {
        lemma_views_push(lines@, s);
    }
    lines.push(s);
}

fn push_sections(lines: &mut Vec<String>, doc: &PeDocument)
    ensures
        views(final(lines)@) == views(old(lines)@) + Seq::new(
            doc@.sections.len(),
            |i: int| section_line(doc@.sections[i]),
        ),
{
    let ghost before = views(lines@);
    let ghost all = Seq::new(doc@.sections.len(), |i: int| section_line(doc@.sections[i]));
    let mut i: usize = 0;
    assert(before + all.take(0) =~= before);
    while i < doc.sections.len()
        invariant
            i <= doc.sections.len(),
            all == Seq::new(doc@.sections.len(), |i: int| section_line(doc@.sections[i])),
            views(lines@) == before + all.take(i as int),
        decreases doc.sections.len() - i,
    {
        assert(doc@.sections[i as int] == doc.sections@[i as int]@);
        push_line(lines, describe_section(&doc.sections[i]));
        i = i + 1;
        assert(views(lines@) =~= before + all.take(i as int));
    }
    assert(all.take(i as int) =~= all);
}

fn push_modules(lines: &mut Vec<String>, doc: &PeDocument)
    ensures
        views(final(lines)@) == views(old(lines)@) + Seq::new(
            doc@.imports.len(),
            |i: int| module_line(doc@.imports[i]),
        ),
{
    let ghost before = views(lines@);
    let ghost all = Seq::new(doc@.imports.len(), |i: int| module_line(doc@.imports[i]));
    let mut i: usize = 0;
    assert(before + all.take(0) =~= before);
    while i < doc.imports.len()
        invariant
            i <= doc.imports.len(),
            all == Seq::new(doc@.imports.len(), |i: int| module_line(doc@.imports[i])),
            views(lines@) == before + all.take(i as int),
        decreases doc.imports.len() - i,
    {
        assert(doc@.imports[i as int] == doc.imports@[i as int]@);
        push_line(lines, describe_module(&doc.imports[i]));
        i = i + 1;
        assert(views(lines@) =~= before + all.take(i as int));
    }
    assert(all.take(i as int) =~= all);
}

/// The lines that describe a document.
pub fn document_lines(doc: &PeDocument) -> (lines: Vec<String>)
    ensures
        views(lines@) == document_report(doc@),
{
    let mut lines: Vec<String> = Vec::new();
    assert(views(lines@) =~= Seq::empty());
    push_line(&mut lines, arch_line(doc));
    push_line(&mut lines, base_line(doc));
    let mut s: String = "sections (".to_owned();
    push_dec(&mut s, doc.sections.len() as u64);
    s.append("):");
    push_line(&mut lines, s);
    push_sections(&mut lines, doc);
    let mut s: String = "imports: ".to_owned();
    push_dec(&mut s, doc.imports.len() as u64);
    s.append(" modules, ");
    push_dec(&mut s, import_total(doc) as u64);
    s.append(" functions");
    push_line(&mut lines, s);
    push_modules(&mut lines, doc);
    push_line(&mut lines, describe_exports(&doc.exports));
    push_line(&mut lines, describe_resources(&doc.resources));
    push_line(&mut lines, describe_relocations(&doc.relocations));
    push_line(&mut lines, describe_tls(&doc.tls));
    push_line(&mut lines, describe_load_config(&doc.load_config));
    assert(views(lines@) =~= document_report(doc@));
    lines
}

/// Why a directory is not in order: it points where nothing is mapped.
pub open spec fn directory_fault(d: DocModel, idx: DataDirectoryIndex) -> Option<Seq<char>> {
    let slot = directory_slot(idx);
    if slot >= d.data_directories.len() || d.data_directories[slot].rva.0 == 0 {
        None
    } else {
        let rva = d.data_directories[slot].rva.0;
        if image_read(d.sections, rva, 4) is Some {
            None
        } else {
            Some(
                directory_name(idx) + " directory rva "@ + hex_text(rva as nat) + " is unmapped"@,
            )
        }
    }
}

/// The directories that are looked at, in order.
pub open spec fn checked_directories() -> Seq<DataDirectoryIndex> {
    seq![
        DataDirectoryIndex::Export,
        DataDirectoryIndex::Import,
        DataDirectoryIndex::Resource,
        DataDirectoryIndex::BaseReloc,
        DataDirectoryIndex::Iat,
        DataDirectoryIndex::Tls,
    ]
}

/// The first fault among the first `n` directories that are looked at.
pub open spec fn first_fault(d: DocModel, n: nat) -> Option<Seq<char>>
    decreases n,
{
    if n == 0 {
        None
    } else {
        match first_fault(d, (n - 1) as nat) {
            Some(f) => Some(f),
            None => directory_fault(d, checked_directories()[n - 1]),
        }
    }
}

/// The first of the first `n` sections of that name.
pub open spec fn section_named(s: Seq<SectionModel>, name: Seq<char>, n: nat) -> Option<int>
    decreases n,
{
    if n == 0 {
        None
    } else {
        match section_named(s, name, (n - 1) as nat) {
            Some(i) => Some(i),
            None => if section_name(s[n - 1]) == name {
                Some(n - 1)
            } else {
                None
            },
        }
    }
}

/// Whether the first section of the same name has the same bytes and address.
pub open spec fn section_kept(s: SectionModel, after: Seq<SectionModel>) -> bool {
    match section_named(after, section_name(s), after.len()) {
        Some(i) => after[i].data == s.data && after[i].header.virtual_address
            == s.header.virtual_address,
        None => false,
    }
}

/// Whether all sections are kept.
pub open spec fn sections_kept(before: Seq<SectionModel>, after: Seq<SectionModel>) -> bool {
    before.len() == after.len() && forall|i: int|
        0 <= i < before.len() ==> section_kept(#[trigger] before[i], after)
}

/// `PASS` or `FAIL`.
pub open spec fn verdict(ok: bool) -> Seq<char> {
    if ok {
        "PASS"@
    } else {
        "FAIL"@
    }
}

/// How many symbols a document exports.
pub open spec fn symbol_count(e: Option<ExportTableModel>) -> nat {
    match e {
        Some(t) => t.symbols.len(),
        None => 0,
    }
}

/// The lines on the round trip of `d` that came out as `after`.
pub open spec fn roundtrip_lines(d: DocModel, after: DocModel) -> Seq<Seq<char>> {
    seq![
        "  ["@ + verdict(after.imports == d.imports) + "] round-trip preserves imports ("@
            + dec_text(d.imports.len()) + " modules / "@ + dec_text(
            capped(function_total(d.imports, d.imports.len())),
        ) + " funcs)"@,
        "  ["@ + verdict(after.exports == d.exports) + "] round-trip preserves exports ("@
            + dec_text(symbol_count(d.exports)) + " symbols)"@,
        "  ["@ + verdict(sections_kept(d.sections, after.sections))
            + "] round-trip preserves sections ("@ + dec_text(d.sections.len()) + " total)"@,
    ]
}

/// The lines that the checks of a document print, and why they failed, if they
/// did: directories point into the image, and writing and reading the document
/// keeps imports, exports and sections.
pub open spec fn check_report(d: DocModel) -> (Seq<Seq<char>>, Option<Seq<char>>) {
    let head = seq!["checks:"@];
    match first_fault(d, 6) {
        Some(f) => (head, Some(f)),
        None => {
            let mapped = head.push("  [PASS] data-directory rvas are mapped"@);
            match serialized(d) {
                Err(e) => (mapped, Some(e.shown())),
                Ok(b) => match parsed(b) {
                    Err(e) => (mapped, Some(e.shown())),
                    Ok(after) => (
                        mapped + roundtrip_lines(d, after),
                        if after.imports == d.imports && after.exports == d.exports
                            && sections_kept(d.sections, after.sections) {
                            None
                        } else {
                            Some("round-trip checks failed"@)
                        },
                    ),
                },
            }
        },
    }
}

/// What the checks of a document print, and why they failed, if they did.
pub struct CheckReport {
    pub lines: Vec<String>,
    pub error: Option<String>,
}

fn check_directory(doc: &PeDocument, idx: DataDirectoryIndex) -> (r: Option<String>)
    ensures
        opt_text(r) == directory_fault(doc@, idx),
{
    let i: usize = idx.to_usize();
    if i >= doc.data_directories.len() {
        return None;
    }
    let dd: DataDirectory = doc.data_directories[i];
    if dd.rva.get() == 0 || doc.read(dd.rva, 4).is_ok() {
        return None;
    }
    let mut s: String = idx.name().to_owned();
    s.append(" directory rva ");
    push_hex(&mut s, dd.rva.get() as u64);
    s.append(" is unmapped");
    Some(s)
}

fn check_directories(doc: &PeDocument) -> (r: Option<String>)
    ensures
        opt_text(r) == first_fault(doc@, 6),
{
    let all: [DataDirectoryIndex; 6] = [
        DataDirectoryIndex::Export,
        DataDirectoryIndex::Import,
        DataDirectoryIndex::Resource,
        DataDirectoryIndex::BaseReloc,
        DataDirectoryIndex::Iat,
        DataDirectoryIndex::Tls,
    ];
    assert(all@ =~= checked_directories());
    let mut i: usize = 0;
    while i < 6
        invariant
            i <= 6,
            all@ == checked_directories(),
            first_fault(doc@, i as nat) is None,
        decreases 6 - i,
    {
        let r = check_directory(doc, all[i]);
        if r.is_some() {
            proof {
                lemma_first_fault(doc@, (i + 1) as nat, 6);
            }
            return r;
        }
        i = i + 1;
    }
    None
}

proof fn lemma_first_fault(d: DocModel, n: nat, to: nat)
    requires
        n <= to,
        first_fault(d, n) is Some,
    ensures
        first_fault(d, to) == first_fault(d, n),
    decreases to,
{
    if n < to {
        lemma_first_fault(d, n, (to - 1) as nat);
    }
}

proof fn lemma_section_named(s: Seq<SectionModel>, name: Seq<char>, n: nat, to: nat)
    requires
        n <= to,
        section_named(s, name, n) is Some,
    ensures
        section_named(s, name, to) == section_named(s, name, n),
    decreases to,
{
    if n < to {
        lemma_section_named(s, name, n, (to - 1) as nat);
    }
}

/// Whether two runs of bytes are the same.
fn same_bytes(a: &[u8], b: &[u8]) -> (r: bool)
    ensures
        r == (a@ == b@),
{
    if a.len() != b.len() {
        return false;
    }
    let mut i: usize = 0;
    while i < a.len()
        invariant
            i <= a.len(),
            a.len() == b.len(),
            forall|j: int| 0 <= j < i ==> a@[j] == b@[j],
        decreases a.len() - i,
    {
        if a[i] != b[i] {
            return false;
        }
        i = i + 1;
    }
    assert(a@ =~= b@);
    true
}

fn is_section_kept(s: &Section, after: &[Section]) -> (r: bool)
    ensures
        r == section_kept(s@, views(after@)),
{
    let name = s.name_str();
    let ghost all = views(after@);
    let mut i: usize = 0;
    while i < after.len()
        invariant
            i <= after.len(),
            all == views(after@),
            name@ == section_name(s@),
            section_named(all, name@, i as nat) is None,
        decreases after.len() - i,
    {
        assert(all[i as int] == after@[i as int]@);
        if after[i].name_str() == name {
            proof {
                lemma_section_named(all, name@, (i + 1) as nat, all.len());
            }
            return same_bytes(after[i].data.as_slice(), s.data.as_slice())
                && after[i].header.virtual_address == s.header.virtual_address;
        }
        i = i + 1;
    }
    false
}

fn are_sections_kept(before: &[Section], after: &[Section]) -> (r: bool)
    ensures
        r == sections_kept(views(before@), views(after@)),
{
    if before.len() != after.len() {
        assert(views(before@).len() != views(after@).len());
        return false;
    }
    let mut i: usize = 0;
    while i < before.len()
        invariant
            i <= before.len(),
            before.len() == after.len(),
            forall|j: int| 0 <= j < i ==> section_kept(#[trigger] views(before@)[j], views(after@)),
        decreases before.len() - i,
    {
        assert(views(before@)[i as int] == before@[i as int]@);
        if !is_section_kept(&before[i], after) {
            assert(!section_kept(views(before@)[i as int], views(after@)));
            return false;
        }
        i = i + 1;
    }
    true
}

fn same_exports(a: &Option<ExportTable>, b: &Option<ExportTable>) -> (r: bool)
    ensures
        r == (opt_view(*a) == opt_view(*b)),
{
    match a {
        Some(x) => match b {
            Some(y) => x.same(y),
            None => false,
        },
        None => b.is_none(),
    }
}

fn check_line(ok: bool, what: &str) -> (s: String)
    ensures
        s@ == "  ["@ + verdict(ok) + what@,
{
    let mut s: String = "  [".to_owned();
    s.append(
        if ok {
            "PASS"
        } else {
            "FAIL"
        },
    );
    s.append(what);
    s
}

/// The three lines on a round trip, appended, and whether all is well.
fn push_roundtrip(lines: &mut Vec<String>, doc: &PeDocument, after: &PeDocument) -> (ok: bool)
    ensures
        views(final(lines)@) == views(old(lines)@) + roundtrip_lines(doc@, after@),
        ok == (after@.imports == doc@.imports && after@.exports == doc@.exports && sections_kept(
            doc@.sections,
            after@.sections,
        )),
{
    let ghost before = views(lines@);
    let ok_imports = same_imports(&after.imports, &doc.imports);
    let ok_exports = same_exports(&after.exports, &doc.exports);
    let ok_sections = are_sections_kept(&doc.sections, &after.sections);
    let mut s = check_line(ok_imports, "] round-trip preserves imports (");
    push_dec(&mut s, doc.imports.len() as u64);
    s.append(" modules / ");
    push_dec(&mut s, import_total(doc) as u64);
    s.append(" funcs)");
    push_line(lines, s);
    let mut s = check_line(ok_exports, "] round-trip preserves exports (");
    let symbols: usize = match &doc.exports {
        Some(t) => {
            assert(t@.symbols.len() == t.symbols.len());
            t.symbols.len()
        },
        None => 0,
    };
    push_dec(&mut s, symbols as u64);
    s.append(" symbols)");
    push_line(lines, s);
    let mut s = check_line(ok_sections, "] round-trip preserves sections (");
    push_dec(&mut s, doc.sections.len() as u64);
    s.append(" total)");
    push_line(lines, s);
    assert(views(lines@) =~= before + roundtrip_lines(doc@, after@));
    ok_imports && ok_exports && ok_sections
}

/// Check a document: directories point into the image, and writing and reading
/// it keeps imports, exports and sections.
pub fn run_checks(doc: &PeDocument) -> (r: CheckReport)
    requires
        writable(doc@),
    ensures
        views(r.lines@) == check_report(doc@).0,
        opt_text(r.error) == check_report(doc@).1,
{
    let mut lines: Vec<String> = Vec::new();
    assert(views(lines@) =~= Seq::empty());
    push_line(&mut lines, "checks:".to_owned());
    assert(views(lines@) =~= seq!["checks:"@]);
    let fault = check_directories(doc);
    if fault.is_some() {
        return CheckReport { lines, error: fault };
    }
    push_line(&mut lines, "  [PASS] data-directory rvas are mapped".to_owned());
    let bytes = match serialize(doc) {
        Ok(b) => b,
        Err(e) => {
            return CheckReport { lines, error: Some(e.message()) };
        },
    };
    let after = match parse(bytes.as_slice()) {
        Ok(d) => d,
        Err(e) => {
            return CheckReport { lines, error: Some(e.message()) };
        },
    };
    if push_roundtrip(&mut lines, doc, &after) {
        CheckReport { lines, error: None }
    } else {
        CheckReport { lines, error: Some("round-trip checks failed".to_owned()) }
    }
}

} // verus!

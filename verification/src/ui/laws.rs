//! What the command line, the search and the views promise.

use crate::domain::document::DocModel;
use crate::domain::optional::{
    header_address_of_entry_point, header_file_alignment, header_image_base,
    header_section_alignment, header_subsystem, OptionalHeader, OptionalHeader32, OptionalHeader64,
};
use crate::domain::export::ExportSymbolModel;
use crate::domain::import::ImportDescriptorModel;
use crate::domain::resource::{ResourceDataModel, ResourceEntryModel};
use crate::domain::section::SectionModel;
use crate::domain::types::Rva;
use crate::feature::va::AddressMap;
use crate::text::{dec_text, hex_text, lowercase};
use crate::ui::cli::{argument_names, command_leaves, request, CommandModel, RequestModel};
use crate::domain::iat::{IatEntry, ScanMethod};
use crate::ui::convert::conversion;
use crate::ui::dump_app::{
    edits_of, health_warning, kept_entries, with_edits, DumpAppModel, HeaderEdits, Source,
};
use crate::ui::dump_args::{
    dump_options, named_method, plain_dump, spawn_options, DumpOptionsModel, SpawnOptionsModel,
};
use crate::ui::edit_app::{
    after_frame, edited_to, gated, opened, redone, section_removed, undone, with_snapshot, AppModel,
};
use crate::ui::format::upper_digit;
use crate::ui::hex::{row_bytes, spaced_hex};
use crate::ui::input::{
    address_value, all_hex, compacted, digit_value, hex_pairs, jump_target, number,
    printed_address_reads_back, printed_number_reads_back, trimmed, trimmed_end, trimmed_start,
    white_space,
};
use crate::ui::labels::reloc_name;
use crate::ui::search::{
    export_hits, function_hits, hit, import_hits, lowered_hits, module_hits, occurs_in, overlap,
    all_resource_names, resource_hits, resource_names, section_hits, section_name, shown_name,
    PeNode, SearchHitModel,
};
use vstd::prelude::*;
use vstd::string::*;

verus! {

/// The hit for section `i`.
pub open spec fn section_hit(s: Seq<SectionModel>, i: int) -> SearchHitModel {
    SearchHitModel {
        node: PeNode::Sections,
        label: "section · "@ + section_name(s[i]),
        import_module: None,
        section_index: Some(i as usize),
        resource_path: None,
    }
}

/// The hit for the module `d`.
pub open spec fn module_hit(d: ImportDescriptorModel) -> SearchHitModel {
    SearchHitModel {
        node: PeNode::Imports,
        label: "import module · "@ + d.name,
        import_module: Some(d.name),
        section_index: None,
        resource_path: None,
    }
}

/// The hit for import `k` of the module `d`.
pub open spec fn function_hit(d: ImportDescriptorModel, k: int) -> SearchHitModel {
    SearchHitModel {
        node: PeNode::Imports,
        label: "import · "@ + d.name + "."@ + d.functions[k].shown(),
        import_module: Some(d.name),
        section_index: None,
        resource_path: None,
    }
}

/// The hit for the export of that name.
pub open spec fn export_hit(name: Seq<char>) -> SearchHitModel {
    SearchHitModel {
        node: PeNode::Exports,
        label: "export · "@ + name,
        import_module: None,
        section_index: None,
        resource_path: None,
    }
}

/// The hit for the resource of that name.
pub open spec fn resource_hit(name: Seq<char>) -> SearchHitModel {
    SearchHitModel {
        node: PeNode::Resources,
        label: "resource · "@ + name,
        import_module: None,
        section_index: None,
        resource_path: Some(name),
    }
}

proof fn lemma_pushed<T>(s: Seq<T>, x: T, y: T)
    ensures
        s.push(x).contains(y) <==> y == x || s.contains(y),
{
    if s.push(x).contains(y) {
        let i = choose|i: int| 0 <= i < s.len() + 1 && s.push(x)[i] == y;
        if i < s.len() {
            assert(s[i] == y);
        }
    }
    if s.contains(y) {
        let i = choose|i: int| 0 <= i < s.len() && s[i] == y;
        assert(s.push(x)[i] == y);
    }
    assert(s.push(x)[s.len() as int] == x);
}

proof fn lemma_joined<T>(a: Seq<T>, b: Seq<T>, y: T)
    ensures
        (a + b).contains(y) <==> a.contains(y) || b.contains(y),
{
    if (a + b).contains(y) {
        let i = choose|i: int| 0 <= i < a.len() + b.len() && (a + b)[i] == y;
        if i < a.len() {
            assert(a[i] == y);
        } else {
            assert(b[i - a.len()] == y);
        }
    }
    if a.contains(y) {
        let i = choose|i: int| 0 <= i < a.len() && a[i] == y;
        assert((a + b)[i] == y);
    }
    if b.contains(y) {
        let i = choose|i: int| 0 <= i < b.len() && b[i] == y;
        assert((a + b)[a.len() + i] == y);
    }
}

proof fn lemma_section_hits(s: Seq<SectionModel>, q: Seq<char>, n: nat, x: SearchHitModel)
    requires
        n <= s.len(),
    ensures
        section_hits(s, q, n).contains(x) <==> exists|i: int|
            0 <= i < n && occurs_in(lowercase(section_name(#[trigger] s[i])), q) && x
                == section_hit(s, i),
    decreases n,
{
    if n > 0 {
        let k = n - 1;
        lemma_section_hits(s, q, k as nat, x);
        if occurs_in(lowercase(section_name(s[k])), q) {
            lemma_pushed(section_hits(s, q, k as nat), section_hit(s, k), x);
        }
    }
}

proof fn lemma_function_hits(d: ImportDescriptorModel, q: Seq<char>, n: nat, x: SearchHitModel)
    requires
        n <= d.functions.len(),
    ensures
        function_hits(d, q, n).contains(x) <==> exists|k: int|
            0 <= k < n && occurs_in(lowercase((#[trigger] d.functions[k]).shown()), q) && x
                == function_hit(d, k),
    decreases n,
{
    if n > 0 {
        let k = n - 1;
        lemma_function_hits(d, q, k as nat, x);
        if occurs_in(lowercase(d.functions[k].shown()), q) {
            lemma_pushed(function_hits(d, q, k as nat), function_hit(d, k), x);
        }
    }
}

/// Whether `x` is a hit of the module `d`: for its name or for one of its
/// imports.
pub open spec fn hits_module(d: ImportDescriptorModel, q: Seq<char>, x: SearchHitModel) -> bool {
    ||| occurs_in(lowercase(d.name), q) && x == module_hit(d)
    ||| exists|k: int|
        0 <= k < d.functions.len() && occurs_in(lowercase((#[trigger] d.functions[k]).shown()), q)
            && x == function_hit(d, k)
}

proof fn lemma_module_hits(d: ImportDescriptorModel, q: Seq<char>, x: SearchHitModel)
    ensures
        module_hits(d, q).contains(x) <==> hits_module(d, q, x),
{
    let own = if occurs_in(lowercase(d.name), q) {
        seq![module_hit(d)]
    } else {
        Seq::empty()
    };
    let rest = function_hits(d, q, d.functions.len());
    assert(module_hits(d, q) == own + rest);
    lemma_function_hits(d, q, d.functions.len(), x);
    lemma_joined(own, rest, x);
    if occurs_in(lowercase(d.name), q) {
        assert(own[0] == module_hit(d));
        if own.contains(x) {
            assert(x == module_hit(d));
        }
        if x == module_hit(d) {
            assert(own.contains(x));
        }
    }
}

proof fn lemma_import_hits(
    im: Seq<ImportDescriptorModel>,
    q: Seq<char>,
    n: nat,
    x: SearchHitModel,
)
    requires
        n <= im.len(),
    ensures
        import_hits(im, q, n).contains(x) <==> exists|m: int|
            0 <= m < n && hits_module(#[trigger] im[m], q, x),
    decreases n,
{
    if n > 0 {
        lemma_import_hits(im, q, (n - 1) as nat, x);
        lemma_module_hits(im[n - 1], q, x);
        lemma_joined(import_hits(im, q, (n - 1) as nat), module_hits(im[n - 1], q), x);
    }
}

/// Whether `x` is the hit of the symbol `s`.
pub open spec fn hits_symbol(s: ExportSymbolModel, q: Seq<char>, x: SearchHitModel) -> bool {
    s.name matches Some(name) && occurs_in(lowercase(name), q) && x == export_hit(name)
}

proof fn lemma_export_hits(s: Seq<ExportSymbolModel>, q: Seq<char>, n: nat, x: SearchHitModel)
    requires
        n <= s.len(),
    ensures
        export_hits(s, q, n).contains(x) <==> exists|k: int|
            0 <= k < n && hits_symbol(#[trigger] s[k], q, x),
    decreases n,
{
    if n > 0 {
        let k = n - 1;
        lemma_export_hits(s, q, k as nat, x);
        if let Some(name) = s[k].name {
            if occurs_in(lowercase(name), q) {
                lemma_pushed(export_hits(s, q, k as nat), export_hit(name), x);
            }
        }
    }
}

proof fn lemma_resource_hits(names: Seq<Seq<char>>, q: Seq<char>, n: nat, x: SearchHitModel)
    requires
        n <= names.len(),
    ensures
        resource_hits(names, q, n).contains(x) <==> exists|k: int|
            0 <= k < n && occurs_in(lowercase(#[trigger] names[k]), q) && x == resource_hit(
                names[k],
            ),
    decreases n,
{
    if n > 0 {
        let k = n - 1;
        lemma_resource_hits(names, q, k as nat, x);
        if occurs_in(lowercase(names[k]), q) {
            lemma_pushed(resource_hits(names, q, k as nat), resource_hit(names[k]), x);
        }
    }
}

/// A search finds every section, module, import, named export and resource whose
/// name has the query in it, and nothing else; the query is in lower case.
pub proof fn search_finds_every_name(d: DocModel, q: Seq<char>, x: SearchHitModel)
    requires
        q.len() > 0,
    ensures
        lowered_hits(d, q).contains(x) <==> {
            let names = all_resource_names(d.resources);
            ||| exists|i: int|
                0 <= i < d.sections.len() && occurs_in(
                    lowercase(section_name(#[trigger] d.sections[i])),
                    q,
                ) && x == section_hit(d.sections, i)
            ||| exists|m: int|
                0 <= m < d.imports.len() && hits_module(#[trigger] d.imports[m], q, x)
            ||| d.exports is Some && exists|k: int|
                0 <= k < d.exports->0.symbols.len() && hits_symbol(
                    #[trigger] d.exports->0.symbols[k],
                    q,
                    x,
                )
            ||| exists|k: int|
                0 <= k < names.len() && occurs_in(lowercase(#[trigger] names[k]), q) && x
                    == resource_hit(names[k])
        },
{
    let symbols = match d.exports {
        Some(t) => t.symbols,
        None => Seq::empty(),
    };
    let names = all_resource_names(d.resources);
    let a = section_hits(d.sections, q, d.sections.len());
    let b = import_hits(d.imports, q, d.imports.len());
    let c = export_hits(symbols, q, symbols.len());
    let e = resource_hits(names, q, names.len());
    lemma_section_hits(d.sections, q, d.sections.len(), x);
    lemma_import_hits(d.imports, q, d.imports.len(), x);
    lemma_export_hits(symbols, q, symbols.len(), x);
    lemma_resource_hits(names, q, names.len(), x);
    assert(lowered_hits(d, q) == a + b + c + e);
    lemma_joined(a, b, x);
    lemma_joined(a + b, c, x);
    lemma_joined(a + b + c, e, x);
}

/// The names of a resource tree are those of its entries and of the trees below
/// them.
pub proof fn resource_names_go_down_the_tree(e: Seq<ResourceEntryModel>, n: nat, x: Seq<char>)
    requires
        n <= e.len(),
    ensures
        resource_names(e, n).contains(x) <==> exists|i: int|
            0 <= i < n && names_in(#[trigger] e[i], x),
    decreases n,
{
    if n > 0 {
        let k = n - 1;
        let before = resource_names(e, k as nat);
        let own = before.push(shown_name(e[k].name));
        resource_names_go_down_the_tree(e, k as nat, x);
        lemma_pushed(before, shown_name(e[k].name), x);
        if let ResourceDataModel::Directory(sub) = e[k].data {
            lemma_joined(own, resource_names(sub, sub.len()), x);
        }
    }
}

/// Whether `x` is the name of an entry or stands below it.
pub open spec fn names_in(e: ResourceEntryModel, x: Seq<char>) -> bool {
    x == shown_name(e.name) || (e.data matches ResourceDataModel::Directory(sub) && resource_names(
        sub,
        sub.len(),
    ).contains(x))
}

/// Whether every character of a stretch is white space.
pub open spec fn blank(s: Seq<char>) -> bool {
    forall|i: int| 0 <= i < s.len() ==> white_space(#[trigger] s[i])
}

proof fn lemma_trimmed_start(s: Seq<char>) -> (n: int)
    ensures
        0 <= n <= s.len(),
        trimmed_start(s) == s.skip(n),
        blank(s.take(n)),
        n < s.len() ==> !white_space(s[n]),
    decreases s.len(),
{
    if s.len() > 0 && white_space(s[0]) {
        let t = s.drop_first();
        let m = lemma_trimmed_start(t);
        assert(t.skip(m) =~= s.skip(m + 1));
        assert forall|i: int| 0 <= i < m + 1 implies white_space(#[trigger] s.take(m + 1)[i]) by {
            if i > 0 {
                assert(t.take(m)[i - 1] == s[i]);
            }
        }
        m + 1
    } else {
        assert(s.skip(0) =~= s);
        0
    }
}

proof fn lemma_trimmed_end(s: Seq<char>) -> (n: int)
    ensures
        0 <= n <= s.len(),
        trimmed_end(s) == s.take(n),
        blank(s.skip(n)),
        n > 0 ==> !white_space(s[n - 1]),
    decreases s.len(),
{
    if s.len() > 0 && white_space(s.last()) {
        let t = s.drop_last();
        let m = lemma_trimmed_end(t);
        assert(t.take(m) =~= s.take(m));
        assert forall|i: int| 0 <= i < s.len() - m implies white_space(#[trigger] s.skip(m)[i]) by {
            if i < t.len() - m {
                assert(t.skip(m)[i] == s[m + i]);
            }
        }
        m
    } else {
        assert(s.take(s.len() as int) =~= s);
        s.len() as int
    }
}

/// Trimming a text takes the white space off both of its ends and nothing else.
pub proof fn trimming_takes_off_the_ends(s: Seq<char>)
    ensures
        exists|a: int, b: int|
            0 <= a <= b <= s.len() && trimmed(s) == #[trigger] s.subrange(a, b) && blank(s.take(a))
                && blank(s.skip(b)) && (a < b ==> !white_space(s[a]) && !white_space(s[b - 1])),
{
    let a = lemma_trimmed_start(s);
    let t = s.skip(a);
    let n = lemma_trimmed_end(t);
    let b = a + n;
    assert(t.take(n) =~= s.subrange(a, b));
    assert(t.skip(n) =~= s.skip(b));
    if n > 0 {
        assert(t[n - 1] == s[b - 1]);
    }
}

proof fn lemma_commands_differ()
    ensures
        "show"@ != "set-entry"@,
        "show"@ != "add-section"@,
        "show"@ != "add-import"@,
        "show"@ != "merge-sections"@,
        "show"@ != "rebuild-sections"@,
        "set-entry"@ != "add-section"@,
        "set-entry"@ != "add-import"@,
        "set-entry"@ != "merge-sections"@,
        "set-entry"@ != "rebuild-sections"@,
        "add-section"@ != "add-import"@,
        "add-section"@ != "merge-sections"@,
        "add-section"@ != "rebuild-sections"@,
        "add-import"@ != "merge-sections"@,
        "add-import"@ != "rebuild-sections"@,
        "merge-sections"@ != "rebuild-sections"@,
{
    reveal_strlit("show");
    reveal_strlit("set-entry");
    reveal_strlit("add-section");
    reveal_strlit("add-import");
    reveal_strlit("merge-sections");
    reveal_strlit("rebuild-sections");
    assert("show"@.len() == 4);
    assert("set-entry"@.len() == 9);
    assert("add-section"@.len() == 11);
    assert("add-import"@.len() == 10);
    assert("merge-sections"@.len() == 14);
    assert("rebuild-sections"@.len() == 16);
}

/// Every command is understood with its arguments in their order, and a number
/// among them is the one that was written.
pub proof fn commands_are_understood(
    file: Seq<char>,
    out: Seq<char>,
    name: Seq<char>,
    func: Seq<char>,
    v: u32,
    n: usize,
    k: usize,
)
    ensures
        request(seq!["show"@, file]) == RequestModel::Run(CommandModel::Show { path: file }),
        request(seq!["set-entry"@, file, hex_text(v as nat), out]) == RequestModel::Run(
            CommandModel::SetEntry { path: file, rva: v, out },
        ),
        request(seq!["add-section"@, file, name, dec_text(n as nat), out]) == RequestModel::Run(
            CommandModel::AddSection { path: file, name, size: n, out },
        ),
        request(seq!["add-import"@, file, name, func, out]) == RequestModel::Run(
            CommandModel::AddImport { path: file, module: name, func, out },
        ),
        request(seq!["merge-sections"@, file, dec_text(n as nat), dec_text(k as nat), out])
            == RequestModel::Run(
            CommandModel::MergeSections { path: file, start: n, end: k, out },
        ),
        request(seq!["rebuild-sections"@, file, out]) == RequestModel::Run(
            CommandModel::RebuildSections { path: file, out },
        ),
{
    lemma_commands_differ();
    printed_address_reads_back(v as u64);
    printed_number_reads_back(n as u64);
    printed_number_reads_back(k as u64);
    assert(argument_names("set-entry"@)->0.len() == 3);
    assert(argument_names("add-section"@)->0.len() == 4);
    assert(argument_names("add-import"@)->0.len() == 4);
    assert(argument_names("merge-sections"@)->0.len() == 4);
    assert(argument_names("rebuild-sections"@)->0.len() == 2);
}

/// Setting the entry point sets that address and changes nothing else.
pub proof fn set_entry_sets_the_entry_point(
    d: DocModel,
    c: CommandModel,
    after: DocModel,
    error: Option<crate::error::PeErrorModel>,
    rva: u32,
)
    requires
        c matches CommandModel::SetEntry { path: _, rva: r, out: _ } && r == rva,
        command_leaves(d, c, after, error),
    ensures
        error is None,
        after == (DocModel { optional: after.optional, ..d }),
        match d.optional {
            OptionalHeader::Bit32(h) => after.optional == OptionalHeader::Bit32(
                OptionalHeader32 { address_of_entry_point: Rva(rva), ..h },
            ),
            OptionalHeader::Bit64(h) => after.optional == OptionalHeader::Bit64(
                OptionalHeader64 { address_of_entry_point: Rva(rva), ..h },
            ),
        },
{
}

/// A row of the hex view shows every byte as its two hexadecimal digits, the
/// higher one first, and a space.
pub proof fn hex_rows_show_every_byte(b: Seq<u8>, k: int)
    requires
        0 <= k < b.len(),
    ensures
        spaced_hex(b).len() == 3 * b.len(),
        spaced_hex(b)[3 * k] == upper_digit((b[k] / 16) as nat),
        spaced_hex(b)[3 * k + 1] == upper_digit((b[k] % 16) as nat),
        spaced_hex(b)[3 * k + 2] == ' ',
    decreases b.len(),
{
    let d = b.drop_last();
    lemma_spaced_len(d);
    if k < d.len() {
        hex_rows_show_every_byte(d, k);
    }
}

proof fn lemma_spaced_len(b: Seq<u8>)
    ensures
        spaced_hex(b).len() == 3 * b.len(),
    decreases b.len(),
{
    if b.len() > 0 {
        lemma_spaced_len(b.drop_last());
    }
}

/// A row of the hex view begins with the bytes at sixteen times its number.
pub proof fn hex_rows_hold_sixteen_bytes(data: Seq<u8>, row: int)
    requires
        0 <= 16 * row <= data.len(),
    ensures
        row_bytes(data, row).len() == if data.len() - 16 * row < 16 {
            data.len() - 16 * row
        } else {
            16
        },
        forall|i: int|
            0 <= i < row_bytes(data, row).len() ==> #[trigger] row_bytes(data, row)[i] == data[16
                * row + i],
{
}

/// The three addresses that are shown belong together: the absolute one is the
/// relative one in the image, and the file offset is its own. What is typed is
/// what is converted; the first field that holds a number counts.
pub proof fn converted_addresses_belong_together(
    m: AddressMap,
    rva: Seq<char>,
    va: Seq<char>,
    raw: Seq<char>,
    v: u64,
)
    ensures
        conversion(m, rva, va, raw) matches Some(c) ==> c.va == m.image_base + c.rva,
        v <= u32::MAX ==> ({
            let c = conversion(m, hex_text(v as nat), va, raw);
            c is Some && c->0.rva == v && c->0.raw == m.raw_of_rva(v as u32)
        }),
        address_value(rva, u64::MAX as nat) is None ==> ({
            let c = conversion(m, rva, hex_text(v as nat), raw);
            c is Some <==> m.image_base <= v <= m.image_base + u32::MAX
        }),
        address_value(rva, u64::MAX as nat) is None && m.image_base <= v <= m.image_base + u32::MAX
            ==> ({
            let c = conversion(m, rva, hex_text(v as nat), raw)->0;
            c.va == v && c.raw == m.raw_of_rva((v - m.image_base) as u32)
        }),
        address_value(rva, u64::MAX as nat) is None && address_value(va, u64::MAX as nat) is None
            && v <= u32::MAX ==> ({
            let c = conversion(m, rva, va, hex_text(v as nat));
            &&& c is Some <==> m.rva_of_raw(v as u32) is Some
            &&& c matches Some(x) ==> x.raw == Some(v as int) && Some(x.rva) == m.rva_of_raw(
                v as u32,
            )
        }),
{
    printed_address_reads_back(v);
}

/// The history keeps the latest snapshots: the new one is the last, those before
/// it stay in their order, and the oldest is dropped where there would be more
/// than thirty-two.
pub proof fn snapshots_drop_the_oldest(s: Seq<DocModel>, d: DocModel, k: int)
    requires
        s.len() <= 32,
    ensures
        ({
            let r = with_snapshot(s, d);
            &&& r.len() == if s.len() < 32 {
                s.len() + 1
            } else {
                32
            }
            &&& r.last() == d
            &&& 0 <= k < r.len() - 1 ==> r[r.len() - 2 - k] == s[s.len() - 1 - k]
        }),
{
}

/// Only the first frame of a gesture takes a snapshot, that of the document
/// before it, and then there is nothing left to redo; a frame without an edit
/// changes no history.
pub proof fn new_edits_leave_nothing_to_redo(m: AppModel)
    ensures
        m.edited_this_frame && !m.gesture_active && m.undo_baseline is Some ==> after_frame(
            m,
        ).redo_stack.len() == 0 && after_frame(m).undo_stack.last() == m.undo_baseline->0,
        !m.edited_this_frame || m.gesture_active ==> after_frame(m).undo_stack == m.undo_stack
            && after_frame(m).redo_stack == m.redo_stack,
        after_frame(m).doc == m.doc,
        !after_frame(m).edited_this_frame,
{
}

/// Undo brings back the latest snapshot and puts the document aside for redo;
/// without a snapshot it does nothing.
pub proof fn undo_brings_back_the_latest(m: AppModel)
    ensures
        m.undo_stack.len() == 0 ==> undone(m) == m,
        m.undo_stack.len() > 0 ==> {
            &&& undone(m).doc == Some(m.undo_stack.last())
            &&& undone(m).undo_stack == m.undo_stack.drop_last()
            &&& m.doc matches Some(d) ==> undone(m).redo_stack == m.redo_stack.push(d)
        },
        m.redo_stack.len() == 0 ==> redone(m) == m,
        m.redo_stack.len() > 0 ==> {
            &&& redone(m).doc == Some(m.redo_stack.last())
            &&& redone(m).redo_stack == m.redo_stack.drop_last()
            &&& m.doc matches Some(d) ==> redone(m).undo_stack == m.undo_stack.push(d)
        },
{
}

/// The kept entries are those whose flag is set, and no others.
pub proof fn kept_entries_are_flagged(e: Seq<IatEntry>, k: Seq<bool>, n: nat, x: IatEntry)
    requires
        n <= e.len(),
        n <= k.len(),
    ensures
        kept_entries(e, k, n).contains(x) <==> exists|i: int|
            0 <= i < n && k[i] && #[trigger] e[i] == x,
    decreases n,
{
    if n > 0 {
        kept_entries_are_flagged(e, k, (n - 1) as nat, x);
        if k[n - 1] {
            lemma_pushed(kept_entries(e, k, (n - 1) as nat), e[n - 1], x);
        }
        if exists|i: int| 0 <= i < n && k[i] && #[trigger] e[i] == x {
            let i = choose|i: int| 0 <= i < n && k[i] && #[trigger] e[i] == x;
            if i < n - 1 {
                assert(e[i] == x);
            }
        }
    }
}

/// Applying the header edits sets the five values that can be edited, and no
/// other field.
pub proof fn applied_edits_are_the_header(h: OptionalHeader, e: HeaderEdits)
    ensures
        match h {
            OptionalHeader::Bit32(x) => e.image_base <= u32::MAX ==> with_edits(h, e)
                == OptionalHeader::Bit32(
                OptionalHeader32 {
                    image_base: e.image_base as u32,
                    address_of_entry_point: Rva(e.entry_point),
                    section_alignment: e.section_alignment,
                    file_alignment: e.file_alignment,
                    subsystem: e.subsystem,
                    ..x
                },
            ),
            OptionalHeader::Bit64(x) => with_edits(h, e) == OptionalHeader::Bit64(
                OptionalHeader64 {
                    image_base: e.image_base,
                    address_of_entry_point: Rva(e.entry_point),
                    section_alignment: e.section_alignment,
                    file_alignment: e.file_alignment,
                    subsystem: e.subsystem,
                    ..x
                },
            ),
        },
        edits_of(h).image_base == header_image_base(h),
        edits_of(h).entry_point == header_address_of_entry_point(h).0,
        edits_of(h).section_alignment == header_section_alignment(h),
        edits_of(h).file_alignment == header_file_alignment(h),
        edits_of(h).subsystem == header_subsystem(h),
{
}

/// A save is warned about if and only if there is a document and its imports are
/// in doubt: the last fix left some unresolved, a dump was never fixed, or there
/// are none.
pub proof fn doubtful_imports_are_warned_about(m: DumpAppModel)
    ensures
        health_warning(m) is Some <==> m.doc is Some && {
            ||| m.last_fix matches Some(r) && r.unresolved.len() > 0
            ||| m.source == Source::Dump && m.last_fix is None
            ||| (m.doc->0).imports.len() == 0
        },
{
}

/// Two ranges overlap if and only if they have an address in common.
pub proof fn overlapping_ranges_share_an_address(a: (u32, u32), b: (u32, u32))
    ensures
        overlap(a, b) <==> exists|x: int| #[trigger] in_range(a, x) && in_range(b, x),
{
    if overlap(a, b) {
        let x = if a.0 < b.0 {
            b.0 as int
        } else {
            a.0 as int
        };
        assert(in_range(a, x) && in_range(b, x));
    }
}

/// Whether an address lies in a range, below the top of the address space.
pub open spec fn in_range(r: (u32, u32), x: int) -> bool {
    r.0 <= x < r.0 + r.1 && x < u32::MAX
}

/// White space inside a text of hexadecimal digits does not count, and every two
/// digits are a byte.
pub proof fn hex_texts_are_bytes(s: Seq<char>, i: int)
    ensures
        compacted(s) == s.filter(|c: char| !white_space(c)),
        all_hex(s) && 0 <= 2 * i && 2 * i + 1 < s.len() ==> ({
            let hi = digit_value(s[2 * i], 16);
            let lo = digit_value(s[2 * i + 1], 16);
            &&& hi is Some && lo is Some
            &&& hex_pairs(s).len() == s.len() / 2
            &&& hex_pairs(s)[i] == 16 * hi->0 + lo->0
        }),
    decreases s.len(),
{
    reveal(Seq::filter);
    if s.len() > 0 {
        let t = s.drop_last();
        hex_texts_are_bytes(t, 0);
    }
    if all_hex(s) && 0 <= 2 * i && 2 * i + 1 < s.len() {
        assert(digit_value(s[2 * i], 16) is Some);
        assert(digit_value(s[2 * i + 1], 16) is Some);
    }
}

/// A jump goes to the address that was typed where the section holds it, counted
/// from the image base if it lies above that, and otherwise to the nearest end.
pub proof fn jumps_go_to_the_address(v: u64, image_base: u64, sec_base: u32, sec_len: nat)
    requires
        sec_len > 0,
        sec_base + sec_len <= u32::MAX,
    ensures
        ({
            let rva = if v >= image_base {
                v - image_base
            } else {
                v as int
            };
            let to = jump_target(v, image_base, sec_base, sec_len);
            rva <= u32::MAX ==> to == if rva < sec_base {
                sec_base as int
            } else if rva < sec_base + sec_len {
                rva
            } else {
                sec_base + sec_len - 1
            }
        }),
{
}

/// The value of a digit is the one it is written for, and no other character is
/// a digit.
pub proof fn digits_have_their_value(c: char)
    ensures
        digit_value(c, 16) == if '0' <= c && c <= '9' {
            Some((c as u32 - '0' as u32) as nat)
        } else if 'a' <= c && c <= 'f' {
            Some((c as u32 - 'a' as u32 + 10) as nat)
        } else if 'A' <= c && c <= 'F' {
            Some((c as u32 - 'A' as u32 + 10) as nat)
        } else {
            None
        },
        digit_value(c, 10) == if '0' <= c && c <= '9' {
            Some((c as u32 - '0' as u32) as nat)
        } else {
            None
        },
{
}

proof fn lemma_options_differ()
    ensures
        "--method"@ != "--no-validate"@,
        "--method"@ != "--"@,
        "--method"@ != "--dump-only"@,
        "--method"@ != "--rebase"@,
        "--no-validate"@ != "--"@,
        "--no-validate"@ != "--dump-only"@,
        "--no-validate"@ != "--rebase"@,
        "--rebase"@ != "--"@,
        "--rebase"@ != "--dump-only"@,
        "--dump-only"@ != "--"@,
        "resolver"@ != "reflection"@,
        "resolver"@ != "code"@,
        "reflection"@ != "code"@,
{
    reveal_strlit("--method");
    reveal_strlit("--no-validate");
    reveal_strlit("--");
    reveal_strlit("--dump-only");
    reveal_strlit("--rebase");
    reveal_strlit("resolver");
    reveal_strlit("reflection");
    reveal_strlit("code");
    assert("--method"@.len() == 8);
    assert("--no-validate"@.len() == 13);
    assert("--"@.len() == 2);
    assert("--dump-only"@.len() == 11);
    assert("--rebase"@.len() == 8);
    assert("--method"@[2] == 'm');
    assert("--rebase"@[2] == 'r');
    assert("resolver"@.len() == 8);
    assert("reflection"@.len() == 10);
    assert("code"@.len() == 4);
}

/// The words for the three ways to scan.
pub proof fn methods_have_their_words()
    ensures
        named_method("resolver"@) == Some(ScanMethod::Resolver),
        named_method("reflection"@) == Some(ScanMethod::Reflection),
        named_method("code"@) == Some(ScanMethod::CodeReference),
{
    lemma_options_differ();
}

/// The options of a dump are understood before and behind the output path; what
/// is not given keeps its default: the resolver, and slots validated.
pub proof fn dump_options_come_in_any_order(out: Seq<char>, word: Seq<char>, m: ScanMethod)
    requires
        out != "--method"@,
        out != "--no-validate"@,
        named_method(word) == Some(m),
    ensures
        dump_options(seq![out], 0, plain_dump()) == Ok::<_, Seq<char>>(
            DumpOptionsModel { out: Some(out), method: ScanMethod::Resolver, validate: true },
        ),
        dump_options(seq![out, "--method"@, word], 0, plain_dump()) == Ok::<_, Seq<char>>(
            DumpOptionsModel { out: Some(out), method: m, validate: true },
        ),
        dump_options(seq!["--method"@, word, out], 0, plain_dump()) == Ok::<_, Seq<char>>(
            DumpOptionsModel { out: Some(out), method: m, validate: true },
        ),
        dump_options(seq!["--no-validate"@, out], 0, plain_dump()) == Ok::<_, Seq<char>>(
            DumpOptionsModel { out: Some(out), method: ScanMethod::Resolver, validate: false },
        ),
{
    lemma_options_differ();
    reveal_with_fuel(dump_options, 4);
}

/// Whether a word is no option of a spawn.
pub open spec fn is_path(w: Seq<char>) -> bool {
    w != "--"@ && w != "--dump-only"@ && w != "--method"@ && w != "--no-validate"@ && w
        != "--rebase"@
}

/// Every word of a spawn sets what it stands for and nothing else: the first two
/// that are no options are the program and the output path, a base is the number
/// behind its option or the usual one, and what comes behind `--` goes to the
/// program.
pub proof fn spawn_words_set_their_option(
    a: Seq<Seq<char>>,
    i: nat,
    o: SpawnOptionsModel,
    m: ScanMethod,
    base: u64,
)
    requires
        i < a.len(),
    ensures
        spawn_options(a, a.len(), o) == Ok::<_, Seq<char>>(o),
        is_path(a[i as int]) && o.exe is None ==> spawn_options(a, i, o) == spawn_options(
            a,
            i + 1,
            SpawnOptionsModel { exe: Some(a[i as int]), ..o },
        ),
        is_path(a[i as int]) && o.exe is Some && o.out is None ==> spawn_options(a, i, o)
            == spawn_options(a, i + 1, SpawnOptionsModel { out: Some(a[i as int]), ..o }),
        is_path(a[i as int]) && o.exe is Some && o.out is Some ==> spawn_options(a, i, o) is Err,
        a[i as int] == "--no-validate"@ ==> spawn_options(a, i, o) == spawn_options(
            a,
            i + 1,
            SpawnOptionsModel { validate: false, ..o },
        ),
        a[i as int] == "--dump-only"@ ==> spawn_options(a, i, o) == spawn_options(
            a,
            i + 1,
            SpawnOptionsModel { dump_only: true, ..o },
        ),
        a[i as int] == "--method"@ && i + 1 < a.len() && named_method(a[(i + 1) as int]) == Some(m)
            ==> spawn_options(a, i, o) == spawn_options(
            a,
            i + 2,
            SpawnOptionsModel { method: m, ..o },
        ),
        a[i as int] == "--rebase"@ && i + 1 < a.len() && a[(i + 1) as int] == hex_text(base as nat)
            ==> spawn_options(a, i, o) == spawn_options(
            a,
            i + 2,
            SpawnOptionsModel { rebase: Some(base), ..o },
        ),
        a[i as int] == "--rebase"@ && i + 1 == a.len() ==> spawn_options(a, i, o) == spawn_options(
            a,
            i + 1,
            SpawnOptionsModel { rebase: Some(0x1_4000_0000), ..o },
        ),
        a[i as int] == "--"@ ==> spawn_options(a, i, o) == Ok::<_, Seq<char>>(
            SpawnOptionsModel { target_args: a.skip((i + 1) as int), ..o },
        ),
{
    lemma_options_differ();
    printed_address_reads_back(base);
}

/// The kinds of relocations that have a name, by their number.
pub proof fn relocations_by_number(t: u8)
    ensures
        t == 0 ==> reloc_name(t) == Some("ABSOLUTE"@),
        t == 1 ==> reloc_name(t) == Some("HIGH"@),
        t == 2 ==> reloc_name(t) == Some("LOW"@),
        t == 3 ==> reloc_name(t) == Some("HIGHLOW"@),
        t == 4 ==> reloc_name(t) == Some("HIGHADJ"@),
        t == 5 ==> reloc_name(t) == Some("MIPS_JMPADDR"@),
        t == 10 ==> reloc_name(t) == Some("DIR64"@),
        t > 5 && t != 10 ==> reloc_name(t) is None,
{
}

/// Removing a section that may be removed takes it and its name out, marks the
/// document as changed, and leaves a section selected.
pub proof fn removed_sections_are_gone(m: AppModel, i: int)
    requires
        m.doc is Some,
        m.section_names.len() == (m.doc->0).sections.len(),
        0 <= i < (m.doc->0).sections.len(),
        (m.doc->0).sections.len() > 1,
    ensures
        ({
            let d = m.doc->0;
            let (r, n) = section_removed(m, i);
            &&& n is None
            &&& r.doc is Some
            &&& (r.doc->0).sections == d.sections.take(i) + d.sections.skip(i + 1)
            &&& r.section_names == m.section_names.take(i) + m.section_names.skip(i + 1)
            &&& r.selected_section < (r.doc->0).sections.len()
            &&& r.dirty && r.edited_this_frame
        }),
{
    let d = m.doc->0;
    assert(d.sections.remove(i) =~= d.sections.take(i) + d.sections.skip(i + 1));
    assert(m.section_names.remove(i) =~= m.section_names.take(i) + m.section_names.skip(i + 1));
}

/// The last section of a document stays, and so does one that is not there.
pub proof fn last_section_stays(m: AppModel, i: int)
    requires
        m.doc is Some,
        0 <= i,
        i >= (m.doc->0).sections.len() || (m.doc->0).sections.len() <= 1,
    ensures
        section_removed(m, i).0 == m,
        section_removed(m, i).1 is Some,
{
}

/// Changes that were not saved are asked about before they are lost: a document
/// that was opened has none, and every edit makes some.
pub proof fn edits_are_asked_about(m: AppModel, d: DocModel)
    ensures
        !gated(opened(m, d)),
        gated(edited_to(m, d)),
        opened(m, d).undo_stack.len() == 0 && opened(m, d).redo_stack.len() == 0,
        opened(m, d).doc == Some(d) && edited_to(m, d).doc == Some(d),
{
}

} // verus!

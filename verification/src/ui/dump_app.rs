//! The state of the dump editor and what its commands do to it.

use crate::api::editor::{remove_section_error, PeEditor};
use crate::api::exporter::{exports_with, exports_without, ExportTableEditor};
use crate::api::iat_scanner::{scanned, IatScanner};
use crate::api::importer::{imports_with, imports_without, module_at, ImportTableEditor};
use crate::api::resolver::ImportResolver;
use crate::domain::document::{opt_view, DocModel, PeDocument};
use crate::domain::export::{opt_text, ExportSymbol, ExportSymbolModel};
use crate::domain::iat::{
    clone_entries, region_entries, region_entry, slot_count, IatEntry, IatFixReport,
    IatFixReportModel, IatScan, IatScanModel, IatTable, ScanMethod, ScanOptions,
};
use crate::domain::import::{views, ImportFunction, ImportFunctionModel};
use crate::domain::optional::{
    header_address_of_entry_point, header_file_alignment, header_image_base,
    header_section_alignment, header_subsystem, with_address_of_entry_point, with_file_alignment,
    with_image_base, with_section_alignment, with_subsystem, OptionalHeader,
};
use crate::domain::types::{pointer_size, Rva};
use crate::error::{result_view, PeErrorModel, PeResult};
use crate::io::pe::decode::parsed;
use crate::io::pe::parser::parse;
use crate::io::pe::writer::{serialize, serialized, writable};
use crate::text::{dec_text, hex_text, lowercase, push_dec, push_hex, to_lower};
use crate::ui::cli::{add_named_section, is_named_section};
use crate::ui::format::dec_string;
use crate::ui::input::{is_blank, trim, trimmed};
use crate::ui::labels::scan_method_name;
use crate::ui::search::{occurs_in, text_contains};
use vstd::prelude::*;
use vstd::string::*;

verus! {

/// The pages of the dump editor.
#[derive(Debug, Clone, Copy, PartialEq, Eq, Structural)]
pub enum Tab {
    Headers,
    Sections,
    Imports,
    Exports,
    Directories,
    Iat,
}

/// Editable optional-header fields (synced from the document on load, applied
/// with the Apply button).
#[derive(Debug, Clone, Copy, PartialEq, Eq, Structural)]
pub struct HeaderEdits {
    pub image_base: u64,
    pub entry_point: u32,
    pub section_alignment: u32,
    pub file_alignment: u32,
    pub subsystem: u16,
}

/// Where the current document came from — drives Save behaviour and the
/// save-time import-table health check.
#[derive(Debug, Clone, Copy, PartialEq, Eq, Structural)]
pub enum Source {
    File,
    Dump,
}

/// The header fields before a document was loaded.
pub open spec fn no_header_edits() -> HeaderEdits {
    HeaderEdits {
        image_base: 0,
        entry_point: 0,
        section_alignment: 0,
        file_alignment: 0,
        subsystem: 0,
    }
}

fn no_edits() -> (r: HeaderEdits)
    ensures
        r == no_header_edits(),
{
    HeaderEdits {
        image_base: 0,
        entry_point: 0,
        section_alignment: 0,
        file_alignment: 0,
        subsystem: 0,
    }
}

/// The state of the dump editor.
pub struct PeEditorApp {
    pub path: String,
    pub pid: String,
    /// Short label of the dumped module ("main module" or the DLL name).
    pub dump_label: String,
    pub save_path: String,
    pub doc: Option<PeDocument>,
    pub scan: Option<IatScan>,
    pub source: Source,
    /// Outcome of the last successful IAT fix, for the save health check.
    pub last_fix: Option<IatFixReport>,
    /// Pending save-time confirmation: the warning to show.
    pub save_warning: Option<String>,
    /// Where to write once the user force-saves a possibly-broken import table.
    pub pending_save_path: Option<String>,
    /// Curated IAT entries (scan result + hand-added regions).
    pub iat_entries: Vec<IatEntry>,
    /// One keep flag per entry — uncheck to drop a false positive before fixing.
    pub iat_keep: Vec<bool>,
    pub iat_region_rva: u32,
    pub iat_region_size: u32,
    pub iat_add_rva: u32,
    pub iat_add_value: u64,
    pub scan_method: ScanMethod,
    pub status: String,
    pub tab: Tab,
    pub header_edits: HeaderEdits,
    pub new_section_name: String,
    pub new_section_size: u32,
    pub new_import_module: String,
    pub new_import_func: String,
    pub new_export_ordinal: u16,
    pub new_export_name: String,
    pub new_export_rva: u32,
    pub process_filter: String,
    pub show_process_picker: bool,
}

/// The state of the dump editor as mathematical values.
#[verifier::ext_equal]
pub struct DumpAppModel {
    pub path: Seq<char>,
    pub pid: Seq<char>,
    pub dump_label: Seq<char>,
    pub save_path: Seq<char>,
    pub doc: Option<DocModel>,
    pub scan: Option<IatScanModel>,
    pub source: Source,
    pub last_fix: Option<IatFixReportModel>,
    pub save_warning: Option<Seq<char>>,
    pub pending_save_path: Option<Seq<char>>,
    pub iat_entries: Seq<IatEntry>,
    pub iat_keep: Seq<bool>,
    pub iat_region_rva: u32,
    pub iat_region_size: u32,
    pub iat_add_rva: u32,
    pub iat_add_value: u64,
    pub scan_method: ScanMethod,
    pub status: Seq<char>,
    pub tab: Tab,
    pub header_edits: HeaderEdits,
    pub new_section_name: Seq<char>,
    pub new_section_size: u32,
    pub new_import_module: Seq<char>,
    pub new_import_func: Seq<char>,
    pub new_export_ordinal: u16,
    pub new_export_name: Seq<char>,
    pub new_export_rva: u32,
    pub process_filter: Seq<char>,
    pub show_process_picker: bool,
}

impl View for PeEditorApp {
    type V = DumpAppModel;

    open spec fn view(&self) -> DumpAppModel {
        DumpAppModel {
            path: self.path@,
            pid: self.pid@,
            dump_label: self.dump_label@,
            save_path: self.save_path@,
            doc: opt_view(self.doc),
            scan: opt_view(self.scan),
            source: self.source,
            last_fix: opt_view(self.last_fix),
            save_warning: opt_text(self.save_warning),
            pending_save_path: opt_text(self.pending_save_path),
            iat_entries: self.iat_entries@,
            iat_keep: self.iat_keep@,
            iat_region_rva: self.iat_region_rva,
            iat_region_size: self.iat_region_size,
            iat_add_rva: self.iat_add_rva,
            iat_add_value: self.iat_add_value,
            scan_method: self.scan_method,
            status: self.status@,
            tab: self.tab,
            header_edits: self.header_edits,
            new_section_name: self.new_section_name@,
            new_section_size: self.new_section_size,
            new_import_module: self.new_import_module@,
            new_import_func: self.new_import_func@,
            new_export_ordinal: self.new_export_ordinal,
            new_export_name: self.new_export_name@,
            new_export_rva: self.new_export_rva,
            process_filter: self.process_filter@,
            show_process_picker: self.show_process_picker,
        }
    }
}

/// The state the dump editor starts in.
pub open spec fn initial_state() -> DumpAppModel {
    DumpAppModel {
        path: Seq::empty(),
        pid: Seq::empty(),
        dump_label: Seq::empty(),
        save_path: Seq::empty(),
        doc: None,
        scan: None,
        source: Source::File,
        last_fix: None,
        save_warning: None,
        pending_save_path: None,
        iat_entries: Seq::empty(),
        iat_keep: Seq::empty(),
        iat_region_rva: 0,
        iat_region_size: 0,
        iat_add_rva: 0,
        iat_add_value: 0,
        scan_method: ScanMethod::Resolver,
        status: Seq::empty(),
        tab: Tab::Headers,
        header_edits: no_header_edits(),
        new_section_name: Seq::empty(),
        new_section_size: 0,
        new_import_module: Seq::empty(),
        new_import_func: Seq::empty(),
        new_export_ordinal: 0,
        new_export_name: Seq::empty(),
        new_export_rva: 0,
        process_filter: Seq::empty(),
        show_process_picker: false,
    }
}

impl Default for PeEditorApp {
    fn default() -> (r: PeEditorApp)
        ensures
            r@ == initial_state(),
    {
        let r = PeEditorApp {
            path: String::new(),
            pid: String::new(),
            dump_label: String::new(),
            save_path: String::new(),
            doc: None,
            scan: None,
            source: Source::File,
            last_fix: None,
            save_warning: None,
            pending_save_path: None,
            iat_entries: Vec::new(),
            iat_keep: Vec::new(),
            iat_region_rva: 0,
            iat_region_size: 0,
            iat_add_rva: 0,
            iat_add_value: 0,
            scan_method: ScanMethod::Resolver,
            status: String::new(),
            tab: Tab::Headers,
            header_edits: no_edits(),
            new_section_name: String::new(),
            new_section_size: 0,
            new_import_module: String::new(),
            new_import_func: String::new(),
            new_export_ordinal: 0,
            new_export_name: String::new(),
            new_export_rva: 0,
            process_filter: String::new(),
            show_process_picker: false,
        };
        assert(r@ =~= initial_state());
        r
    }
}

/// The editable fields of an optional header.
pub open spec fn edits_of(h: OptionalHeader) -> HeaderEdits {
    HeaderEdits {
        image_base: header_image_base(h),
        entry_point: header_address_of_entry_point(h).0,
        section_alignment: header_section_alignment(h),
        file_alignment: header_file_alignment(h),
        subsystem: header_subsystem(h),
    }
}

/// An optional header with the edited fields applied.
pub open spec fn with_edits(h: OptionalHeader, e: HeaderEdits) -> OptionalHeader {
    with_subsystem(
        with_file_alignment(
            with_section_alignment(
                with_address_of_entry_point(
                    with_image_base(h, e.image_base),
                    Rva(e.entry_point),
                ),
                e.section_alignment,
            ),
            e.file_alignment,
        ),
        e.subsystem,
    )
}

/// The state with what belongs to the document before given up.
pub open spec fn cleared(m: DumpAppModel) -> DumpAppModel {
    DumpAppModel {
        scan: None,
        iat_entries: Seq::empty(),
        iat_keep: Seq::empty(),
        last_fix: None,
        ..m
    }
}

/// The state with another status line.
pub open spec fn saying(m: DumpAppModel, s: Seq<char>) -> DumpAppModel {
    DumpAppModel { status: s, ..m }
}

/// The state with a document from `source`.
pub open spec fn holding(m: DumpAppModel, d: DocModel, source: Source) -> DumpAppModel {
    DumpAppModel { doc: Some(d), source, header_edits: edits_of(d.optional), ..m }
}

/// The state after a file was loaded.
pub open spec fn file_loaded(m: DumpAppModel, bytes: Seq<u8>) -> DumpAppModel {
    let c = cleared(m);
    match parsed(bytes) {
        Ok(d) => saying(holding(c, d, Source::File), "loaded "@ + m.path),
        Err(e) => saying(c, "parse failed: "@ + e.shown()),
    }
}

/// The state after a module was dumped.
pub open spec fn module_dumped(
    m: DumpAppModel,
    r: Result<DocModel, PeErrorModel>,
    pid: u32,
    label: Seq<char>,
) -> DumpAppModel {
    let c = cleared(m);
    match r {
        Ok(d) => saying(
            DumpAppModel { dump_label: label, ..holding(c, d, Source::Dump) },
            "dumped "@ + label + " (pid "@ + dec_text(pid as nat) + ")"@,
        ),
        Err(e) => saying(c, "dump failed: "@ + e.shown()),
    }
}

/// The name of a scan method.
pub open spec fn method_name(m: ScanMethod) -> Seq<char> {
    match m {
        ScanMethod::Resolver => "Resolver"@,
        ScanMethod::CodeReference => "Code references"@,
        ScanMethod::Reflection => "Reflection"@,
    }
}

/// The state after a scan came out as `r`.
pub open spec fn scan_done(m: DumpAppModel, r: Result<IatScanModel, PeErrorModel>) -> DumpAppModel {
    match r {
        Ok(scan) => saying(
            DumpAppModel {
                iat_entries: scan.entries,
                iat_keep: Seq::new(scan.entries.len(), |i: int| true),
                scan: Some(scan),
                ..m
            },
            "scan ("@ + method_name(m.scan_method) + ") — IAT at "@ + hex_text(
                scan.base_rva.0 as nat,
            ) + ", "@ + dec_text(scan.entries.len()) + " entries"@,
        ),
        Err(e) => saying(
            DumpAppModel { scan: None, ..m },
            "scan ("@ + method_name(m.scan_method) + ") failed: "@ + e.shown(),
        ),
    }
}

/// The status line on a fix.
pub open spec fn fix_text(r: IatFixReportModel) -> Seq<char> {
    "fixed "@ + dec_text(r.imports_built as nat) + " imports ("@ + dec_text(r.unresolved.len())
        + " unresolved, new table at "@ + hex_text(
        match r.new_import_rva {
            Some(rva) => rva.0 as nat,
            None => 0,
        },
    ) + ")"@
}

/// The state after a fix came out as `r`.
pub open spec fn fix_done(
    m: DumpAppModel,
    r: Result<IatFixReportModel, PeErrorModel>,
    failed: Seq<char>,
) -> DumpAppModel {
    match r {
        Ok(report) => saying(
            DumpAppModel { last_fix: Some(report), ..m },
            fix_text(report),
        ),
        Err(e) => saying(m, failed + e.shown()),
    }
}

/// Reason to warn before saving, if any: the saved file may not run.
pub open spec fn health_warning(m: DumpAppModel) -> Option<Seq<char>> {
    match m.doc {
        None => None,
        Some(d) => if m.last_fix matches Some(r) && r.unresolved.len() > 0 {
            Some(
                "上次修复有 "@ + dec_text((m.last_fix->0).unresolved.len())
                    + " 个导入未能解析,依赖它们的调用会失效。"@,
            )
        } else if m.source == Source::Dump && m.last_fix is None {
            Some("该文件来自进程 dump,导入表尚未修复,保存的 dump 通常无法直接运行。"@)
        } else if d.imports.len() == 0 {
            Some("导入表为空,可能无法正常运行。"@)
        } else {
            None
        },
    }
}

/// Where Save goes: the file's own path, or the last "Save As…" path; none for
/// a dump that has never been saved.
pub open spec fn save_path_of(m: DumpAppModel) -> Option<Seq<char>> {
    if m.source == Source::File && trimmed(m.save_path).len() == 0 {
        Some(m.path)
    } else if trimmed(m.save_path).len() > 0 {
        Some(m.save_path)
    } else {
        None
    }
}

/// The entries that are kept, of the first `n`.
pub open spec fn kept_entries(e: Seq<IatEntry>, k: Seq<bool>, n: nat) -> Seq<IatEntry>
    decreases n,
{
    if n == 0 {
        Seq::empty()
    } else {
        let before = kept_entries(e, k, (n - 1) as nat);
        if k[n - 1] {
            before.push(e[n - 1])
        } else {
            before
        }
    }
}

/// How many entries have a flag.
pub open spec fn flagged(e: Seq<IatEntry>, k: Seq<bool>) -> nat {
    if e.len() <= k.len() {
        e.len()
    } else {
        k.len()
    }
}

/// What stands in the way of fixing the scanned IAT.
pub open spec fn fix_obstacle(m: DumpAppModel, has_resolver: bool) -> Option<Seq<char>> {
    if !has_resolver {
        Some("no process resolver"@)
    } else if m.scan is None {
        Some("no IAT scan"@)
    } else if m.doc is None {
        Some("no document"@)
    } else {
        None
    }
}

/// What stands in the way of fixing the curated table.
pub open spec fn curated_obstacle(m: DumpAppModel, has_resolver: bool) -> Option<Seq<char>> {
    if !has_resolver {
        Some("no process resolver"@)
    } else if kept_entries(m.iat_entries, m.iat_keep, flagged(m.iat_entries, m.iat_keep)).len()
        == 0 {
        Some("no entries kept"@)
    } else {
        None
    }
}

/// Whether a process passes the filter, by its name or by its id; name and
/// filter are in lower case.
pub open spec fn lowered_passes(name: Seq<char>, pid: u32, filter: Seq<char>) -> bool {
    occurs_in(name, filter) || occurs_in(dec_text(pid as nat), filter)
}

/// Whether a process passes the filter, white space around it and letter case
/// aside. A blank filter lets everything through.
pub open spec fn process_passes(name: Seq<char>, pid: u32, filter: Seq<char>) -> bool {
    trimmed(filter).len() == 0 || lowered_passes(
        lowercase(name),
        pid,
        lowercase(trimmed(filter)),
    )
}

/// Whether a process passes the filter; name and filter are in lower case.
pub fn lowered_matches(name: &str, pid: u32, filter: &str) -> (r: bool)
    ensures
        r == lowered_passes(name@, pid, filter@),
{
    text_contains(name, filter) || text_contains(dec_string(pid as u64).as_str(), filter)
}

/// Whether a process passes the filter.
pub fn process_matches(name: &str, pid: u32, filter: &str) -> (r: bool)
    ensures
        r == process_passes(name@, pid, filter@),
        trimmed(filter@).len() == 0 ==> r,
{
    let t = trim(filter);
    t.as_str().is_empty() || lowered_matches(
        to_lower(name).as_str(),
        pid,
        to_lower(t.as_str()).as_str(),
    )
}

impl PeEditorApp {
    /// Show the header fields that the document has.
    pub fn sync_header_edits(&mut self)
        ensures
            final(self)@ == match old(self)@.doc {
                Some(d) => DumpAppModel { header_edits: edits_of(d.optional), ..old(self)@ },
                None => old(self)@,
            },
    {
        if let Some(doc) = &self.doc {
            self.header_edits = HeaderEdits {
                image_base: doc.optional.image_base(),
                entry_point: doc.optional.address_of_entry_point().get(),
                section_alignment: doc.optional.section_alignment(),
                file_alignment: doc.optional.file_alignment(),
                subsystem: doc.optional.subsystem(),
            };
        }
    }

    /// Give up what belongs to the document before.
    fn clear(&mut self)
        ensures
            final(self)@ == cleared(old(self)@),
    {
        self.scan = None;
        self.iat_entries = Vec::new();
        self.iat_keep = Vec::new();
        self.last_fix = None;
    }

    /// Load the document that the bytes of the file at `path` hold.
    pub fn load_bytes(&mut self, bytes: &[u8])
        ensures
            final(self)@ == file_loaded(old(self)@, bytes@),
    {
        self.clear();
        match parse(bytes) {
            Ok(doc) => {
                self.doc = Some(doc);
                self.source = Source::File;
                self.sync_header_edits();
                let mut s: String = "loaded ".to_owned();
                s.append(self.path.as_str());
                self.status = s;
            },
            Err(e) => {
                let mut s: String = "parse failed: ".to_owned();
                s.append(e.message().as_str());
                self.status = s;
            },
        }
    }

    /// The file at `path` could not be read.
    pub fn read_failed(&mut self, reason: &str)
        ensures
            final(self)@ == saying(cleared(old(self)@), "read failed: "@ + reason@),
    {
        self.clear();
        let mut s: String = "read failed: ".to_owned();
        s.append(reason);
        self.status = s;
    }

    /// Take over what dumping a module of process `pid` gave.
    pub fn accept_dump(&mut self, dumped: PeResult<PeDocument>, pid: u32, label: &str)
        ensures
            final(self)@ == module_dumped(
                old(self)@,
                result_view(dumped),
                pid,
                label@,
            ),
    {
        self.clear();
        match dumped {
            Ok(doc) => {
                self.doc = Some(doc);
                self.source = Source::Dump;
                self.dump_label = label.to_owned();
                self.sync_header_edits();
                let mut s: String = "dumped ".to_owned();
                s.append(label);
                s.append(" (pid ");
                push_dec(&mut s, pid as u64);
                s.append(")");
                self.status = s;
            },
            Err(e) => {
                let mut s: String = "dump failed: ".to_owned();
                s.append(e.message().as_str());
                self.status = s;
            },
        }
    }

    /// Scan the document for its IAT with the selected method.
    pub fn scan_iat<R: ImportResolver>(&mut self, resolver: Option<&R>)
        ensures
            final(self)@ == match (old(self)@.doc, resolver) {
                (None, _) => saying(old(self)@, "no document"@),
                (Some(_), None) => saying(
                    old(self)@,
                    "no process resolver — dump a process first"@,
                ),
                (Some(d), Some(r)) => scan_done(
                    old(self)@,
                    scanned(
                        d,
                        r,
                        ScanOptions {
                            region: None,
                            method: old(self)@.scan_method,
                            min_entries: 4,
                            max_null_gap: 4,
                            validate_slots: true,
                        },
                    ),
                ),
            },
    {
        let method: ScanMethod = self.scan_method;
        let r: PeResult<IatScan> = match &self.doc {
            None => {
                self.status = "no document".to_owned();
                return ;
            },
            Some(doc) => match resolver {
                None => {
                    self.status = "no process resolver — dump a process first".to_owned();
                    return ;
                },
                Some(resolver) => {
                    let mut options: ScanOptions = ScanOptions::default();
                    options.method = method;
                    doc.scan(resolver, &options)
                },
            },
        };
        let mut s: String = "scan (".to_owned();
        s.append(scan_method_name(method));
        match r {
            Ok(scan) => {
                let n: usize = scan.entries.len();
                s.append(") — IAT at ");
                push_hex(&mut s, scan.base_rva.get() as u64);
                s.append(", ");
                push_dec(&mut s, n as u64);
                s.append(" entries");
                self.iat_entries = clone_entries(&scan.entries);
                self.iat_keep = vec![true; n];
                assert(self.iat_keep@ =~= Seq::new(n as nat, |i: int| true));
                self.status = s;
                self.scan = Some(scan);
            },
            Err(e) => {
                s.append(") failed: ");
                s.append(e.message().as_str());
                self.status = s;
                self.scan = None;
            },
        }
    }

    /// Choose the scan method; a scan is only meaningful for the method that
    /// produced it.
    pub fn choose_method(&mut self, method: ScanMethod)
        ensures
            final(self)@ == if old(self)@.scan_method == method {
                old(self)@
            } else {
                DumpAppModel { scan_method: method, scan: None, ..old(self)@ }
            },
    {
        if self.scan_method != method {
            self.scan_method = method;
            self.scan = None;
        }
    }

    /// Whether the scanned IAT can be fixed; where it cannot, the status line
    /// says what is missing: first the resolver, then the scan, then the
    /// document.
    pub fn may_fix(&mut self, has_resolver: bool) -> (go: bool)
        ensures
            go == fix_obstacle(old(self)@, has_resolver) is None,
            final(self)@ == match fix_obstacle(old(self)@, has_resolver) {
                Some(m) => saying(old(self)@, m),
                None => old(self)@,
            },
    {
        if !has_resolver {
            self.status = "no process resolver".to_owned();
            false
        } else if self.scan.is_none() {
            self.status = "no IAT scan".to_owned();
            false
        } else if self.doc.is_none() {
            self.status = "no document".to_owned();
            false
        } else {
            true
        }
    }

    /// The curated table to fix; where there is none, the status line says what
    /// is missing: first the resolver, then an entry that is kept.
    pub fn curated_table(&mut self, has_resolver: bool) -> (r: Option<IatTable>)
        ensures
            match curated_obstacle(old(self)@, has_resolver) {
                Some(m) => r is None && final(self)@ == saying(old(self)@, m),
                None => r is Some && final(self)@ == old(self)@ && r->0@ == kept_entries(
                    old(self)@.iat_entries,
                    old(self)@.iat_keep,
                    flagged(old(self)@.iat_entries, old(self)@.iat_keep),
                ),
            },
    {
        if !has_resolver {
            self.status = "no process resolver".to_owned();
            return None;
        }
        let kept = self.kept();
        if kept.len() == 0 {
            self.status = "no entries kept".to_owned();
            return None;
        }
        Some(IatTable::from_entries(kept))
    }

    /// Take over what fixing the IAT gave; `failed` begins the status line when
    /// it failed.
    pub fn accept_fix(&mut self, fixed: PeResult<IatFixReport>, failed: &str)
        ensures
            final(self)@ == fix_done(old(self)@, result_view(fixed), failed@),
    {
        match fixed {
            Ok(report) => {
                let mut s: String = "fixed ".to_owned();
                push_dec(&mut s, report.imports_built as u64);
                s.append(" imports (");
                push_dec(&mut s, report.unresolved.len() as u64);
                s.append(" unresolved, new table at ");
                let rva: u32 = match report.new_import_rva {
                    Some(rva) => rva.get(),
                    None => 0,
                };
                push_hex(&mut s, rva as u64);
                s.append(")");
                self.last_fix = Some(report);
                self.status = s;
            },
            Err(e) => {
                let mut s: String = failed.to_owned();
                s.append(e.message().as_str());
                self.status = s;
            },
        }
    }

    /// Reason to warn before saving, if any: the saved file may not run.
    pub fn import_health_warning(&self) -> (r: Option<String>)
        ensures
            opt_text(r) == health_warning(self@),
    {
        let doc: &PeDocument = match &self.doc {
            Some(doc) => doc,
            None => {
                return None;
            },
        };
        if let Some(report) = &self.last_fix {
            if report.unresolved.len() > 0 {
                let mut s: String = "上次修复有 ".to_owned();
                push_dec(&mut s, report.unresolved.len() as u64);
                s.append(" 个导入未能解析,依赖它们的调用会失效。");
                return Some(s);
            }
        }
        if self.source == Source::Dump && self.last_fix.is_none() {
            return Some(
                "该文件来自进程 dump,导入表尚未修复,保存的 dump 通常无法直接运行。".to_owned(),
            );
        }
        if doc.imports.len() == 0 {
            return Some("导入表为空,可能无法正常运行。".to_owned());
        }
        None
    }

    /// Ask to save to `path`. When the import table looks broken, the path is
    /// stashed and the user asked first. Returns whether to write at once.
    pub fn request_save(&mut self, path: &str) -> (go: bool)
        ensures
            go == (health_warning(old(self)@) is None),
            final(self)@ == match health_warning(old(self)@) {
                None => old(self)@,
                Some(w) => DumpAppModel {
                    save_warning: Some(w),
                    pending_save_path: Some(path@),
                    ..old(self)@
                },
            },
    {
        match self.import_health_warning() {
            Some(w) => {
                self.save_warning = Some(w);
                self.pending_save_path = Some(path.to_owned());
                false
            },
            None => true,
        }
    }

    /// The user saves in spite of the warning; returns where to.
    pub fn force_save(&mut self) -> (r: Option<String>)
        ensures
            opt_text(r) == old(self)@.pending_save_path,
            final(self)@ == (DumpAppModel {
                save_warning: None,
                pending_save_path: None,
                ..old(self)@
            }),
    {
        let r = self.pending_save_path.take();
        self.save_warning = None;
        r
    }

    /// The user heeds the warning.
    pub fn cancel_save(&mut self)
        ensures
            final(self)@ == (DumpAppModel {
                save_warning: None,
                pending_save_path: None,
                ..old(self)@
            }),
    {
        self.save_warning = None;
        self.pending_save_path = None;
    }

    /// Where Save goes; `None` asks for the Save As dialog.
    pub fn save_target(&self) -> (r: Option<String>)
        ensures
            opt_text(r) == save_path_of(self@),
    {
        if self.source == Source::File && is_blank(self.save_path.as_str()) {
            Some(self.path.clone())
        } else if !is_blank(self.save_path.as_str()) {
            Some(self.save_path.clone())
        } else {
            None
        }
    }

    /// The bytes to write; without any the status line says why.
    pub fn bytes_to_write(&mut self) -> (r: Option<Vec<u8>>)
        requires
            old(self)@.doc matches Some(d) ==> writable(d),
        ensures
            match old(self)@.doc {
                None => r is None && final(self)@ == saying(old(self)@, "no document"@),
                Some(d) => match serialized(d) {
                    Ok(b) => r is Some && r->0@ == b && final(self)@ == old(self)@,
                    Err(e) => r is None && final(self)@ == saying(
                        old(self)@,
                        "serialize failed: "@ + e.shown(),
                    ),
                },
            },
    {
        match &self.doc {
            None => {
                self.status = "no document".to_owned();
                None
            },
            Some(doc) => match serialize(doc) {
                Ok(b) => Some(b),
                Err(e) => {
                    let mut s: String = "serialize failed: ".to_owned();
                    s.append(e.message().as_str());
                    self.status = s;
                    None
                },
            },
        }
    }

    /// Apply the edited header fields.
    pub fn apply_headers(&mut self)
        ensures
            final(self)@ == match old(self)@.doc {
                Some(d) => saying(
                    DumpAppModel {
                        doc: Some(
                            DocModel {
                                optional: with_edits(d.optional, old(self)@.header_edits),
                                ..d
                            },
                        ),
                        ..old(self)@
                    },
                    "headers applied"@,
                ),
                None => old(self)@,
            },
    {
        let e: HeaderEdits = self.header_edits;
        if let Some(doc) = &mut self.doc {
            doc.optional.set_image_base(e.image_base);
            doc.optional.set_address_of_entry_point(Rva(e.entry_point));
            doc.optional.set_section_alignment(e.section_alignment);
            doc.optional.set_file_alignment(e.file_alignment);
            doc.optional.set_subsystem(e.subsystem);
            self.status = "headers applied".to_owned();
        }
    }

    /// The entries that are kept.
    pub fn kept(&self) -> (r: Vec<IatEntry>)
        ensures
            r@ == kept_entries(
                self@.iat_entries,
                self@.iat_keep,
                flagged(self@.iat_entries, self@.iat_keep),
            ),
    {
        let mut r: Vec<IatEntry> = Vec::new();
        let mut i: usize = 0;
        while i < self.iat_entries.len() && i < self.iat_keep.len()
            invariant
                i <= flagged(self@.iat_entries, self@.iat_keep),
                r@ == kept_entries(self@.iat_entries, self@.iat_keep, i as nat),
            decreases self.iat_entries.len() - i,
        {
            if self.iat_keep[i] {
                r.push(self.iat_entries[i]);
            }
            i = i + 1;
        }
        r
    }

    /// Append the slots of the region the "Add region" row describes.
    pub fn add_region(&mut self)
        requires
            old(self)@.doc is Some,
        ensures
            ({
                let m = old(self)@;
                let d = m.doc->0;
                let ps = pointer_size(d.arch);
                let n = slot_count(m.iat_region_size as nat, ps);
                let e = region_entries(d.sections, m.iat_region_rva, ps, n);
                if e.len() == n {
                    final(self)@ == saying(
                        DumpAppModel {
                            iat_entries: m.iat_entries + e,
                            iat_keep: m.iat_keep + Seq::new(e.len(), |i: int| true),
                            ..m
                        },
                        "added "@ + dec_text(e.len()) + " entries from region "@ + hex_text(
                            m.iat_region_rva as nat,
                        ),
                    )
                } else {
                    let failed = region_entry(d.sections, m.iat_region_rva, ps, e.len());
                    failed is Err && final(self)@ == saying(
                        m,
                        "add region failed: "@ + failed->Err_0.shown(),
                    )
                }
            }),
    {
        let rva: u32 = self.iat_region_rva;
        let size: usize = self.iat_region_size as usize;
        let mut t = IatTable::new();
        let r = match &self.doc {
            Some(doc) => t.add_region(doc, Rva(rva), size),
            None => Ok(()),
        };
        match r {
            Ok(_) => {
                let ghost start = self@;
                let mut added = clone_entries(t.entries());
                let n: usize = added.len();
                let ghost e = added@;
                self.iat_entries.append(&mut added);
                let mut flags: Vec<bool> = vec![true; n];
                assert(flags@ =~= Seq::new(n as nat, |i: int| true));
                self.iat_keep.append(&mut flags);
                let mut s: String = "added ".to_owned();
                push_dec(&mut s, n as u64);
                s.append(" entries from region ");
                push_hex(&mut s, rva as u64);
                self.status = s;
                assert(self@.iat_entries =~= start.iat_entries + e);
            },
            Err(e) => {
                let mut s: String = "add region failed: ".to_owned();
                s.append(e.message().as_str());
                self.status = s;
            },
        }
    }

    /// Append the entry the "Add entry" row describes.
    pub fn add_entry(&mut self)
        ensures
            ({
                let m = old(self)@;
                final(self)@ == saying(
                    DumpAppModel {
                        iat_entries: m.iat_entries.push(
                            IatEntry { rva: Rva(m.iat_add_rva), value: m.iat_add_value },
                        ),
                        iat_keep: m.iat_keep.push(true),
                        ..m
                    },
                    "added entry "@ + hex_text(m.iat_add_rva as nat) + " = "@ + hex_text(
                        m.iat_add_value as nat,
                    ),
                )
            }),
    {
        self.iat_entries.push(IatEntry { rva: Rva(self.iat_add_rva), value: self.iat_add_value });
        self.iat_keep.push(true);
        let mut s: String = "added entry ".to_owned();
        push_hex(&mut s, self.iat_add_rva as u64);
        s.append(" = ");
        push_hex(&mut s, self.iat_add_value);
        self.status = s;
    }
}

/// The state with another document.
pub open spec fn with_doc(m: DumpAppModel, d: DocModel) -> DumpAppModel {
    DumpAppModel { doc: Some(d), ..m }
}

/// The symbol the "Add export" row describes; a blank name means none.
pub open spec fn new_export(m: DumpAppModel) -> ExportSymbolModel {
    ExportSymbolModel {
        name: if trimmed(m.new_export_name).len() > 0 {
            Some(trimmed(m.new_export_name))
        } else {
            None
        },
        ordinal: m.new_export_ordinal,
        rva: Rva(m.new_export_rva),
        forwarder: None,
    }
}

impl PeEditorApp {
    /// Say something in the status line.
    fn report(&mut self, what: &str, reason: &str)
        ensures
            final(self)@ == saying(old(self)@, what@ + reason@),
            final(self).doc == old(self).doc,
    {
        let mut s: String = what.to_owned();
        s.append(reason);
        self.status = s;
    }

    /// Remove section `i`.
    pub fn remove_section(&mut self, i: usize)
        requires
            old(self)@.doc is Some,
        ensures
            ({
                let d = old(self)@.doc->0;
                final(self)@ == match remove_section_error(d, i as nat) {
                    Some(e) => saying(old(self)@, "remove failed: "@ + e.shown()),
                    None => with_doc(
                        old(self)@,
                        DocModel { sections: d.sections.remove(i as int), ..d },
                    ),
                }
            }),
    {
        let r = match &mut self.doc {
            Some(doc) => doc.remove_section(i),
            None => Ok(()),
        };
        if let Err(e) = r {
            self.report("remove failed: ", e.message().as_str());
        }
    }

    /// Append the section the "Add section" row describes.
    pub fn add_section(&mut self)
        requires
            old(self)@.doc is Some,
        ensures
            ({
                let d = old(self)@.doc->0;
                let after = final(self)@.doc->0;
                let name = old(self)@.new_section_name;
                &&& final(self)@ == saying(
                    with_doc(old(self)@, after),
                    "added section "@ + name,
                )
                &&& after.sections.len() == d.sections.len() + 1
                &&& is_named_section(
                    d,
                    after.sections.last(),
                    name,
                    old(self)@.new_section_size as nat,
                )
                &&& after == (DocModel { sections: d.sections.push(after.sections.last()), ..d })
            }),
    {
        let name: String = self.new_section_name.clone();
        let size: usize = self.new_section_size as usize;
        let r = match &mut self.doc {
            Some(doc) => add_named_section(doc, name.as_str(), size),
            None => Ok(0),
        };
        match r {
            Ok(_) => self.report("added section ", name.as_str()),
            Err(e) => self.report("add failed: ", e.message().as_str()),
        }
    }

    /// Remove a module from the imports.
    pub fn remove_import(&mut self, module: &str)
        requires
            old(self)@.doc is Some,
        ensures
            ({
                let d = old(self)@.doc->0;
                final(self)@ == if module_at(d.imports, module@) is None {
                    saying(
                        old(self)@,
                        "remove import failed: "@ + PeErrorModel::InvalidArgument(
                            "remove_import: no import '"@ + module@ + "'"@,
                        ).shown(),
                    )
                } else {
                    with_doc(
                        old(self)@,
                        DocModel { imports: imports_without(d.imports, module@), ..d },
                    )
                }
            }),
    {
        let r = match &mut self.doc {
            Some(doc) => doc.remove_import(module),
            None => Ok(()),
        };
        if let Err(e) = r {
            self.report("remove import failed: ", e.message().as_str());
        }
    }

    /// Add the import the "Add import" row describes.
    pub fn add_import(&mut self)
        requires
            old(self)@.doc is Some,
        ensures
            ({
                let m = old(self)@;
                let d = m.doc->0;
                final(self)@ == if m.new_import_module.len() == 0 {
                    saying(
                        m,
                        "add import failed: "@ + PeErrorModel::InvalidArgument(
                            "add_import: empty module name"@,
                        ).shown(),
                    )
                } else {
                    saying(
                        with_doc(
                            m,
                            DocModel {
                                imports: imports_with(
                                    d.imports,
                                    m.new_import_module,
                                    seq![ImportFunctionModel::Name(0, m.new_import_func)],
                                ),
                                ..d
                            },
                        ),
                        "added import "@ + m.new_import_module + "!"@ + m.new_import_func,
                    )
                }
            }),
    {
        let module: String = self.new_import_module.clone();
        let func: String = self.new_import_func.clone();
        let mut functions: Vec<ImportFunction> = Vec::new();
        functions.push(ImportFunction::by_name(func.as_str()));
        assert(views(functions@) =~= seq![ImportFunctionModel::Name(0, func@)]);
        let r = match &mut self.doc {
            Some(doc) => doc.add_import(module.as_str(), functions.as_slice()),
            None => Ok(()),
        };
        match r {
            Ok(_) => {
                let mut s: String = "added import ".to_owned();
                s.append(module.as_str());
                s.append("!");
                s.append(func.as_str());
                self.status = s;
            },
            Err(e) => self.report("add import failed: ", e.message().as_str()),
        }
    }

    /// Add the export the "Add export" row describes.
    pub fn add_export(&mut self)
        requires
            old(self)@.doc is Some,
        ensures
            ({
                let m = old(self)@;
                let d = m.doc->0;
                final(self)@ == saying(
                    with_doc(
                        m,
                        DocModel { exports: Some(exports_with(d.exports, new_export(m))), ..d },
                    ),
                    "added export ordinal "@ + dec_text(m.new_export_ordinal as nat),
                )
            }),
    {
        let name: String = trim(self.new_export_name.as_str());
        let ordinal: u16 = self.new_export_ordinal;
        let symbol = ExportSymbol {
            name: if name.as_str().is_empty() {
                None
            } else {
                Some(name)
            },
            ordinal,
            rva: Rva(self.new_export_rva),
            forwarder: None,
        };
        assert(symbol@ == new_export(self@));
        let r = match &mut self.doc {
            Some(doc) => doc.add_export(symbol),
            None => Ok(()),
        };
        match r {
            Ok(_) => {
                let shown = dec_string(ordinal as u64);
                self.report("added export ordinal ", shown.as_str());
            },
            Err(e) => self.report("add export failed: ", e.message().as_str()),
        }
    }

    /// Remove the export with an ordinal.
    pub fn remove_export(&mut self, ordinal: u16)
        requires
            old(self)@.doc is Some,
        ensures
            ({
                let d = old(self)@.doc->0;
                final(self)@ == match exports_without(d.exports, ordinal) {
                    Err(e) => saying(old(self)@, "remove export failed: "@ + e.shown()),
                    Ok(exports) => with_doc(old(self)@, DocModel { exports, ..d }),
                }
            }),
    {
        let r = match &mut self.doc {
            Some(doc) => doc.remove_export(ordinal),
            None => Ok(()),
        };
        if let Err(e) = r {
            self.report("remove export failed: ", e.message().as_str());
        }
    }
}

/// A scan and the flags of its entries stay in step: one flag per entry.
pub proof fn flags_match_entries(m: DumpAppModel, r: Result<IatScanModel, PeErrorModel>)
    requires
        m.iat_entries.len() == m.iat_keep.len(),
    ensures
        scan_done(m, r).iat_entries.len() == scan_done(m, r).iat_keep.len(),
        cleared(m).iat_entries.len() == cleared(m).iat_keep.len(),
{
}

/// Applying the header fields that were synced from a header changes nothing.
pub proof fn synced_edits_change_nothing(h: OptionalHeader)
    ensures
        with_edits(h, edits_of(h)) == h,
{
}

/// With every flag set all entries are kept.
pub proof fn all_flags_keep_everything(e: Seq<IatEntry>, n: nat)
    requires
        n <= e.len(),
    ensures
        kept_entries(e, Seq::new(e.len(), |i: int| true), n) == e.take(n as int),
    decreases n,
{
    if n > 0 {
        all_flags_keep_everything(e, (n - 1) as nat);
        assert(e.take(n as int) =~= e.take(n - 1).push(e[n - 1]));
    } else {
        assert(e.take(0) =~= Seq::empty());
    }
}

} // verus!

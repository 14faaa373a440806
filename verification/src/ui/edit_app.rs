//! The state of the disk editor and what its commands do to it.

use crate::api::editor::{padded, remove_section_error, PeEditor};
use crate::api::exporter::{exports_with, exports_without, ExportTableEditor};
use crate::api::importer::{
    find_module, imports_with, imports_without, module_at, ImportTableEditor,
};
use crate::domain::coff::CoffHeader;
use crate::domain::data_directory::DataDirectory;
use crate::domain::document::{opt_view, DocModel, PeDocument};
use crate::domain::dos::DosModel;
use crate::domain::export::{opt_text, ExportSymbol, ExportSymbolModel, ExportTableModel};
use crate::domain::import::{
    lemma_views_push, views, ImportDescriptorModel, ImportFunction, ImportFunctionModel,
};
use crate::domain::optional::header_image_base;
use crate::domain::section::{Section, SectionHeader, SectionModel};
use crate::domain::types::{Machine, Rva};
use crate::error::{result_view, PeErrorModel, PeResult};
use crate::feature::va::{map_of, VaConverter};
use crate::io::pe::decode::parsed;
use crate::io::pe::parser::parse;
use crate::io::pe::writer::{serialize, serialized, writable};
use crate::text::hex_text;
use crate::ui::cli::{add_named_section, is_named_section};
use crate::ui::convert::{conversion, convert_addresses};
use crate::ui::fields::{
    coff_rows, optional_rows, row_max, set_coff_field, set_dos_field, set_optional_field,
    with_coff_row, with_optional_row,
};
use crate::ui::format::{join_texts, joined};
use crate::ui::hex::{base_of, section_base};
use crate::ui::input::{
    address_value, is_blank, jump_target, lemma_trimmed_len, name_bytes, name_field, needle,
    parse_jump_target, parse_needle, parse_u64, trim, trimmed,
};
use crate::ui::search::{
    find_bytes, find_overlaps, global_search, lists_overlaps, occurs_at, occurs_in, search_hits,
    section_name, PeNode, SearchHit, SearchHitModel,
};
use vstd::prelude::*;
use vstd::string::*;

verus! {

/// An action that needs confirmation when there are unsaved changes.
#[derive(Debug, PartialEq, Eq)]
pub enum Pending {
    Nothing,
    Open,
    SaveAs,
    Exit,
    OpenPath(String),
}

/// A pending action with its path as a character sequence.
pub enum PendingModel {
    Nothing,
    Open,
    SaveAs,
    Exit,
    OpenPath(Seq<char>),
}

impl View for Pending {
    type V = PendingModel;

    open spec fn view(&self) -> PendingModel {
        match self {
            Pending::Nothing => PendingModel::Nothing,
            Pending::Open => PendingModel::Open,
            Pending::SaveAs => PendingModel::SaveAs,
            Pending::Exit => PendingModel::Exit,
            Pending::OpenPath(p) => PendingModel::OpenPath(p@),
        }
    }
}

/// What the status line is to say; the wording is up to the window.
#[derive(Debug, PartialEq, Eq)]
pub enum Notice {
    Loaded,
    ParseFailed(String),
    NoDocument,
    SerializeFailed(String),
    RoundtripInvalid(String),
    AddedSection(String),
    AddFailed(String),
    RemoveFailed(String),
    ModuleFuncRequired,
    AddedImport(String, String),
    AddImportFailed(String),
    RemoveImportFailed(String),
    AddedExport(u16),
    AddExportFailed(String),
    RemoveExportFailed(String),
    NotFound,
}

/// A notice with its texts as character sequences.
pub enum NoticeModel {
    Loaded,
    ParseFailed(Seq<char>),
    NoDocument,
    SerializeFailed(Seq<char>),
    RoundtripInvalid(Seq<char>),
    AddedSection(Seq<char>),
    AddFailed(Seq<char>),
    RemoveFailed(Seq<char>),
    ModuleFuncRequired,
    AddedImport(Seq<char>, Seq<char>),
    AddImportFailed(Seq<char>),
    RemoveImportFailed(Seq<char>),
    AddedExport(u16),
    AddExportFailed(Seq<char>),
    RemoveExportFailed(Seq<char>),
    NotFound,
}

impl View for Notice {
    type V = NoticeModel;

    open spec fn view(&self) -> NoticeModel {
        match self {
            Notice::Loaded => NoticeModel::Loaded,
            Notice::ParseFailed(s) => NoticeModel::ParseFailed(s@),
            Notice::NoDocument => NoticeModel::NoDocument,
            Notice::SerializeFailed(s) => NoticeModel::SerializeFailed(s@),
            Notice::RoundtripInvalid(s) => NoticeModel::RoundtripInvalid(s@),
            Notice::AddedSection(s) => NoticeModel::AddedSection(s@),
            Notice::AddFailed(s) => NoticeModel::AddFailed(s@),
            Notice::RemoveFailed(s) => NoticeModel::RemoveFailed(s@),
            Notice::ModuleFuncRequired => NoticeModel::ModuleFuncRequired,
            Notice::AddedImport(m, f) => NoticeModel::AddedImport(m@, f@),
            Notice::AddImportFailed(s) => NoticeModel::AddImportFailed(s@),
            Notice::RemoveImportFailed(s) => NoticeModel::RemoveImportFailed(s@),
            Notice::AddedExport(o) => NoticeModel::AddedExport(*o),
            Notice::AddExportFailed(s) => NoticeModel::AddExportFailed(s@),
            Notice::RemoveExportFailed(s) => NoticeModel::RemoveExportFailed(s@),
            Notice::NotFound => NoticeModel::NotFound,
        }
    }
}

/// The state of the editor.
pub struct PeEditApp {
    /// The file that is open.
    pub path: String,
    /// Last "Save As…" path (otherwise Save writes back to `path`).
    pub save_path: String,
    /// The document being edited.
    pub doc: Option<PeDocument>,
    /// What the status line says.
    pub status: String,
    /// The selected node of the structure tree.
    pub node: PeNode,
    /// True once a field is edited and not yet saved.
    pub dirty: bool,
    /// Pending action gated on the unsaved-changes confirmation dialog.
    pub pending: Pending,
    pub new_section_name: String,
    pub new_section_size: u32,
    pub selected_section: usize,
    /// Per-row editable section names (kept in sync with `doc.sections`).
    pub section_names: Vec<String>,
    pub binary_scroll_to: Option<u32>,
    pub binary_jump: String,
    /// Byte-find input for the section hex view.
    pub binary_find: String,
    /// `false` = disk layout (PointerToRawData / SizeOfRawData), `true` = memory
    /// layout (VirtualAddress / VirtualSize).
    pub memory_view: bool,
    pub new_import_module: String,
    pub new_import_func: String,
    pub selected_import: Option<String>,
    pub new_import_add_fn: String,
    /// Case-insensitive filter for the import module list.
    pub import_filter: String,
    pub new_export_ordinal: u16,
    pub new_export_name: String,
    pub new_export_rva: u32,
    /// `(rva, size)` of the resource leaf selected for byte preview.
    pub selected_resource: Option<(Rva, u32)>,
    pub search_query: String,
    pub search_hits: Vec<SearchHit>,
    /// Show the floating search-results list.
    pub search_active: bool,
    pub conv_rva: String,
    pub conv_va: String,
    pub conv_raw: String,
    /// Undo / redo (snapshot-based, one snapshot per edit gesture).
    pub undo_stack: Vec<PeDocument>,
    pub redo_stack: Vec<PeDocument>,
    /// The document as it stood at the end of the last idle frame — the value
    /// pushed onto the undo stack when a new edit gesture begins.
    pub undo_baseline: Option<PeDocument>,
    /// `true` while an edit gesture spans consecutive frames.
    pub gesture_active: bool,
    /// Set whenever an edit mutates the document this frame.
    pub edited_this_frame: bool,
}

/// The state of the editor as mathematical values.
#[verifier::ext_equal]
pub struct AppModel {
    pub path: Seq<char>,
    pub save_path: Seq<char>,
    pub doc: Option<DocModel>,
    pub status: Seq<char>,
    pub node: PeNode,
    pub dirty: bool,
    pub pending: PendingModel,
    pub new_section_name: Seq<char>,
    pub new_section_size: u32,
    pub selected_section: usize,
    pub section_names: Seq<Seq<char>>,
    pub binary_scroll_to: Option<u32>,
    pub binary_jump: Seq<char>,
    pub binary_find: Seq<char>,
    pub memory_view: bool,
    pub new_import_module: Seq<char>,
    pub new_import_func: Seq<char>,
    pub selected_import: Option<Seq<char>>,
    pub new_import_add_fn: Seq<char>,
    pub import_filter: Seq<char>,
    pub new_export_ordinal: u16,
    pub new_export_name: Seq<char>,
    pub new_export_rva: u32,
    pub selected_resource: Option<(Rva, u32)>,
    pub search_query: Seq<char>,
    pub search_hits: Seq<SearchHitModel>,
    pub search_active: bool,
    pub conv_rva: Seq<char>,
    pub conv_va: Seq<char>,
    pub conv_raw: Seq<char>,
    pub undo_stack: Seq<DocModel>,
    pub redo_stack: Seq<DocModel>,
    pub undo_baseline: Option<DocModel>,
    pub gesture_active: bool,
    pub edited_this_frame: bool,
}

impl View for PeEditApp {
    type V = AppModel;

    open spec fn view(&self) -> AppModel {
        AppModel {
            path: self.path@,
            save_path: self.save_path@,
            doc: opt_view(self.doc),
            status: self.status@,
            node: self.node,
            dirty: self.dirty,
            pending: self.pending@,
            new_section_name: self.new_section_name@,
            new_section_size: self.new_section_size,
            selected_section: self.selected_section,
            section_names: views(self.section_names@),
            binary_scroll_to: self.binary_scroll_to,
            binary_jump: self.binary_jump@,
            binary_find: self.binary_find@,
            memory_view: self.memory_view,
            new_import_module: self.new_import_module@,
            new_import_func: self.new_import_func@,
            selected_import: opt_text(self.selected_import),
            new_import_add_fn: self.new_import_add_fn@,
            import_filter: self.import_filter@,
            new_export_ordinal: self.new_export_ordinal,
            new_export_name: self.new_export_name@,
            new_export_rva: self.new_export_rva,
            selected_resource: self.selected_resource,
            search_query: self.search_query@,
            search_hits: views(self.search_hits@),
            search_active: self.search_active,
            conv_rva: self.conv_rva@,
            conv_va: self.conv_va@,
            conv_raw: self.conv_raw@,
            undo_stack: views(self.undo_stack@),
            redo_stack: views(self.redo_stack@),
            undo_baseline: opt_view(self.undo_baseline),
            gesture_active: self.gesture_active,
            edited_this_frame: self.edited_this_frame,
        }
    }
}

/// The state the editor starts in.
pub open spec fn initial_state() -> AppModel {
    AppModel {
        path: Seq::empty(),
        save_path: Seq::empty(),
        doc: None,
        status: Seq::empty(),
        node: PeNode::Dos,
        dirty: false,
        pending: PendingModel::Nothing,
        new_section_name: Seq::empty(),
        new_section_size: 0,
        selected_section: 0,
        section_names: Seq::empty(),
        binary_scroll_to: None,
        binary_jump: Seq::empty(),
        binary_find: Seq::empty(),
        memory_view: false,
        new_import_module: Seq::empty(),
        new_import_func: Seq::empty(),
        selected_import: None,
        new_import_add_fn: Seq::empty(),
        import_filter: Seq::empty(),
        new_export_ordinal: 0,
        new_export_name: Seq::empty(),
        new_export_rva: 0,
        selected_resource: None,
        search_query: Seq::empty(),
        search_hits: Seq::empty(),
        search_active: false,
        conv_rva: Seq::empty(),
        conv_va: Seq::empty(),
        conv_raw: Seq::empty(),
        undo_stack: Seq::empty(),
        redo_stack: Seq::empty(),
        undo_baseline: None,
        gesture_active: false,
        edited_this_frame: false,
    }
}

impl Default for PeEditApp {
    fn default() -> (r: PeEditApp)
        ensures
            r@ == initial_state(),
    {
        let r = PeEditApp {
            path: String::new(),
            save_path: String::new(),
            doc: None,
            status: String::new(),
            node: PeNode::Dos,
            dirty: false,
            pending: Pending::Nothing,
            new_section_name: String::new(),
            new_section_size: 0,
            selected_section: 0,
            section_names: Vec::new(),
            binary_scroll_to: None,
            binary_jump: String::new(),
            binary_find: String::new(),
            memory_view: false,
            new_import_module: String::new(),
            new_import_func: String::new(),
            selected_import: None,
            new_import_add_fn: String::new(),
            import_filter: String::new(),
            new_export_ordinal: 0,
            new_export_name: String::new(),
            new_export_rva: 0,
            selected_resource: None,
            search_query: String::new(),
            search_hits: Vec::new(),
            search_active: false,
            conv_rva: String::new(),
            conv_va: String::new(),
            conv_raw: String::new(),
            undo_stack: Vec::new(),
            redo_stack: Vec::new(),
            undo_baseline: None,
            gesture_active: false,
            edited_this_frame: false,
        };
        proof {
            assert(views(r.section_names@) =~= Seq::empty());
            assert(views(r.search_hits@) =~= Seq::empty());
            assert(views(r.undo_stack@) =~= Seq::empty());
            assert(views(r.redo_stack@) =~= Seq::empty());
            assert(r@ =~= initial_state());
        }
        r
    }
}

/// Maximum number of undo snapshots kept (each holds a full document copy).
pub const UNDO_LIMIT: usize = 32;

/// The names of a document's sections.
pub open spec fn names_of(d: Option<DocModel>) -> Seq<Seq<char>> {
    match d {
        Some(d) => Seq::new(d.sections.len(), |i: int| section_name(d.sections[i])),
        None => Seq::empty(),
    }
}

/// Whether a document imports the selected module.
pub open spec fn imports_selected(d: DocModel, selected: Option<Seq<char>>) -> bool {
    exists|i: int| 0 <= i < d.imports.len() && selected == Some(#[trigger] d.imports[i].name)
}

/// A selection that is past the end moves to the last of `len` items.
pub open spec fn clamped(selected: usize, len: nat) -> usize {
    if selected < len {
        selected
    } else if len == 0 {
        0
    } else {
        (len - 1) as usize
    }
}

/// The selection, moved to the last of `len` items where it is past the end.
fn clamp_selection(selected: usize, len: usize) -> (r: usize)
    ensures
        r == clamped(selected, len as nat),
{
    if selected < len {
        selected
    } else {
        len.saturating_sub(1)
    }
}

/// The state after the document was exchanged by undo or redo: the restored
/// document becomes the new baseline, the file is (re)marked dirty, and
/// selections are clamped so they never dangle after a structural change.
pub open spec fn rewound(m: AppModel) -> AppModel {
    AppModel {
        gesture_active: false,
        edited_this_frame: false,
        undo_baseline: m.doc,
        dirty: true,
        section_names: names_of(m.doc),
        selected_section: match m.doc {
            Some(d) => clamped(m.selected_section, d.sections.len()),
            None => m.selected_section,
        },
        selected_import: match m.doc {
            Some(d) => if imports_selected(d, m.selected_import) {
                m.selected_import
            } else {
                None
            },
            None => m.selected_import,
        },
        ..m
    }
}

/// A stack with a document put on it, if there is one.
pub open spec fn stacked(s: Seq<DocModel>, d: Option<DocModel>) -> Seq<DocModel> {
    match d {
        Some(d) => s.push(d),
        None => s,
    }
}

/// The state after undo.
pub open spec fn undone(m: AppModel) -> AppModel {
    if m.undo_stack.len() == 0 {
        m
    } else {
        rewound(
            AppModel {
                doc: Some(m.undo_stack.last()),
                undo_stack: m.undo_stack.drop_last(),
                redo_stack: stacked(m.redo_stack, m.doc),
                ..m
            },
        )
    }
}

/// The state after redo.
pub open spec fn redone(m: AppModel) -> AppModel {
    if m.redo_stack.len() == 0 {
        m
    } else {
        rewound(
            AppModel {
                doc: Some(m.redo_stack.last()),
                redo_stack: m.redo_stack.drop_last(),
                undo_stack: stacked(m.undo_stack, m.doc),
                ..m
            },
        )
    }
}

/// An undo stack with a snapshot put on it; the oldest goes when there are too
/// many.
pub open spec fn with_snapshot(s: Seq<DocModel>, d: DocModel) -> Seq<DocModel> {
    if s.len() + 1 > UNDO_LIMIT {
        s.push(d).drop_first()
    } else {
        s.push(d)
    }
}

/// The state after a frame. When a new edit gesture begins (a frame with edits
/// right after an idle frame), the pre-gesture document is pushed onto the undo
/// stack; when a gesture ends (an idle frame after edit frames), the baseline
/// is refreshed for the next gesture.
pub open spec fn after_frame(m: AppModel) -> AppModel {
    if m.edited_this_frame {
        if m.gesture_active {
            AppModel { edited_this_frame: false, ..m }
        } else {
            match m.undo_baseline {
                Some(d) => AppModel {
                    edited_this_frame: false,
                    gesture_active: true,
                    undo_baseline: None,
                    undo_stack: with_snapshot(m.undo_stack, d),
                    redo_stack: Seq::empty(),
                    ..m
                },
                None => AppModel { edited_this_frame: false, gesture_active: true, ..m },
            }
        }
    } else if m.gesture_active {
        AppModel { gesture_active: false, undo_baseline: m.doc, ..m }
    } else {
        m
    }
}

/// A copy of an optional document.
fn clone_doc(d: &Option<PeDocument>) -> (r: Option<PeDocument>)
    ensures
        opt_view(r) == opt_view(*d),
{
    match d {
        Some(d) => Some(d.clone()),
        None => None,
    }
}

impl PeEditApp {
    /// Show the names that the document's sections have.
    pub fn sync_section_names(&mut self)
        ensures
            final(self)@ == (AppModel { section_names: names_of(old(self)@.doc), ..old(self)@ }),
            final(self).doc == old(self).doc,
    {
        let ghost all = names_of(self@.doc);
        let mut names: Vec<String> = Vec::new();
        assert(views(names@) =~= all.take(0));
        if let Some(doc) = &self.doc {
            let mut i: usize = 0;
            while i < doc.sections.len()
                invariant
                    i <= doc.sections.len(),
                    all == names_of(Some(doc@)),
                    views(names@) == all.take(i as int),
                decreases doc.sections.len() - i,
            {
                let s = doc.sections[i].name_str();
                proof {
                    lemma_views_push(names@, s);
                    assert(doc@.sections[i as int] == doc.sections@[i as int]@);
                    assert(all[i as int] == s@);
                }
                names.push(s);
                i = i + 1;
                assert(views(names@) =~= all.take(i as int));
            }
        }
        assert(views(names@) =~= all);
        self.section_names = names;
    }

    /// Revert to the document snapshot captured before the most recent edit
    /// gesture.
    pub fn undo(&mut self)
        ensures
            final(self)@ == undone(old(self)@),
    {
        let ghost before = self.undo_stack@;
        let ghost redo_before = self.redo_stack@;
        match self.undo_stack.pop() {
            None => {
                assert(views(before) =~= views(self.undo_stack@));
            },
            Some(prev) => {
                proof {
                    assert(views(self.undo_stack@) =~= views(before).drop_last());
                    assert(views(before).last() == prev@);
                }
                if let Some(cur) = self.doc.take() {
                    proof {
                        lemma_views_push(self.redo_stack@, cur);
                    }
                    self.redo_stack.push(cur);
                }
                self.doc = Some(prev);
                self.after_history_rewind();
            },
        }
    }

    /// Re-apply the most recently undone gesture.
    pub fn redo(&mut self)
        ensures
            final(self)@ == redone(old(self)@),
    {
        let ghost before = self.redo_stack@;
        match self.redo_stack.pop() {
            None => {
                assert(views(before) =~= views(self.redo_stack@));
            },
            Some(next) => {
                proof {
                    assert(views(self.redo_stack@) =~= views(before).drop_last());
                    assert(views(before).last() == next@);
                }
                if let Some(cur) = self.doc.take() {
                    proof {
                        lemma_views_push(self.undo_stack@, cur);
                    }
                    self.undo_stack.push(cur);
                }
                self.doc = Some(next);
                self.after_history_rewind();
            },
        }
    }

    /// Bookkeeping shared by undo/redo.
    fn after_history_rewind(&mut self)
        ensures
            final(self)@ == rewound(old(self)@),
    {
        self.gesture_active = false;
        self.edited_this_frame = false;
        self.undo_baseline = clone_doc(&self.doc);
        self.dirty = true;
        self.sync_section_names();
        let mut keep = true;
        if let Some(doc) = &self.doc {
            self.selected_section = clamp_selection(self.selected_section, doc.sections.len());
            keep = false;
            let mut i: usize = 0;
            while i < doc.imports.len()
                invariant
                    i <= doc.imports.len(),
                    Some(doc@) == self@.doc,
                    keep ==> imports_selected(doc@, self@.selected_import),
                    !keep ==> forall|j: int|
                        0 <= j < i ==> self@.selected_import != Some(#[trigger] doc@.imports[j].name),
                decreases doc.imports.len() - i,
            {
                assert(doc@.imports[i as int] == doc.imports@[i as int]@);
                if let Some(name) = &self.selected_import {
                    if *name == doc.imports[i].name {
                        assert(self@.selected_import == Some(doc@.imports[i as int].name));
                        keep = true;
                    }
                }
                i = i + 1;
            }
        }
        if !keep {
            self.selected_import = None;
        }
    }

    /// Frame-end undo snapshot bookkeeping, run once per frame after all edits.
    pub fn frame_end(&mut self)
        ensures
            final(self)@ == after_frame(old(self)@),
    {
        let edited: bool = self.edited_this_frame;
        self.edited_this_frame = false;
        if edited {
            if !self.gesture_active {
                if let Some(prev) = self.undo_baseline.take() {
                    let ghost before = self.undo_stack@;
                    proof {
                        lemma_views_push(before, prev);
                    }
                    self.undo_stack.push(prev);
                    if self.undo_stack.len() > UNDO_LIMIT {
                        let ghost full = self.undo_stack@;
                        self.undo_stack.remove(0);
                        assert(views(self.undo_stack@) =~= views(full).drop_first());
                    }
                    self.redo_stack = Vec::new();
                    assert(views(self.redo_stack@) =~= Seq::empty());
                }
                self.gesture_active = true;
            }
        } else if self.gesture_active {
            self.gesture_active = false;
            self.undo_baseline = clone_doc(&self.doc);
        }
    }
}

/// After undo or redo no selection dangles: the selected section is one of the
/// document, the same as before where that is still there, and the selected
/// module is imported.
pub proof fn selections_never_dangle(m: AppModel)
    requires
        m.doc is Some,
    ensures
        ({
            let d = m.doc->0;
            let r = rewound(m);
            &&& d.sections.len() > 0 ==> r.selected_section < d.sections.len()
            &&& m.selected_section < d.sections.len() ==> r.selected_section == m.selected_section
            &&& r.selected_import is Some ==> imports_selected(d, r.selected_import)
            &&& imports_selected(d, m.selected_import) ==> r.selected_import == m.selected_import
            &&& r.section_names.len() == d.sections.len()
            &&& r.undo_baseline == m.doc
            &&& r.dirty
        }),
{
}

/// Redo brings back the document that undo put aside, and both stacks are as
/// they were.
pub proof fn redo_undoes_undo(m: AppModel)
    requires
        m.undo_stack.len() > 0,
        m.doc is Some,
    ensures
        redone(undone(m)).doc == m.doc,
        redone(undone(m)).undo_stack == m.undo_stack,
        redone(undone(m)).redo_stack == m.redo_stack,
{
    let u = undone(m);
    assert(u.redo_stack.drop_last() =~= m.redo_stack);
    assert(u.undo_stack.push(m.undo_stack.last()) =~= m.undo_stack);
}

/// Undo takes back what redo did.
pub proof fn undo_undoes_redo(m: AppModel)
    requires
        m.redo_stack.len() > 0,
        m.doc is Some,
    ensures
        undone(redone(m)).doc == m.doc,
        undone(redone(m)).undo_stack == m.undo_stack,
        undone(redone(m)).redo_stack == m.redo_stack,
{
    let u = redone(m);
    assert(u.undo_stack.drop_last() =~= m.undo_stack);
    assert(u.redo_stack.push(m.redo_stack.last()) =~= m.redo_stack);
}

/// An edit gesture that spans several frames takes one snapshot: the document
/// as it stood before the gesture. Undo after the gesture brings that document
/// back.
pub proof fn one_snapshot_per_gesture(m: AppModel, edited: Option<DocModel>, again: Option<DocModel>)
    requires
        !m.gesture_active,
        m.undo_baseline is Some,
    ensures
        ({
            let first = after_frame(AppModel { doc: edited, edited_this_frame: true, ..m });
            let second = after_frame(AppModel { doc: again, edited_this_frame: true, ..first });
            let idle = after_frame(second);
            &&& first.undo_stack == with_snapshot(m.undo_stack, m.undo_baseline->0)
            &&& second.undo_stack == first.undo_stack
            &&& idle.undo_stack == first.undo_stack
            &&& !idle.gesture_active
            &&& idle.undo_baseline == again
            &&& undone(idle).doc == m.undo_baseline
        }),
{
}

/// The snapshots kept by undo and redo together.
pub open spec fn history_len(m: AppModel) -> nat {
    m.undo_stack.len() + m.redo_stack.len()
}

/// Undo and redo together never keep more than the limit.
pub proof fn history_stays_bounded(m: AppModel)
    requires
        history_len(m) <= UNDO_LIMIT,
    ensures
        history_len(undone(m)) <= UNDO_LIMIT,
        history_len(redone(m)) <= UNDO_LIMIT,
        history_len(after_frame(m)) <= UNDO_LIMIT,
{
}

/// The state after an edit.
pub open spec fn touched(m: AppModel) -> AppModel {
    AppModel { dirty: true, edited_this_frame: true, ..m }
}

/// The state after a document was opened.
pub open spec fn opened(m: AppModel, d: DocModel) -> AppModel {
    AppModel {
        doc: Some(d),
        dirty: false,
        pending: PendingModel::Nothing,
        selected_section: 0,
        undo_stack: Seq::empty(),
        redo_stack: Seq::empty(),
        gesture_active: false,
        edited_this_frame: false,
        undo_baseline: Some(d),
        section_names: names_of(Some(d)),
        ..m
    }
}

/// The bytes of a document that was written, if they can be read again.
pub open spec fn readable_bytes(written: Result<Seq<u8>, PeErrorModel>) -> Result<
    Seq<u8>,
    NoticeModel,
> {
    match written {
        Err(e) => Err(NoticeModel::SerializeFailed(e.shown())),
        Ok(b) => match parsed(b) {
            Err(e) => Err(NoticeModel::RoundtripInvalid(e.shown())),
            Ok(_) => Ok(b),
        },
    }
}

/// The bytes to save: those of the document, if they can be read again.
pub open spec fn bytes_to_save(d: Option<DocModel>) -> Result<Seq<u8>, NoticeModel> {
    match d {
        None => Err(NoticeModel::NoDocument),
        Some(d) => readable_bytes(serialized(d)),
    }
}

/// The bytes that were written, if they can be read again.
fn check_bytes(written: PeResult<Vec<u8>>) -> (r: Result<Vec<u8>, Notice>)
    ensures
        save_view(r) == readable_bytes(result_view(written)),
{
    match written {
        Ok(bytes) => match parse(bytes.as_slice()) {
            Ok(_) => Ok(bytes),
            Err(e) => Err(Notice::RoundtripInvalid(e.message())),
        },
        Err(e) => Err(Notice::SerializeFailed(e.message())),
    }
}

/// The bytes of a document, if they can be read again.
fn checked_bytes(doc: &PeDocument) -> (r: Result<Vec<u8>, Notice>)
    requires
        writable(doc@),
    ensures
        save_view(r) == readable_bytes(serialized(doc@)),
{
    check_bytes(serialize(doc))
}

/// What is saved can be opened again.
pub proof fn saved_bytes_parse(d: Option<DocModel>)
    requires
        bytes_to_save(d) is Ok,
    ensures
        parsed(bytes_to_save(d)->Ok_0) is Ok,
{
}

/// The result of a save as mathematical values.
pub open spec fn save_view(r: Result<Vec<u8>, Notice>) -> Result<Seq<u8>, NoticeModel> {
    match r {
        Ok(b) => Ok(b@),
        Err(n) => Err(n@),
    }
}

/// Where Save goes: the last "Save As…" path, else the path of the file; none
/// when there is neither.
pub open spec fn save_path_of(m: AppModel) -> Option<Seq<char>> {
    if trimmed(m.save_path).len() > 0 {
        Some(m.save_path)
    } else if trimmed(m.path).len() > 0 {
        Some(m.path)
    } else {
        None
    }
}

/// Whether an action has to wait for a confirmation.
pub open spec fn gated(m: AppModel) -> bool {
    m.dirty && m.doc is Some
}

/// The state after a search was asked for.
pub open spec fn searched(m: AppModel) -> AppModel {
    AppModel {
        search_active: true,
        search_hits: match m.doc {
            Some(d) => search_hits(d, m.search_query),
            None => Seq::empty(),
        },
        ..m
    }
}

/// The state after a section was selected.
pub open spec fn section_selected(m: AppModel, i: usize) -> AppModel {
    let picked = AppModel { selected_section: i, ..m };
    match m.doc {
        Some(d) => if i < d.sections.len() {
            AppModel {
                binary_scroll_to: Some(base_of(d.sections[i as int], m.memory_view)),
                ..picked
            }
        } else {
            picked
        },
        None => picked,
    }
}

/// The state after a search hit was followed: the node is switched and the
/// target entry selected.
pub open spec fn followed(m: AppModel, h: SearchHitModel) -> AppModel {
    let at = AppModel { node: h.node, search_active: false, ..m };
    match h.node {
        PeNode::Sections => match h.section_index {
            Some(i) => section_selected(at, i),
            None => at,
        },
        PeNode::Imports => match h.import_module {
            Some(name) => AppModel { selected_import: Some(name), ..at },
            None => at,
        },
        _ => at,
    }
}

/// The state after a section was removed, with what is to be said.
pub open spec fn section_removed(m: AppModel, i: int) -> (AppModel, Option<NoticeModel>) {
    let d = m.doc->0;
    match remove_section_error(d, i as nat) {
        Some(e) => (m, Some(NoticeModel::RemoveFailed(e.shown()))),
        None => {
            let sections = d.sections.remove(i);
            (
                touched(
                    AppModel {
                        doc: Some(DocModel { sections, ..d }),
                        section_names: m.section_names.remove(i),
                        selected_section: clamped(m.selected_section, sections.len()),
                        ..m
                    },
                ),
                None,
            )
        },
    }
}

/// The state after `d` became the edited document.
pub open spec fn edited_to(m: AppModel, d: DocModel) -> AppModel {
    touched(AppModel { doc: Some(d), ..m })
}

/// The state after an import was added by hand, with what is to be said.
pub open spec fn import_added(m: AppModel) -> (AppModel, NoticeModel) {
    let module = m.new_import_module;
    let func = m.new_import_func;
    let d = m.doc->0;
    if trimmed(module).len() == 0 || trimmed(func).len() == 0 {
        (m, NoticeModel::ModuleFuncRequired)
    } else {
        (
            touched(
                AppModel {
                    doc: Some(
                        DocModel {
                            imports: imports_with(
                                d.imports,
                                module,
                                seq![ImportFunctionModel::Name(0, func)],
                            ),
                            ..d
                        },
                    ),
                    selected_import: Some(module),
                    new_import_module: Seq::empty(),
                    new_import_func: Seq::empty(),
                    ..m
                },
            ),
            NoticeModel::AddedImport(module, func),
        )
    }
}

/// The state after a module was removed, with what is to be said.
pub open spec fn import_removed(m: AppModel, module: Seq<char>) -> (AppModel, Option<NoticeModel>) {
    let d = m.doc->0;
    let picked = AppModel {
        selected_import: if m.selected_import == Some(module) {
            None
        } else {
            m.selected_import
        },
        ..m
    };
    if module_at(d.imports, module) is None {
        (
            picked,
            Some(
                NoticeModel::RemoveImportFailed(
                    PeErrorModel::InvalidArgument(
                        "remove_import: no import '"@ + module + "'"@,
                    ).shown(),
                ),
            ),
        )
    } else {
        (
            edited_to(picked, DocModel { imports: imports_without(d.imports, module), ..d }),
            None,
        )
    }
}

/// A document with the functions of module `idx` replaced.
pub open spec fn with_functions(d: DocModel, idx: int, f: Seq<ImportFunctionModel>) -> DocModel {
    DocModel {
        imports: d.imports.update(
            idx,
            ImportDescriptorModel { name: d.imports[idx].name, functions: f },
        ),
        ..d
    }
}

/// The symbol the "Add export" row describes; a blank name means none.
pub open spec fn new_export(m: AppModel) -> ExportSymbolModel {
    ExportSymbolModel {
        name: if trimmed(m.new_export_name).len() > 0 {
            Some(trimmed(m.new_export_name))
        } else {
            None
        },
        ordinal: m.new_export_ordinal,
        rva: Rva(m.new_export_rva),
        forwarder: None,
    }
}

/// The state after an export was removed, with what is to be said.
pub open spec fn export_removed(m: AppModel, ordinal: u16) -> (AppModel, Option<NoticeModel>) {
    let d = m.doc->0;
    match exports_without(d.exports, ordinal) {
        Err(e) => (m, Some(NoticeModel::RemoveExportFailed(e.shown()))),
        Ok(exports) => (edited_to(m, DocModel { exports, ..d }), None),
    }
}

/// An optional notice as an optional model.
pub open spec fn notice_view(n: Option<Notice>) -> Option<NoticeModel> {
    match n {
        Some(n) => Some(n@),
        None => None,
    }
}

impl PeEditApp {
    /// Note that the document was edited.
    pub fn touch(&mut self)
        ensures
            final(self)@ == touched(old(self)@),
            final(self).doc == old(self).doc,
    {
        self.dirty = true;
        self.edited_this_frame = true;
    }

    /// Open the document that the bytes of a file hold.
    pub fn load_bytes(&mut self, bytes: &[u8]) -> (n: Notice)
        ensures
            match parsed(bytes@) {
                Ok(d) => final(self)@ == opened(old(self)@, d) && n@ == NoticeModel::Loaded,
                Err(e) => final(self)@ == old(self)@ && n@ == NoticeModel::ParseFailed(e.shown()),
            },
    {
        match parse(bytes) {
            Ok(doc) => {
                self.undo_baseline = Some(doc.clone());
                self.doc = Some(doc);
                self.dirty = false;
                self.pending = Pending::Nothing;
                self.selected_section = 0;
                self.undo_stack = Vec::new();
                self.redo_stack = Vec::new();
                self.gesture_active = false;
                self.edited_this_frame = false;
                self.sync_section_names();
                assert(views(self.undo_stack@) =~= Seq::empty());
                assert(views(self.redo_stack@) =~= Seq::empty());
                Notice::Loaded
            },
            Err(e) => Notice::ParseFailed(e.message()),
        }
    }

    /// Serialize the document and re-parse the result (round-trip self-check),
    /// so a bad edit cannot be silently saved.
    pub fn prepare_save(&self) -> (r: Result<Vec<u8>, Notice>)
        requires
            self@.doc matches Some(d) ==> writable(d),
        ensures
            save_view(r) == bytes_to_save(self@.doc),
    {
        match &self.doc {
            None => Err(Notice::NoDocument),
            Some(doc) => checked_bytes(doc),
        }
    }

    /// Note that the document was written to a file.
    pub fn saved(&mut self)
        ensures
            final(self)@ == (AppModel { dirty: false, ..old(self)@ }),
    {
        self.dirty = false;
    }

    /// Where Save goes; `None` asks for the Save As dialog.
    pub fn save_target(&self) -> (r: Option<String>)
        ensures
            opt_text(r) == save_path_of(self@),
    {
        if !is_blank(self.save_path.as_str()) {
            Some(self.save_path.clone())
        } else if !is_blank(self.path.as_str()) {
            Some(self.path.clone())
        } else {
            None
        }
    }

    /// Ask for an action; with unsaved changes it has to wait for the
    /// confirmation. Returns whether to go on at once.
    pub fn request(&mut self, action: Pending) -> (go: bool)
        ensures
            go == !gated(old(self)@),
            final(self)@ == if gated(old(self)@) {
                AppModel { pending: action@, ..old(self)@ }
            } else {
                old(self)@
            },
    {
        if self.dirty && self.doc.is_some() {
            self.pending = action;
            false
        } else {
            true
        }
    }

    /// The window is asked to close. Returns whether to keep it open: with
    /// unsaved changes the close is routed through the confirmation dialog.
    pub fn close_requested(&mut self) -> (keep_open: bool)
        ensures
            keep_open == old(self)@.dirty,
            final(self)@ == if old(self)@.dirty {
                AppModel { pending: PendingModel::Exit, ..old(self)@ }
            } else {
                old(self)@
            },
    {
        if self.dirty {
            self.pending = Pending::Exit;
            true
        } else {
            false
        }
    }

    /// Unsaved changes are given up; returns the action that waited.
    pub fn discard_changes(&mut self) -> (action: Pending)
        ensures
            action@ == old(self)@.pending,
            final(self)@ == (AppModel {
                pending: PendingModel::Nothing,
                dirty: false,
                ..old(self)@
            }),
    {
        let action = match &self.pending {
            Pending::Nothing => Pending::Nothing,
            Pending::Open => Pending::Open,
            Pending::SaveAs => Pending::SaveAs,
            Pending::Exit => Pending::Exit,
            Pending::OpenPath(p) => Pending::OpenPath(p.clone()),
        };
        self.pending = Pending::Nothing;
        self.dirty = false;
        action
    }

    /// The action that waited is given up.
    pub fn cancel_pending(&mut self)
        ensures
            final(self)@ == (AppModel { pending: PendingModel::Nothing, ..old(self)@ }),
    {
        self.pending = Pending::Nothing;
    }

    /// Run the search that was typed.
    pub fn submit_search(&mut self)
        ensures
            final(self)@ == searched(old(self)@),
    {
        self.search_active = true;
        let hits: Vec<SearchHit> = match &self.doc {
            Some(doc) => global_search(doc, self.search_query.as_str()),
            None => Vec::new(),
        };
        proof {
            if self.doc is None {
                assert(views(hits@) =~= Seq::empty());
            }
        }
        self.search_hits = hits;
    }

    /// Select a section and scroll to its first byte.
    pub fn select_section(&mut self, i: usize)
        ensures
            final(self)@ == section_selected(old(self)@, i),
    {
        self.selected_section = i;
        if let Some(doc) = &self.doc {
            if i < doc.sections.len() {
                assert(doc@.sections[i as int] == doc.sections@[i as int]@);
                self.binary_scroll_to = Some(section_base(&doc.sections[i], self.memory_view));
            }
        }
    }

    /// Apply a cross-tree search hit: switch node and select the target entry.
    pub fn apply_search_hit(&mut self, hit: &SearchHit)
        ensures
            final(self)@ == followed(old(self)@, hit@),
    {
        self.node = hit.node;
        self.search_active = false;
        match hit.node {
            PeNode::Sections => {
                if let Some(i) = hit.section_index {
                    self.select_section(i);
                }
            },
            PeNode::Imports => {
                if let Some(name) = &hit.import_module {
                    self.selected_import = Some(name.clone());
                }
            },
            _ => {},
        }
    }

    /// Set word `i` of the DOS header.
    pub fn edit_dos(&mut self, i: usize, v: u16)
        requires
            old(self)@.doc is Some,
            i < 30,
        ensures
            ({
                let d = old(self)@.doc->0;
                final(self)@ == edited_to(
                    old(self)@,
                    DocModel {
                        dos: DosModel { words: d.dos.words.update(i as int, v), ..d.dos },
                        ..d
                    },
                )
            }),
    {
        if let Some(doc) = &mut self.doc {
            set_dos_field(&mut doc.dos, i, v);
        }
        self.touch();
    }

    /// Set the machine of the COFF header.
    pub fn edit_machine(&mut self, machine: Machine)
        requires
            old(self)@.doc is Some,
        ensures
            ({
                let d = old(self)@.doc->0;
                final(self)@ == edited_to(
                    old(self)@,
                    DocModel { coff: CoffHeader { machine, ..d.coff }, ..d },
                )
            }),
    {
        if let Some(doc) = &mut self.doc {
            doc.coff.machine = machine;
        }
        self.touch();
    }

    /// Set row `i` of the COFF header page.
    pub fn edit_coff(&mut self, i: usize, v: u64)
        requires
            old(self)@.doc matches Some(d) && i < coff_rows(d.coff).len() && (row_max(
                coff_rows(d.coff),
                i as int,
            ) matches Some(max) ==> v <= max),
        ensures
            ({
                let d = old(self)@.doc->0;
                final(self)@ == edited_to(
                    old(self)@,
                    DocModel { coff: with_coff_row(d.coff, i as int, v), ..d },
                )
            }),
    {
        if let Some(doc) = &mut self.doc {
            set_coff_field(&mut doc.coff, i, v);
        }
        self.touch();
    }

    /// Set row `i` of the optional header page.
    pub fn edit_optional(&mut self, i: usize, v: u64)
        requires
            old(self)@.doc matches Some(d) && i < optional_rows(d.optional).len() && (row_max(
                optional_rows(d.optional),
                i as int,
            ) matches Some(max) ==> v <= max),
        ensures
            ({
                let d = old(self)@.doc->0;
                final(self)@ == edited_to(
                    old(self)@,
                    DocModel { optional: with_optional_row(d.optional, i as int, v), ..d },
                )
            }),
    {
        if let Some(doc) = &mut self.doc {
            set_optional_field(&mut doc.optional, i, v);
        }
        self.touch();
    }

    /// Fill the data directory array up with empty entries.
    pub fn fill_directories(&mut self)
        ensures
            match old(self)@.doc {
                Some(d) => final(self)@ == (AppModel {
                    doc: Some(
                        DocModel { data_directories: padded(d.data_directories, 16), ..d },
                    ),
                    ..old(self)@
                }),
                None => final(self)@ == old(self)@,
            },
    {
        if let Some(doc) = &mut self.doc {
            let ghost dirs = doc.data_directories@;
            let ghost start = doc@;
            while doc.data_directories.len() < 16
                invariant
                    dirs.len() <= doc.data_directories@.len(),
                    doc.data_directories@ == padded(dirs, doc.data_directories@.len()),
                    doc.data_directories@.len() <= 16 || doc.data_directories@ == dirs,
                    doc@ == (DocModel { data_directories: doc.data_directories@, ..start }),
                decreases 16 - doc.data_directories@.len(),
            {
                let ghost before = doc.data_directories@;
                doc.data_directories.push(DataDirectory { rva: Rva(0), size: 0 });
                assert(doc.data_directories@ =~= padded(dirs, before.len() + 1));
            }
            assert(doc.data_directories@ =~= padded(dirs, 16));
        }
    }

    /// Set data directory `i`.
    pub fn edit_directory(&mut self, i: usize, rva: u32, size: u32)
        requires
            old(self)@.doc matches Some(d) && i < d.data_directories.len(),
        ensures
            ({
                let d = old(self)@.doc->0;
                final(self)@ == edited_to(
                    old(self)@,
                    DocModel {
                        data_directories: d.data_directories.update(
                            i as int,
                            DataDirectory { rva: Rva(rva), size },
                        ),
                        ..d
                    },
                )
            }),
    {
        if let Some(doc) = &mut self.doc {
            doc.data_directories.set(i, DataDirectory { rva: Rva(rva), size });
        }
        self.touch();
    }

    /// Give section `i` another name.
    pub fn rename_section(&mut self, i: usize, name: &str)
        requires
            old(self)@.doc matches Some(d) && i < d.sections.len(),
            i < old(self)@.section_names.len(),
        ensures
            ({
                let d = old(self)@.doc->0;
                let after = final(self)@.doc->0;
                &&& final(self)@ == touched(
                    AppModel {
                        doc: Some(after),
                        section_names: old(self)@.section_names.update(i as int, name@),
                        ..old(self)@
                    },
                )
                &&& after.sections.len() == d.sections.len()
                &&& after.sections[i as int].header.name@ == name_field(name@)
                &&& after == (DocModel {
                    sections: d.sections.update(
                        i as int,
                        SectionModel {
                            header: SectionHeader {
                                name: after.sections[i as int].header.name,
                                ..d.sections[i as int].header
                            },
                            data: d.sections[i as int].data,
                        },
                    ),
                    ..d
                })
            }),
    {
        let ghost names = self.section_names@;
        let n: [u8; 8] = name_bytes(name);
        if let Some(doc) = &mut self.doc {
            let ghost before = doc@.sections;
            assert(before[i as int] == doc.sections@[i as int]@);
            doc.sections[i].header.name = n;
            assert(doc@.sections =~= before.update(
                i as int,
                SectionModel {
                    header: SectionHeader { name: n, ..before[i as int].header },
                    data: before[i as int].data,
                },
            ));
        }
        self.section_names.set(i, name.to_owned());
        assert(views(self.section_names@) =~= views(names).update(i as int, name@));
        self.touch();
    }

    /// Remove section `i`.
    pub fn remove_section(&mut self, i: usize) -> (n: Option<Notice>)
        requires
            old(self)@.doc matches Some(d) && old(self)@.section_names.len() == d.sections.len(),
        ensures
            (final(self)@, notice_view(n)) == section_removed(old(self)@, i as int),
    {
        let ghost names = self.section_names@;
        if let Some(doc) = &mut self.doc {
            match doc.remove_section(i) {
                Ok(_) => {
                    self.selected_section = clamp_selection(
                        self.selected_section,
                        doc.sections.len(),
                    );
                },
                Err(e) => {
                    return Some(Notice::RemoveFailed(e.message()));
                },
            }
        }
        assert(names.len() == views(names).len());
        self.section_names.remove(i);
        assert(views(self.section_names@) =~= views(names).remove(i as int));
        self.touch();
        None
    }

    /// Append the section the "Add section" row describes.
    pub fn add_section(&mut self) -> (n: Notice)
        requires
            old(self)@.doc is Some,
        ensures
            ({
                let d = old(self)@.doc->0;
                let after = final(self)@.doc->0;
                let name = old(self)@.new_section_name;
                &&& n@ == NoticeModel::AddedSection(name)
                &&& final(self)@ == touched(
                    AppModel {
                        doc: Some(after),
                        section_names: old(self)@.section_names.push(name),
                        selected_section: d.sections.len() as usize,
                        ..old(self)@
                    },
                )
                &&& after.sections.len() == d.sections.len() + 1
                &&& is_named_section(
                    d,
                    after.sections.last(),
                    name,
                    old(self)@.new_section_size as nat,
                )
                &&& after == (DocModel { sections: d.sections.push(after.sections.last()), ..d })
            }),
    {
        let name: String = self.new_section_name.clone();
        let size: usize = self.new_section_size as usize;
        if let Some(doc) = &mut self.doc {
            match add_named_section(doc, name.as_str(), size) {
                Ok(id) => {
                    self.selected_section = id;
                },
                Err(e) => {
                    return Notice::AddFailed(e.message());
                },
            }
        }
        let shown = name.clone();
        proof {
            lemma_views_push(self.section_names@, shown);
        }
        self.section_names.push(shown);
        self.touch();
        Notice::AddedSection(name)
    }

    /// Add the import the "Add import" row describes.
    pub fn add_import(&mut self) -> (n: Notice)
        requires
            old(self)@.doc is Some,
        ensures
            (final(self)@, n@) == import_added(old(self)@),
    {
        let module: String = self.new_import_module.clone();
        let func: String = self.new_import_func.clone();
        if is_blank(module.as_str()) || is_blank(func.as_str()) {
            return Notice::ModuleFuncRequired;
        }
        proof {
            lemma_trimmed_len(module@);
        }
        let mut functions: Vec<ImportFunction> = Vec::new();
        functions.push(ImportFunction::by_name(func.as_str()));
        assert(views(functions@) =~= seq![ImportFunctionModel::Name(0, func@)]);
        if let Some(doc) = &mut self.doc {
            match doc.add_import(module.as_str(), functions.as_slice()) {
                Ok(_) => {},
                Err(e) => {
                    return Notice::AddImportFailed(e.message());
                },
            }
        }
        self.selected_import = Some(module.clone());
        self.new_import_module = String::new();
        self.new_import_func = String::new();
        assert(self.new_import_module@ =~= Seq::empty());
        assert(self.new_import_func@ =~= Seq::empty());
        self.touch();
        Notice::AddedImport(module, func)
    }

    /// Remove a module from the imports.
    pub fn remove_import(&mut self, module: &str) -> (n: Option<Notice>)
        requires
            old(self)@.doc is Some,
        ensures
            (final(self)@, notice_view(n)) == import_removed(old(self)@, module@),
    {
        let wanted: String = module.to_owned();
        let same = match &self.selected_import {
            Some(name) => *name == wanted,
            None => false,
        };
        if same {
            self.selected_import = None;
        }
        if let Some(doc) = &mut self.doc {
            match doc.remove_import(module) {
                Ok(_) => {},
                Err(e) => {
                    return Some(Notice::RemoveImportFailed(e.message()));
                },
            }
        }
        self.touch();
        None
    }

    /// The position of the selected module in the import table.
    pub fn selected_module(&self) -> (r: Option<usize>)
        ensures
            match (self@.doc, self@.selected_import) {
                (Some(d), Some(name)) => match module_at(d.imports, name) {
                    Some(i) => r is Some && r->0 == i && i < d.imports.len(),
                    None => r is None,
                },
                _ => r is None,
            },
    {
        match &self.selected_import {
            Some(name) => match &self.doc {
                Some(doc) => find_module(&doc.imports, name.as_str()),
                None => None,
            },
            None => None,
        }
    }

    /// Append the function the "Add function" row names to module `idx`; a
    /// blank name does nothing.
    pub fn add_function(&mut self, idx: usize)
        requires
            old(self)@.doc matches Some(d) && idx < d.imports.len(),
        ensures
            ({
                let d = old(self)@.doc->0;
                let name = old(self)@.new_import_add_fn;
                final(self)@ == if trimmed(name).len() == 0 {
                    old(self)@
                } else {
                    edited_to(
                        AppModel { new_import_add_fn: Seq::empty(), ..old(self)@ },
                        with_functions(
                            d,
                            idx as int,
                            d.imports[idx as int].functions.push(
                                ImportFunctionModel::Name(0, name),
                            ),
                        ),
                    )
                }
            }),
    {
        if is_blank(self.new_import_add_fn.as_str()) {
            return ;
        }
        let f = ImportFunction::by_name(self.new_import_add_fn.as_str());
        if let Some(doc) = &mut self.doc {
            let ghost d = doc@;
            assert(d.imports[idx as int] == doc.imports@[idx as int]@);
            proof {
                lemma_views_push(doc.imports@[idx as int].functions@, f);
            }
            doc.imports[idx].functions.push(f);
            assert(doc@.imports =~= with_functions(
                d,
                idx as int,
                d.imports[idx as int].functions.push(f@),
            ).imports);
        }
        self.new_import_add_fn = String::new();
        assert(self.new_import_add_fn@ =~= Seq::empty());
        self.touch();
    }

    /// Remove function `i` of module `idx`.
    pub fn remove_function(&mut self, idx: usize, i: usize)
        requires
            old(self)@.doc matches Some(d) && idx < d.imports.len() && i
                < d.imports[idx as int].functions.len(),
        ensures
            ({
                let d = old(self)@.doc->0;
                final(self)@ == edited_to(
                    old(self)@,
                    with_functions(
                        d,
                        idx as int,
                        d.imports[idx as int].functions.remove(i as int),
                    ),
                )
            }),
    {
        if let Some(doc) = &mut self.doc {
            let ghost d = doc@;
            let ghost fs = doc.imports@[idx as int].functions@;
            assert(d.imports[idx as int] == doc.imports@[idx as int]@);
            assert(views(fs).len() == fs.len());
            doc.imports[idx].functions.remove(i);
            proof {
                assert(views(doc.imports@[idx as int].functions@) =~= views(fs).remove(i as int));
                assert(doc@.imports =~= with_functions(
                    d,
                    idx as int,
                    d.imports[idx as int].functions.remove(i as int),
                ).imports);
            }
        }
        self.touch();
    }

    /// Add the export the "Add export" row describes.
    pub fn add_export(&mut self) -> (n: Notice)
        requires
            old(self)@.doc is Some,
        ensures
            ({
                let d = old(self)@.doc->0;
                final(self)@ == edited_to(
                    old(self)@,
                    DocModel {
                        exports: Some(exports_with(d.exports, new_export(old(self)@))),
                        ..d
                    },
                )
            }),
            n@ == NoticeModel::AddedExport(old(self)@.new_export_ordinal),
    {
        let name: String = trim(self.new_export_name.as_str());
        let ordinal: u16 = self.new_export_ordinal;
        let symbol = ExportSymbol {
            name: if name.as_str().is_empty() {
                None
            } else {
                Some(name)
            },
            ordinal,
            rva: Rva(self.new_export_rva),
            forwarder: None,
        };
        assert(symbol@ == new_export(self@));
        if let Some(doc) = &mut self.doc {
            match doc.add_export(symbol) {
                Ok(_) => {},
                Err(e) => {
                    return Notice::AddExportFailed(e.message());
                },
            }
        }
        self.touch();
        Notice::AddedExport(ordinal)
    }

    /// Remove the export with an ordinal.
    pub fn remove_export(&mut self, ordinal: u16) -> (n: Option<Notice>)
        requires
            old(self)@.doc is Some,
        ensures
            (final(self)@, notice_view(n)) == export_removed(old(self)@, ordinal),
    {
        if let Some(doc) = &mut self.doc {
            match doc.remove_export(ordinal) {
                Ok(_) => {},
                Err(e) => {
                    return Some(Notice::RemoveExportFailed(e.message()));
                },
            }
        }
        self.touch();
        None
    }
}

/// Whether `i` is the first place where `n` stands in `h`.
pub open spec fn is_first(h: Seq<u8>, n: Seq<u8>, i: int) -> bool {
    occurs_at(h, n, i) && forall|j: int| j < i ==> !#[trigger] occurs_at(h, n, j)
}

/// The first place where `n` stands in `h`.
pub open spec fn first_place(h: Seq<u8>, n: Seq<u8>) -> int {
    choose|i: int| is_first(h, n, i)
}

proof fn lemma_first_place(h: Seq<u8>, n: Seq<u8>, i: int)
    requires
        is_first(h, n, i),
    ensures
        first_place(h, n) == i,
{
    let p = first_place(h, n);
    assert(is_first(h, n, p));
    assert(occurs_at(h, n, p) && occurs_at(h, n, i));
}

/// The section shown in the hex view, if the selection is one.
pub open spec fn shown_section(m: AppModel) -> Option<SectionModel> {
    match m.doc {
        Some(d) => if m.selected_section < d.sections.len() {
            Some(d.sections[m.selected_section as int])
        } else {
            None
        },
        None => None,
    }
}

/// Whether every byte of the shown section has an address in the hex view.
pub open spec fn shown_section_fits(m: AppModel) -> bool {
    shown_section(m) matches Some(s) ==> base_of(s, m.memory_view) + s.data.len() <= u32::MAX
}

/// The state after the hex view was sent to an address.
pub open spec fn scrolled_to(m: AppModel, address: int) -> AppModel {
    AppModel { binary_scroll_to: Some(address as u32), ..m }
}

/// An optional text that is there, at least empty.
pub open spec fn filled(s: Option<Seq<char>>) -> Option<Seq<char>> {
    match s {
        Some(t) => Some(t),
        None => Some(Seq::empty()),
    }
}

/// A symbol with texts to edit.
pub open spec fn filled_symbol(s: ExportSymbolModel) -> ExportSymbolModel {
    ExportSymbolModel { name: filled(s.name), forwarder: filled(s.forwarder), ..s }
}

/// An export table with texts to edit.
pub open spec fn filled_exports(t: ExportTableModel) -> ExportTableModel {
    ExportTableModel {
        module_name: filled(t.module_name),
        symbols: Seq::new(t.symbols.len(), |i: int| filled_symbol(t.symbols[i])),
        ..t
    }
}

fn fill(s: &mut Option<String>)
    ensures
        opt_text(*final(s)) == filled(opt_text(*old(s))),
{
    if s.is_none() {
        let t = String::new();
        assert(t@ =~= Seq::empty());
        *s = Some(t);
    }
}

impl PeEditApp {
    /// Scroll the hex view to the first place of the bytes that are looked for.
    pub fn find_in_section(&mut self) -> (n: Option<Notice>)
        requires
            shown_section_fits(old(self)@),
        ensures
            shown_section(old(self)@) is None || needle(old(self)@.binary_find) is None ==> n is None
                && final(self)@ == old(self)@,
            shown_section(old(self)@) matches Some(s) ==> (needle(old(self)@.binary_find) matches Some(
                b,
            ) ==> if b.len() > 0 && occurs_in(s.data, b) {
                n is None && final(self)@ == scrolled_to(
                    old(self)@,
                    base_of(s, old(self)@.memory_view) + first_place(s.data, b),
                )
            } else {
                n is Some && n->0@ == NoticeModel::NotFound && final(self)@ == old(self)@
            }),
    {
        let i: usize = self.selected_section;
        if let Some(doc) = &self.doc {
            if i < doc.sections.len() {
                let s: &Section = &doc.sections[i];
                assert(doc@.sections[i as int] == s@);
                if let Some(b) = parse_needle(self.binary_find.as_str()) {
                    match find_bytes(s.data.as_slice(), b.as_slice()) {
                        Some(off) => {
                            let ghost shown = s@;
                            let base: u32 = section_base(s, self.memory_view);
                            self.binary_scroll_to = Some(base + off as u32);
                            proof {
                                assert(is_first(shown.data, b@, off as int));
                                lemma_first_place(shown.data, b@, off as int);
                                assert(shown_section(old(self)@) == Some(shown));
                                assert(self@ =~= scrolled_to(
                                    old(self)@,
                                    base_of(shown, old(self)@.memory_view) + off,
                                ));
                            }
                            return None;
                        },
                        None => {
                            return Some(Notice::NotFound);
                        },
                    }
                }
            }
        }
        None
    }

    /// Scroll the hex view to the address that was typed; an address that makes
    /// no sense does nothing. Returns whether there is somewhere to go.
    pub fn jump(&mut self) -> (go: bool)
        ensures
            match (
                shown_section(old(self)@),
                address_value(old(self)@.binary_jump, u64::MAX as nat),
            ) {
                (Some(s), Some(v)) => go && final(self)@ == (AppModel {
                    binary_scroll_to: Some(
                        jump_target(
                            v as u64,
                            header_image_base(old(self)@.doc->0.optional),
                            base_of(s, old(self)@.memory_view),
                            s.data.len(),
                        ),
                    ),
                    ..old(self)@
                }),
                _ => !go && final(self)@ == old(self)@,
            },
    {
        let i: usize = self.selected_section;
        if let Some(doc) = &self.doc {
            if i < doc.sections.len() {
                let s: &Section = &doc.sections[i];
                assert(doc@.sections[i as int] == s@);
                if let Some(v) = parse_u64(self.binary_jump.as_str()) {
                    let base: u32 = section_base(s, self.memory_view);
                    let image_base: u64 = doc.optional.image_base();
                    let target: u32 = parse_jump_target(v, image_base, base, s.data.len());
                    self.binary_scroll_to = Some(target);
                    return true;
                }
            }
        }
        false
    }

    /// Scroll the hex view to the last byte of the shown section.
    pub fn jump_to_end(&mut self)
        requires
            shown_section_fits(old(self)@),
        ensures
            match shown_section(old(self)@) {
                Some(s) => final(self)@ == (AppModel {
                    binary_scroll_to: Some(
                        (base_of(s, old(self)@.memory_view) + if s.data.len() > 0 {
                            s.data.len() - 1
                        } else {
                            0
                        }) as u32,
                    ),
                    ..old(self)@
                }),
                None => final(self)@ == old(self)@,
            },
    {
        let i: usize = self.selected_section;
        if let Some(doc) = &self.doc {
            if i < doc.sections.len() {
                let s: &Section = &doc.sections[i];
                assert(doc@.sections[i as int] == s@);
                let base: u32 = section_base(s, self.memory_view);
                self.binary_scroll_to = Some(base + s.data.len().saturating_sub(1) as u32);
            }
        }
    }

    /// Give every text of the export table something to edit.
    pub fn fill_export_texts(&mut self)
        ensures
            match old(self)@.doc {
                Some(d) => final(self)@ == (AppModel {
                    doc: Some(
                        DocModel {
                            exports: match d.exports {
                                Some(t) => Some(filled_exports(t)),
                                None => None,
                            },
                            ..d
                        },
                    ),
                    ..old(self)@
                }),
                None => final(self)@ == old(self)@,
            },
    {
        if let Some(doc) = &mut self.doc {
            if let Some(t) = &mut doc.exports {
                let ghost start = t@;
                fill(&mut t.module_name);
                let ghost module_name = opt_text(t.module_name);
                let mut i: usize = 0;
                while i < t.symbols.len()
                    invariant
                        i <= t.symbols.len(),
                        t.symbols@.len() == start.symbols.len(),
                        t@ == (ExportTableModel {
                            module_name: filled(start.module_name),
                            symbols: t@.symbols,
                            ..start
                        }),
                        forall|j: int|
                            0 <= j < i ==> #[trigger] t@.symbols[j] == filled_symbol(
                                start.symbols[j],
                            ),
                        forall|j: int|
                            i <= j < start.symbols.len() ==> #[trigger] t@.symbols[j]
                                == start.symbols[j],
                    decreases t.symbols.len() - i,
                {
                    let ghost before = t@.symbols;
                    assert(before[i as int] == t.symbols@[i as int]@);
                    fill(&mut t.symbols[i].name);
                    fill(&mut t.symbols[i].forwarder);
                    assert(t@.symbols =~= before.update(
                        i as int,
                        filled_symbol(start.symbols[i as int]),
                    ));
                    i = i + 1;
                }
                assert(t@ =~= filled_exports(start));
            }
        }
    }

    /// Fill in the converter fields from whichever is filled. The addresses must
    /// fit.
    pub fn convert(&mut self)
        requires
            old(self)@.doc matches Some(d) ==> (conversion(
                map_of(d),
                old(self)@.conv_rva,
                old(self)@.conv_va,
                old(self)@.conv_raw,
            ) matches Some(c) ==> c.fits()),
        ensures
            ({
                let m = old(self)@;
                match m.doc {
                    Some(d) => match conversion(map_of(d), m.conv_rva, m.conv_va, m.conv_raw) {
                        Some(c) => final(self)@ == (AppModel {
                            conv_rva: hex_text(c.rva as nat),
                            conv_va: hex_text(c.va as nat),
                            conv_raw: c.shown_raw(),
                            ..m
                        }),
                        None => final(self)@ == m,
                    },
                    None => final(self)@ == m,
                }
            }),
    {
        if let Some(doc) = &self.doc {
            let conv = VaConverter::from_document(doc);
            if let Some((rva, va, raw)) = convert_addresses(
                &conv,
                self.conv_rva.as_str(),
                self.conv_va.as_str(),
                self.conv_raw.as_str(),
            ) {
                self.conv_rva = rva;
                self.conv_va = va;
                self.conv_raw = raw;
            }
        }
    }
}

/// The virtual ranges of a document's sections.
pub open spec fn section_ranges(d: DocModel) -> Seq<(u32, u32)> {
    Seq::new(
        d.sections.len(),
        |i: int| (d.sections[i].header.virtual_address.0, d.sections[i].header.virtual_size),
    )
}

/// Two overlapping sections by name.
pub open spec fn pair_text(d: DocModel, p: (usize, usize)) -> Seq<char> {
    section_name(d.sections[p.0 as int]) + "↔"@ + section_name(d.sections[p.1 as int])
}

/// The names of the sections whose virtual ranges overlap, pair by pair; `None`
/// when none do.
pub fn overlap_text(doc: &PeDocument) -> (r: Option<String>)
    ensures
        exists|pairs: Seq<(usize, usize)>| #[trigger]
            lists_overlaps(section_ranges(doc@), pairs) && match r {
                Some(s) => pairs.len() > 0 && s@ == joined(
                    Seq::new(pairs.len(), |k: int| pair_text(doc@, pairs[k])),
                    ", "@,
                ),
                None => pairs.len() == 0,
            },
{
    let ghost d = doc@;
    let mut ranges: Vec<(u32, u32)> = Vec::new();
    let mut i: usize = 0;
    while i < doc.sections.len()
        invariant
            i <= doc.sections.len(),
            d == doc@,
            ranges@ == section_ranges(d).take(i as int),
        decreases doc.sections.len() - i,
    {
        assert(d.sections[i as int] == doc.sections@[i as int]@);
        ranges.push(
            (
                doc.sections[i].header.virtual_address.get(),
                doc.sections[i].header.virtual_size,
            ),
        );
        i = i + 1;
        assert(ranges@ =~= section_ranges(d).take(i as int));
    }
    assert(section_ranges(d).take(i as int) =~= section_ranges(d));
    let pairs = find_overlaps(&ranges);
    assert(lists_overlaps(section_ranges(d), pairs@));
    if pairs.len() == 0 {
        return None;
    }
    let ghost all = Seq::new(pairs@.len(), |k: int| pair_text(d, pairs@[k]));
    let mut texts: Vec<String> = Vec::new();
    let mut k: usize = 0;
    assert(views(texts@) =~= all.take(0));
    while k < pairs.len()
        invariant
            k <= pairs.len(),
            d == doc@,
            lists_overlaps(section_ranges(d), pairs@),
            all == Seq::new(pairs@.len(), |k: int| pair_text(d, pairs@[k])),
            views(texts@) == all.take(k as int),
        decreases pairs.len() - k,
    {
        let (a, b) = pairs[k];
        proof {
            assert(pairs@[k as int].0 < pairs@[k as int].1 < section_ranges(d).len());
            assert(d.sections[a as int] == doc.sections@[a as int]@);
            assert(d.sections[b as int] == doc.sections@[b as int]@);
        }
        let mut s: String = doc.sections[a].name_str();
        s.append("↔");
        s.append(doc.sections[b].name_str().as_str());
        proof {
            lemma_views_push(texts@, s);
            assert(all[k as int] == s@);
        }
        texts.push(s);
        k = k + 1;
        assert(views(texts@) =~= all.take(k as int));
    }
    assert(all.take(k as int) =~= all);
    Some(join_texts(&texts, ", "))
}

} // verus!

//! Finding things in a document.

use crate::domain::document::{DocModel, PeDocument};
use crate::domain::export::{clone_opt_text, opt_text, ExportSymbolModel, ExportTable};
use crate::domain::import::{lemma_views_push, views, ImportDescriptor, ImportDescriptorModel};
use crate::domain::resource::{
    lemma_directory_model, ResourceDataModel, ResourceDirectory, ResourceEntry, ResourceEntryData,
    ResourceEntryModel, ResourceName, ResourceNameModel,
};
use crate::domain::section::{before_nul, SectionModel};
use crate::text::{chars_of, dec_text, lowercase, push_dec, to_lower, utf8_text};
use crate::ui::input::{trim, trimmed};
use vstd::prelude::*;
use vstd::string::*;

verus! {

/// Whether `n` stands in `h` at `i`.
pub open spec fn occurs_at<T>(h: Seq<T>, n: Seq<T>, i: int) -> bool {
    0 <= i && i + n.len() <= h.len() && h.subrange(i, i + n.len()) == n
}

/// Whether `n` stands somewhere in `h`.
pub open spec fn occurs_in<T>(h: Seq<T>, n: Seq<T>) -> bool {
    exists|i: int| occurs_at(h, n, i)
}

/// Whether `n` stands in `h` at `i`.
fn stands_at(h: &[u8], n: &[u8], i: usize) -> (r: bool)
    requires
        i + n.len() <= h.len(),
    ensures
        r == occurs_at(h@, n@, i as int),
{
    let mut k: usize = 0;
    while k < n.len()
        invariant
            k <= n.len(),
            i + n.len() <= h.len(),
            forall|j: int| 0 <= j < k ==> h@[i + j] == n@[j],
        decreases n.len() - k,
    {
        if h[i + k] != n[k] {
            assert(h@.subrange(i as int, i + n.len())[k as int] != n@[k as int]);
            return false;
        }
        k = k + 1;
    }
    assert(h@.subrange(i as int, i + n.len()) =~= n@);
    true
}

/// First index where `needle` occurs in `haystack`, or `None`. An empty needle
/// occurs nowhere.
pub fn find_bytes(haystack: &[u8], needle: &[u8]) -> (r: Option<usize>)
    ensures
        match r {
            Some(i) => needle@.len() > 0 && occurs_at(haystack@, needle@, i as int) && forall|j: int|
                j < i ==> !#[trigger] occurs_at(haystack@, needle@, j),
            None => needle@.len() == 0 || !occurs_in(haystack@, needle@),
        },
{
    if needle.len() == 0 || needle.len() > haystack.len() {
        return None;
    }
    let last: usize = haystack.len() - needle.len();
    let mut i: usize = 0;
    while i <= last
        invariant
            i <= last + 1,
            last == haystack.len() - needle.len(),
            0 < needle.len() <= haystack.len(),
            forall|j: int| j < i ==> !#[trigger] occurs_at(haystack@, needle@, j),
        decreases last + 1 - i,
    {
        if stands_at(haystack, needle, i) {
            return Some(i);
        }
        i = i + 1;
    }
    None
}

/// Whether `n` stands in `h` at `i`.
fn chars_stand_at(h: &[char], n: &[char], i: usize) -> (r: bool)
    requires
        i + n.len() <= h.len(),
    ensures
        r == occurs_at(h@, n@, i as int),
{
    let mut k: usize = 0;
    while k < n.len()
        invariant
            k <= n.len(),
            i + n.len() <= h.len(),
            forall|j: int| 0 <= j < k ==> h@[i + j] == n@[j],
        decreases n.len() - k,
    {
        if h[i + k] != n[k] {
            assert(h@.subrange(i as int, i + n.len())[k as int] != n@[k as int]);
            return false;
        }
        k = k + 1;
    }
    assert(h@.subrange(i as int, i + n.len()) =~= n@);
    true
}

/// Whether `needle` stands somewhere in `text`.
pub fn text_contains(text: &str, needle: &str) -> (r: bool)
    ensures
        r == occurs_in(text@, needle@),
{
    let h = chars_of(text);
    let n = chars_of(needle);
    if n.len() == 0 {
        assert(h@.subrange(0, 0) =~= n@);
        assert(occurs_at(text@, needle@, 0));
        return true;
    }
    if n.len() > h.len() {
        return false;
    }
    let last: usize = h.len() - n.len();
    let mut i: usize = 0;
    while i <= last
        invariant
            i <= last + 1,
            last == h.len() - n.len(),
            0 < n.len() <= h.len(),
            h@ == text@,
            n@ == needle@,
            forall|j: int| j < i ==> !#[trigger] occurs_at(h@, n@, j),
        decreases last + 1 - i,
    {
        if chars_stand_at(h.as_slice(), n.as_slice(), i) {
            assert(occurs_at(text@, needle@, i as int));
            return true;
        }
        i = i + 1;
    }
    false
}

/// Whether `text` has `needle` in it, letter case aside.
pub open spec fn matches_text(text: Seq<char>, needle: Seq<char>) -> bool {
    occurs_in(lowercase(text), lowercase(needle))
}

/// Case-insensitive "contains" filter for the import module list. A blank
/// filter lets everything through.
pub fn import_matches(name: &str, filter: &str) -> (r: bool)
    ensures
        r == (trimmed(filter@).len() == 0 || matches_text(name@, trimmed(filter@))),
{
    let f = trim(filter);
    f.as_str().is_empty() || text_contains(to_lower(name).as_str(), to_lower(f.as_str()).as_str())
}

/// The end of a range, held at the top of the address space.
pub open spec fn range_end(r: (u32, u32)) -> int {
    if r.0 + r.1 <= u32::MAX {
        r.0 + r.1
    } else {
        u32::MAX as int
    }
}

/// Whether two `(start, size)` ranges share an address.
pub open spec fn overlap(a: (u32, u32), b: (u32, u32)) -> bool {
    a.1 > 0 && b.1 > 0 && a.0 < range_end(b) && b.0 < range_end(a)
}

/// Whether `a` comes before `b`, by the first number and then the second.
pub open spec fn pair_before(a: (usize, usize), b: (usize, usize)) -> bool {
    a.0 < b.0 || (a.0 == b.0 && a.1 < b.1)
}

/// Whether `pairs` holds every pair of ranges that overlap and nothing else,
/// each once with the smaller index first, in rising order.
pub open spec fn lists_overlaps(ranges: Seq<(u32, u32)>, pairs: Seq<(usize, usize)>) -> bool {
    &&& forall|k: int|
        0 <= k < pairs.len() ==> (#[trigger] pairs[k]).0 < pairs[k].1 < ranges.len() && overlap(
            ranges[pairs[k].0 as int],
            ranges[pairs[k].1 as int],
        )
    &&& forall|i: usize, j: usize|
        i < j < ranges.len() && overlap(ranges[i as int], ranges[j as int])
            ==> #[trigger] pairs.contains((i, j))
    &&& forall|a: int, b: int|
        0 <= a < b < pairs.len() ==> pair_before(#[trigger] pairs[a], #[trigger] pairs[b])
}

/// Index pairs of `(start, size)` ranges that overlap in address space. Zero
/// or unset sizes never overlap. Each pair is reported once, smaller index
/// first.
pub fn find_overlaps(ranges: &[(u32, u32)]) -> (r: Vec<(usize, usize)>)
    ensures
        lists_overlaps(ranges@, r@),
{
    let mut out: Vec<(usize, usize)> = Vec::new();
    let mut i: usize = 0;
    while i < ranges.len()
        invariant
            i <= ranges.len(),
            forall|k: int|
                0 <= k < out@.len() ==> (#[trigger] out@[k]).0 < out@[k].1 < ranges@.len()
                    && out@[k].0 < i && overlap(
                    ranges@[out@[k].0 as int],
                    ranges@[out@[k].1 as int],
                ),
            forall|x: usize, y: usize|
                x < i && x < y < ranges@.len() && overlap(ranges@[x as int], ranges@[y as int])
                    ==> #[trigger] out@.contains((x, y)),
            forall|a: int, b: int|
                0 <= a < b < out@.len() ==> pair_before(#[trigger] out@[a], #[trigger] out@[b]),
        decreases ranges.len() - i,
    {
        let (a, alen) = ranges[i];
        let a_end: u32 = a.saturating_add(alen);
        let mut j: usize = i + 1;
        while j < ranges.len()
            invariant
                i < j <= ranges.len(),
                ranges@[i as int] == (a, alen),
                a_end == range_end((a, alen)),
                forall|k: int|
                    0 <= k < out@.len() ==> (#[trigger] out@[k]).0 < out@[k].1 < ranges@.len()
                        && out@[k].0 <= i && (out@[k].0 == i ==> out@[k].1 < j) && overlap(
                        ranges@[out@[k].0 as int],
                        ranges@[out@[k].1 as int],
                    ),
                forall|x: usize, y: usize|
                    (x < i || (x == i && y < j)) && x < y < ranges@.len() && overlap(
                        ranges@[x as int],
                        ranges@[y as int],
                    ) ==> #[trigger] out@.contains((x, y)),
                forall|a: int, b: int|
                    0 <= a < b < out@.len() ==> pair_before(#[trigger] out@[a], #[trigger] out@[b]),
            decreases ranges.len() - j,
        {
            let (b, blen) = ranges[j];
            let b_end: u32 = b.saturating_add(blen);
            let ghost before = out@;
            if alen != 0 && blen != 0 && a < b_end && b < a_end {
                out.push((i, j));
                proof {
                    assert forall|x: usize, y: usize|
                        (x < i || (x == i && y < j + 1)) && x < y < ranges@.len() && overlap(
                            ranges@[x as int],
                            ranges@[y as int],
                        ) implies #[trigger] out@.contains((x, y)) by {
                        if x == i && y == j {
                            assert(out@[before.len() as int] == (x, y));
                        } else {
                            assert(before.contains((x, y)));
                            let k = choose|k: int| 0 <= k < before.len() && before[k] == (x, y);
                            assert(out@[k] == (x, y));
                        }
                    }
                }
            }
            j = j + 1;
        }
        i = i + 1;
    }
    out
}

/// Overlapping does not depend on the order of the two ranges.
pub proof fn overlap_is_symmetric(a: (u32, u32), b: (u32, u32))
    ensures
        overlap(a, b) == overlap(b, a),
{
}

/// The nodes of the structure tree.
#[derive(Debug, Clone, Copy, PartialEq, Eq, Structural)]
pub enum PeNode {
    Dos,
    Coff,
    Optional,
    DataDirs,
    Sections,
    Imports,
    Exports,
    Resources,
    Relocations,
    Tls,
    LoadConfig,
    Converter,
}

impl Default for PeNode {
    fn default() -> (r: PeNode)
        ensures
            r == PeNode::Dos,
    {
        PeNode::Dos
    }
}

impl PeNode {
    /// The nodes in the order of the tree.
    pub fn all() -> (r: [PeNode; 12])
        ensures
            r@ == seq![
                PeNode::Dos,
                PeNode::Coff,
                PeNode::Optional,
                PeNode::DataDirs,
                PeNode::Sections,
                PeNode::Imports,
                PeNode::Exports,
                PeNode::Resources,
                PeNode::Relocations,
                PeNode::Tls,
                PeNode::LoadConfig,
                PeNode::Converter,
            ],
    {
        [
            PeNode::Dos,
            PeNode::Coff,
            PeNode::Optional,
            PeNode::DataDirs,
            PeNode::Sections,
            PeNode::Imports,
            PeNode::Exports,
            PeNode::Resources,
            PeNode::Relocations,
            PeNode::Tls,
            PeNode::LoadConfig,
            PeNode::Converter,
        ]
    }
}

/// One cross-tree search result: which node to jump to, a human label, and the
/// node-specific selection to apply on jump.
#[derive(Debug, PartialEq, Eq)]
pub struct SearchHit {
    pub node: PeNode,
    pub label: String,
    /// Import module to select (Imports node).
    pub import_module: Option<String>,
    /// Section index to select (Sections node).
    pub section_index: Option<usize>,
    /// Resource tree path (Resources node).
    pub resource_path: Option<String>,
}

/// A search result with its texts as character sequences.
#[verifier::ext_equal]
pub struct SearchHitModel {
    pub node: PeNode,
    pub label: Seq<char>,
    pub import_module: Option<Seq<char>>,
    pub section_index: Option<usize>,
    pub resource_path: Option<Seq<char>>,
}

impl View for SearchHit {
    type V = SearchHitModel;

    open spec fn view(&self) -> SearchHitModel {
        SearchHitModel {
            node: self.node,
            label: self.label@,
            import_module: opt_text(self.import_module),
            section_index: self.section_index,
            resource_path: opt_text(self.resource_path),
        }
    }
}

impl Clone for SearchHit {
    fn clone(&self) -> (r: SearchHit)
        ensures
            r@ == self@,
    {
        SearchHit {
            node: self.node,
            label: self.label.clone(),
            import_module: clone_opt_text(&self.import_module),
            section_index: self.section_index,
            resource_path: clone_opt_text(&self.resource_path),
        }
    }
}

/// A section's name.
pub open spec fn section_name(s: SectionModel) -> Seq<char> {
    utf8_text(before_nul(s.header.name@))
}

/// A hit in the given node.
pub open spec fn hit(node: PeNode, label: Seq<char>) -> SearchHitModel {
    SearchHitModel {
        node,
        label,
        import_module: None,
        section_index: None,
        resource_path: None,
    }
}

/// The hits among the first `n` sections.
pub open spec fn section_hits(s: Seq<SectionModel>, q: Seq<char>, n: nat) -> Seq<SearchHitModel>
    decreases n,
{
    if n == 0 {
        Seq::empty()
    } else {
        let before = section_hits(s, q, (n - 1) as nat);
        let name = section_name(s[n - 1]);
        if occurs_in(lowercase(name), q) {
            before.push(
                SearchHitModel {
                    section_index: Some((n - 1) as usize),
                    ..hit(PeNode::Sections, "section · "@ + name)
                },
            )
        } else {
            before
        }
    }
}

/// The hits among the first `n` functions of a module.
pub open spec fn function_hits(d: ImportDescriptorModel, q: Seq<char>, n: nat) -> Seq<
    SearchHitModel,
>
    decreases n,
{
    if n == 0 {
        Seq::empty()
    } else {
        let before = function_hits(d, q, (n - 1) as nat);
        let name = d.functions[n - 1].shown();
        if occurs_in(lowercase(name), q) {
            before.push(
                SearchHitModel {
                    import_module: Some(d.name),
                    ..hit(PeNode::Imports, "import · "@ + d.name + "."@ + name)
                },
            )
        } else {
            before
        }
    }
}

/// The hits in one module: its name, then its functions.
pub open spec fn module_hits(d: ImportDescriptorModel, q: Seq<char>) -> Seq<SearchHitModel> {
    let own = if occurs_in(lowercase(d.name), q) {
        seq![
            SearchHitModel {
                import_module: Some(d.name),
                ..hit(PeNode::Imports, "import module · "@ + d.name)
            },
        ]
    } else {
        Seq::empty()
    };
    own + function_hits(d, q, d.functions.len())
}

/// The hits among the first `n` modules.
pub open spec fn import_hits(im: Seq<ImportDescriptorModel>, q: Seq<char>, n: nat) -> Seq<
    SearchHitModel,
>
    decreases n,
{
    if n == 0 {
        Seq::empty()
    } else {
        import_hits(im, q, (n - 1) as nat) + module_hits(im[n - 1], q)
    }
}

/// The hits among the first `n` exported symbols.
pub open spec fn export_hits(s: Seq<ExportSymbolModel>, q: Seq<char>, n: nat) -> Seq<SearchHitModel>
    decreases n,
{
    if n == 0 {
        Seq::empty()
    } else {
        let before = export_hits(s, q, (n - 1) as nat);
        match s[n - 1].name {
            Some(name) => if occurs_in(lowercase(name), q) {
                before.push(hit(PeNode::Exports, "export · "@ + name))
            } else {
                before
            },
            None => before,
        }
    }
}

/// A resource name as it is shown.
pub open spec fn shown_name(n: ResourceNameModel) -> Seq<char> {
    match n {
        ResourceNameModel::Id(id) => "#"@ + dec_text(id as nat),
        ResourceNameModel::Named(s) => s,
    }
}

/// The shown names of the first `n` entries of a directory and of everything
/// under them, depth first.
pub open spec fn resource_names(e: Seq<ResourceEntryModel>, n: nat) -> Seq<Seq<char>>
    decreases e, n,
{
    if n == 0 || n > e.len() {
        Seq::empty()
    } else {
        let before = resource_names(e, (n - 1) as nat);
        let own = before.push(shown_name(e[n - 1].name));
        match e[n - 1].data {
            ResourceDataModel::Directory(sub) => own + resource_names(sub, sub.len()),
            ResourceDataModel::Leaf(_) => own,
        }
    }
}

/// The hits among the first `n` resource names.
pub open spec fn resource_hits(names: Seq<Seq<char>>, q: Seq<char>, n: nat) -> Seq<SearchHitModel>
    decreases n,
{
    if n == 0 {
        Seq::empty()
    } else {
        let before = resource_hits(names, q, (n - 1) as nat);
        let name = names[n - 1];
        if occurs_in(lowercase(name), q) {
            before.push(
                SearchHitModel {
                    resource_path: Some(name),
                    ..hit(PeNode::Resources, "resource · "@ + name)
                },
            )
        } else {
            before
        }
    }
}

/// The shown names of all resources.
pub open spec fn all_resource_names(r: Option<Seq<ResourceEntryModel>>) -> Seq<Seq<char>> {
    match r {
        Some(e) => resource_names(e, e.len()),
        None => Seq::empty(),
    }
}

/// The hits of a lower-case query: sections, then imports, exports and
/// resources. An empty query has none.
pub open spec fn lowered_hits(d: DocModel, q: Seq<char>) -> Seq<SearchHitModel> {
    if q.len() == 0 {
        Seq::empty()
    } else {
        let symbols = match d.exports {
            Some(t) => t.symbols,
            None => Seq::empty(),
        };
        let names = all_resource_names(d.resources);
        section_hits(d.sections, q, d.sections.len()) + import_hits(d.imports, q, d.imports.len())
            + export_hits(symbols, q, symbols.len()) + resource_hits(names, q, names.len())
    }
}

/// The hits of a query, white space around it and letter case aside. A blank
/// query has none.
pub open spec fn search_hits(d: DocModel, query: Seq<char>) -> Seq<SearchHitModel> {
    if trimmed(query).len() == 0 {
        Seq::empty()
    } else {
        lowered_hits(d, lowercase(trimmed(query)))
    }
}

/// Whether a text has the (lower-case) query in it, letter case aside.
fn hits_query(text: &str, q: &str) -> (r: bool)
    ensures
        r == occurs_in(lowercase(text@), q@),
{
    text_contains(to_lower(text).as_str(), q)
}

/// A hit with its label put together from two parts.
fn make_hit(node: PeNode, what: &str, name: &str) -> (r: SearchHit)
    ensures
        r@ == hit(node, what@ + name@),
{
    let mut label: String = what.to_owned();
    label.append(name);
    SearchHit { node, label, import_module: None, section_index: None, resource_path: None }
}

fn add_section_hits(doc: &PeDocument, q: &str, hits: &mut Vec<SearchHit>)
    ensures
        views(final(hits)@) == views(old(hits)@) + section_hits(
            doc@.sections,
            q@,
            doc@.sections.len(),
        ),
{
    let ghost start = views(hits@);
    let mut i: usize = 0;
    assert(start + section_hits(doc@.sections, q@, 0) =~= start);
    while i < doc.sections.len()
        invariant
            i <= doc.sections.len(),
            views(hits@) == start + section_hits(doc@.sections, q@, i as nat),
        decreases doc.sections.len() - i,
    {
        let name = doc.sections[i].name_str();
        assert(doc@.sections[i as int] == doc.sections@[i as int]@);
        let ghost before = section_hits(doc@.sections, q@, i as nat);
        if hits_query(name.as_str(), q) {
            let mut h = make_hit(PeNode::Sections, "section · ", name.as_str());
            h.section_index = Some(i);
            proof {
                lemma_views_push(hits@, h);
                assert(start + before.push(h@) =~= (start + before).push(h@));
            }
            hits.push(h);
        }
        i = i + 1;
    }
}

fn add_function_hits(d: &ImportDescriptor, q: &str, hits: &mut Vec<SearchHit>)
    ensures
        views(final(hits)@) == views(old(hits)@) + function_hits(d@, q@, d@.functions.len()),
{
    let ghost start = views(hits@);
    let mut i: usize = 0;
    assert(start + function_hits(d@, q@, 0) =~= start);
    while i < d.functions.len()
        invariant
            i <= d.functions.len(),
            views(hits@) == start + function_hits(d@, q@, i as nat),
        decreases d.functions.len() - i,
    {
        let name = d.functions[i].display_name();
        assert(d@.functions[i as int] == d.functions@[i as int]@);
        let ghost before = function_hits(d@, q@, i as nat);
        if hits_query(name.as_str(), q) {
            let mut label: String = "import · ".to_owned();
            label.append(d.name.as_str());
            label.append(".");
            label.append(name.as_str());
            let h = SearchHit {
                node: PeNode::Imports,
                label,
                import_module: Some(d.name.clone()),
                section_index: None,
                resource_path: None,
            };
            proof {
                lemma_views_push(hits@, h);
                assert(start + before.push(h@) =~= (start + before).push(h@));
            }
            hits.push(h);
        }
        i = i + 1;
    }
}

fn add_import_hits(doc: &PeDocument, q: &str, hits: &mut Vec<SearchHit>)
    ensures
        views(final(hits)@) == views(old(hits)@) + import_hits(
            doc@.imports,
            q@,
            doc@.imports.len(),
        ),
{
    let ghost start = views(hits@);
    let mut i: usize = 0;
    assert(start + import_hits(doc@.imports, q@, 0) =~= start);
    while i < doc.imports.len()
        invariant
            i <= doc.imports.len(),
            views(hits@) == start + import_hits(doc@.imports, q@, i as nat),
        decreases doc.imports.len() - i,
    {
        let d: &ImportDescriptor = &doc.imports[i];
        assert(doc@.imports[i as int] == d@);
        let ghost before = import_hits(doc@.imports, q@, i as nat);
        let ghost at = views(hits@);
        if hits_query(d.name.as_str(), q) {
            let mut h = make_hit(PeNode::Imports, "import module · ", d.name.as_str());
            h.import_module = Some(d.name.clone());
            proof {
                lemma_views_push(hits@, h);
            }
            hits.push(h);
        }
        add_function_hits(d, q, hits);
        assert(views(hits@) =~= at + module_hits(d@, q@));
        assert(views(hits@) =~= start + (before + module_hits(d@, q@)));
        i = i + 1;
    }
}

fn add_export_hits(t: &ExportTable, q: &str, hits: &mut Vec<SearchHit>)
    ensures
        views(final(hits)@) == views(old(hits)@) + export_hits(
            t@.symbols,
            q@,
            t@.symbols.len(),
        ),
{
    let ghost start = views(hits@);
    let mut i: usize = 0;
    assert(start + export_hits(t@.symbols, q@, 0) =~= start);
    while i < t.symbols.len()
        invariant
            i <= t.symbols.len(),
            views(hits@) == start + export_hits(t@.symbols, q@, i as nat),
        decreases t.symbols.len() - i,
    {
        assert(t@.symbols[i as int] == t.symbols@[i as int]@);
        let ghost before = export_hits(t@.symbols, q@, i as nat);
        if let Some(name) = &t.symbols[i].name {
            if hits_query(name.as_str(), q) {
                let h = make_hit(PeNode::Exports, "export · ", name.as_str());
                proof {
                    lemma_views_push(hits@, h);
                    assert(start + before.push(h@) =~= (start + before).push(h@));
                }
                hits.push(h);
            }
        }
        i = i + 1;
    }
}

impl ResourceName {
    /// The name as it is shown: the text, or `#<id>`.
    pub fn display_name(&self) -> (r: String)
        ensures
            r@ == shown_name(self@),
    {
        match self {
            ResourceName::Id(id) => {
                let mut s: String = "#".to_owned();
                push_dec(&mut s, *id as u64);
                s
            },
            ResourceName::Named(n) => n.clone(),
        }
    }
}

/// Collect the display name of every resource entry (directories and leaves),
/// depth-first, so search can match e.g. `#24` (RT_MANIFEST) or a leaf name.
pub fn collect_resource_paths(dir: &ResourceDirectory, out: &mut Vec<String>)
    ensures
        views(final(out)@) == views(old(out)@) + resource_names(dir@, dir@.len()),
    decreases dir,
{
    let ghost start = views(out@);
    let ghost all = dir@;
    let mut i: usize = 0;
    proof {
        lemma_directory_model(*dir);
        assert(start + resource_names(all, 0) =~= start);
    }
    while i < dir.entries.len()
        invariant
            i <= dir.entries.len(),
            all == dir@,
            all.len() == dir.entries@.len(),
            views(out@) == start + resource_names(all, i as nat),
        decreases dir.entries.len() - i,
    {
        let e: &ResourceEntry = &dir.entries[i];
        let ghost before = resource_names(all, i as nat);
        proof {
            lemma_directory_model(*dir);
            assert(all[i as int] == e@);
        }
        let name = e.name.display_name();
        proof {
            lemma_views_push(out@, name);
        }
        out.push(name);
        assert(views(out@) =~= start + before.push(shown_name(e.name@)));
        match &e.data {
            ResourceEntryData::Directory(sub) => {
                assert(decreases_to!(dir => dir.entries));
                assert(decreases_to!(dir.entries => dir.entries@[i as int]));
                collect_resource_paths(sub, out);
                assert(views(out@) =~= start + (before.push(shown_name(e.name@)) + resource_names(
                    sub@,
                    sub@.len(),
                )));
            },
            ResourceEntryData::Leaf(_) => {},
        }
        i = i + 1;
    }
}

fn add_resource_hits(names: &[String], q: &str, hits: &mut Vec<SearchHit>)
    ensures
        views(final(hits)@) == views(old(hits)@) + resource_hits(
            views(names@),
            q@,
            names@.len(),
        ),
{
    let ghost start = views(hits@);
    let ghost all = views(names@);
    let mut i: usize = 0;
    assert(start + resource_hits(all, q@, 0) =~= start);
    while i < names.len()
        invariant
            i <= names.len(),
            all == views(names@),
            views(hits@) == start + resource_hits(all, q@, i as nat),
        decreases names.len() - i,
    {
        assert(all[i as int] == names@[i as int]@);
        let ghost before = resource_hits(all, q@, i as nat);
        if hits_query(names[i].as_str(), q) {
            let mut h = make_hit(PeNode::Resources, "resource · ", names[i].as_str());
            h.resource_path = Some(names[i].clone());
            proof {
                lemma_views_push(hits@, h);
                assert(start + before.push(h@) =~= (start + before).push(h@));
            }
            hits.push(h);
        }
        i = i + 1;
    }
}

/// Search for a query that is in lower case already.
pub fn search_lowered(doc: &PeDocument, q: &str) -> (r: Vec<SearchHit>)
    ensures
        views(r@) == lowered_hits(doc@, q@),
{
    let mut hits: Vec<SearchHit> = Vec::new();
    assert(views(hits@) =~= Seq::empty());
    if q.is_empty() {
        return hits;
    }
    add_section_hits(doc, q, &mut hits);
    add_import_hits(doc, q, &mut hits);
    match &doc.exports {
        Some(t) => {
            add_export_hits(t, q, &mut hits);
        },
        None => {},
    }
    let mut names: Vec<String> = Vec::new();
    assert(views(names@) =~= Seq::empty());
    match &doc.resources {
        Some(root) => {
            collect_resource_paths(root, &mut names);
        },
        None => {},
    }
    assert(views(names@) =~= all_resource_names(doc@.resources));
    add_resource_hits(&names, q, &mut hits);
    assert(views(hits@) =~= lowered_hits(doc@, q@));
    hits
}

/// Case-insensitive substring search across sections, import modules/functions,
/// export symbols and resource names. Empty queries yield no hits.
pub fn global_search(doc: &PeDocument, query: &str) -> (r: Vec<SearchHit>)
    ensures
        views(r@) == search_hits(doc@, query@),
        trimmed(query@).len() == 0 ==> r@.len() == 0,
{
    let t = trim(query);
    if t.as_str().is_empty() {
        let none: Vec<SearchHit> = Vec::new();
        assert(views(none@) =~= Seq::empty());
        return none;
    }
    search_lowered(doc, to_lower(t.as_str()).as_str())
}

} // verus!

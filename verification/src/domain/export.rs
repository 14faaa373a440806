//! Export table domain model.

use crate::domain::import::{lemma_views_push, views};
use crate::domain::types::Rva;
use vstd::prelude::*;

verus! {

/// A single exported symbol.
#[derive(Debug, PartialEq, Eq)]
pub struct ExportSymbol {
    /// Export name, or `None` when exported only by ordinal.
    pub name: Option<String>,
    pub ordinal: u16,
    pub rva: Rva,
    /// Forwarder string such as `"ntdll.RtlpAllocateReadOnlyMemory"`.
    pub forwarder: Option<String>,
}

/// An optional text as an optional character sequence.
pub open spec fn opt_text(s: Option<String>) -> Option<Seq<char>> {
    match s {
        Some(t) => Some(t@),
        None => None,
    }
}

/// An exported symbol with its texts as character sequences.
pub struct ExportSymbolModel {
    pub name: Option<Seq<char>>,
    pub ordinal: u16,
    pub rva: Rva,
    pub forwarder: Option<Seq<char>>,
}

impl View for ExportSymbol {
    type V = ExportSymbolModel;

    open spec fn view(&self) -> ExportSymbolModel {
        ExportSymbolModel {
            name: opt_text(self.name),
            ordinal: self.ordinal,
            rva: self.rva,
            forwarder: opt_text(self.forwarder),
        }
    }
}

/// A copy of an optional text.
pub fn clone_opt_text(s: &Option<String>) -> (r: Option<String>)
    ensures
        opt_text(r) == opt_text(*s),
{
    match s {
        Some(t) => Some(t.clone()),
        None => None,
    }
}

/// Whether two optional texts are the same.
pub fn same_opt_text(a: &Option<String>, b: &Option<String>) -> (r: bool)
    ensures
        r == (opt_text(*a) == opt_text(*b)),
{
    match a {
        Some(x) => match b {
            Some(y) => *x == *y,
            None => false,
        },
        None => b.is_none(),
    }
}

impl Clone for ExportSymbol {
    fn clone(&self) -> (r: ExportSymbol)
        ensures
            r@ == self@,
    {
        ExportSymbol {
            name: clone_opt_text(&self.name),
            ordinal: self.ordinal,
            rva: self.rva,
            forwarder: clone_opt_text(&self.forwarder),
        }
    }
}

impl ExportSymbol {
    /// Whether both are the same symbol.
    pub fn same(&self, other: &ExportSymbol) -> (r: bool)
        ensures
            r == (self@ == other@),
    {
        same_opt_text(&self.name, &other.name) && self.ordinal == other.ordinal && self.rva
            == other.rva && same_opt_text(&self.forwarder, &other.forwarder)
    }
}

/// The parsed export table of a PE.
#[derive(Debug, PartialEq, Eq)]
pub struct ExportTable {
    pub module_name: Option<String>,
    pub base: u32,
    pub number_of_functions: u32,
    pub symbols: Vec<ExportSymbol>,
}

/// An export table with its texts as character sequences.
#[verifier::ext_equal]
pub struct ExportTableModel {
    pub module_name: Option<Seq<char>>,
    pub base: u32,
    pub number_of_functions: u32,
    pub symbols: Seq<ExportSymbolModel>,
}

impl View for ExportTable {
    type V = ExportTableModel;

    open spec fn view(&self) -> ExportTableModel {
        ExportTableModel {
            module_name: opt_text(self.module_name),
            base: self.base,
            number_of_functions: self.number_of_functions,
            symbols: views(self.symbols@),
        }
    }
}

impl Default for ExportTable {
    fn default() -> (r: ExportTable)
        ensures
            r@ == (ExportTableModel {
                module_name: None,
                base: 0,
                number_of_functions: 0,
                symbols: Seq::empty(),
            }),
    {
        let r = ExportTable {
            module_name: None,
            base: 0,
            number_of_functions: 0,
            symbols: Vec::new(),
        };
        assert(views(r.symbols@) =~= Seq::empty());
        r
    }
}

impl Clone for ExportTable {
    fn clone(&self) -> (r: ExportTable)
        ensures
            r@ == self@,
    {
        let mut symbols: Vec<ExportSymbol> = Vec::new();
        let mut i: usize = 0;
        while i < self.symbols.len()
            invariant
                i <= self.symbols.len(),
                views(symbols@) == views(self.symbols@).take(i as int),
            decreases self.symbols.len() - i,
        {
            let s = self.symbols[i].clone();
            proof {
                lemma_views_push(symbols@, s);
            }
            symbols.push(s);
            i = i + 1;
            assert(views(symbols@) =~= views(self.symbols@).take(i as int));
        }
        assert(views(self.symbols@).take(self.symbols.len() as int) =~= views(self.symbols@));
        ExportTable {
            module_name: clone_opt_text(&self.module_name),
            base: self.base,
            number_of_functions: self.number_of_functions,
            symbols,
        }
    }
}

impl ExportTable {
    /// Whether both tables are the same.
    pub fn same(&self, other: &ExportTable) -> (r: bool)
        ensures
            r == (self@ == other@),
    {
        if !same_opt_text(&self.module_name, &other.module_name) || self.base != other.base
            || self.number_of_functions != other.number_of_functions || self.symbols.len()
            != other.symbols.len() {
            assert(views(self.symbols@).len() == self.symbols.len());
            assert(views(other.symbols@).len() == other.symbols.len());
            return false;
        }
        let mut i: usize = 0;
        while i < self.symbols.len()
            invariant
                i <= self.symbols.len(),
                self.symbols.len() == other.symbols.len(),
                forall|j: int| 0 <= j < i ==> self.symbols@[j]@ == other.symbols@[j]@,
            decreases self.symbols.len() - i,
        {
            if !self.symbols[i].same(&other.symbols[i]) {
                assert(views(self.symbols@)[i as int] != views(other.symbols@)[i as int]);
                return false;
            }
            i = i + 1;
        }
        assert(views(self.symbols@) =~= views(other.symbols@));
        true
    }
}

} // verus!

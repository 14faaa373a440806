//! Editing of the (rich) export table.

use crate::bytes::{low, low32};
use crate::domain::document::{opt_view, DocModel, Document, PeDocument};
use crate::domain::export::{ExportSymbol, ExportSymbolModel, ExportTable, ExportTableModel};
use crate::domain::import::{lemma_views_push, views};
use crate::error::{not_found, PeError, PeErrorModel, PeResult};
use crate::text::{dec_text, push_dec};
use vstd::prelude::*;
use vstd::string::*;

verus! {

/// The first symbol with the given ordinal.
pub open spec fn symbol_at(symbols: Seq<ExportSymbolModel>, ordinal: u16) -> Option<int>
    decreases symbols.len(),
{
    if symbols.len() == 0 {
        None
    } else {
        match symbol_at(symbols.drop_last(), ordinal) {
            Some(i) => Some(i),
            None => if symbols.last().ordinal == ordinal {
                Some(symbols.len() - 1)
            } else {
                None
            },
        }
    }
}

/// The symbols that do not have the given ordinal.
pub open spec fn symbols_without(symbols: Seq<ExportSymbolModel>, ordinal: u16) -> Seq<
    ExportSymbolModel,
>
    decreases symbols.len(),
{
    if symbols.len() == 0 {
        Seq::empty()
    } else {
        let before = symbols_without(symbols.drop_last(), ordinal);
        if symbols.last().ordinal == ordinal {
            before
        } else {
            before.push(symbols.last())
        }
    }
}

/// An export table without a module name, with base 0 and no symbols.
pub open spec fn empty_exports() -> ExportTableModel {
    ExportTableModel { module_name: None, base: 0, number_of_functions: 0, symbols: Seq::empty() }
}

/// A table with its symbols replaced and counted.
pub open spec fn with_symbols(
    t: ExportTableModel,
    symbols: Seq<ExportSymbolModel>,
) -> ExportTableModel {
    ExportTableModel { number_of_functions: low(symbols.len()), symbols, ..t }
}

/// The symbols after adding `s`, which takes the place of the first symbol with
/// its ordinal.
pub open spec fn symbols_with(symbols: Seq<ExportSymbolModel>, s: ExportSymbolModel) -> Seq<
    ExportSymbolModel,
> {
    match symbol_at(symbols, s.ordinal) {
        Some(i) => symbols.update(i, s),
        None => symbols.push(s),
    }
}

/// The export table after adding `s`.
pub open spec fn exports_with(
    exports: Option<ExportTableModel>,
    s: ExportSymbolModel,
) -> ExportTableModel {
    let t = match exports {
        Some(t) => t,
        None => empty_exports(),
    };
    with_symbols(t, symbols_with(t.symbols, s))
}

/// The export table after removing every symbol with the given ordinal.
pub open spec fn exports_without(exports: Option<ExportTableModel>, ordinal: u16) -> Result<
    Option<ExportTableModel>,
    PeErrorModel,
> {
    match exports {
        None => Err(PeErrorModel::NotFound("remove_export: no export table"@)),
        Some(t) => {
            let symbols = symbols_without(t.symbols, ordinal);
            if symbol_at(t.symbols, ordinal) is None {
                Err(
                    PeErrorModel::NotFound(
                        "remove_export: no export at ordinal "@ + dec_text(ordinal as nat),
                    ),
                )
            } else if symbols.len() == 0 {
                Ok(None)
            } else {
                Ok(Some(with_symbols(t, symbols)))
            }
        },
    }
}

/// Operations on the parsed export table of a [`PeDocument`].
///
/// `add_export` / `remove_export` / `set_exports` edit the rich form directly.
/// The physical export directory is rebuilt at serialization time by the
/// writer (a fresh `.peexp` section when the existing directory no longer
/// matches the rich form), so no immediate write-back is needed.
pub trait ExportTableEditor: Document {
    /// Replace the whole export table; `None` clears it.
    fn set_exports(&mut self, exports: Option<ExportTable>) -> (r: PeResult<()>)
        ensures
            r is Ok,
            final(self).model() == (DocModel { exports: opt_view(exports), ..old(self).model() }),
    ;

    /// Add `symbol`, or replace the existing symbol with the same ordinal.
    /// Auto-creates the export table when the document has none (base 0,
    /// empty module name).
    fn add_export(&mut self, symbol: ExportSymbol) -> (r: PeResult<()>)
        ensures
            r is Ok,
            final(self).model() == (DocModel {
                exports: Some(exports_with(old(self).model().exports, symbol@)),
                ..old(self).model()
            }),
    ;

    /// Remove the symbol at `ordinal`; error when it is absent. Removing the
    /// last symbol clears the export table.
    fn remove_export(&mut self, ordinal: u16) -> (r: PeResult<()>)
        ensures
            match exports_without(old(self).model().exports, ordinal) {
                Ok(exports) => r is Ok && final(self).model() == (DocModel {
                    exports,
                    ..old(self).model()
                }),
                Err(e) => r is Err && r->Err_0@ == e && final(self).model()
                    == old(self).model(),
            },
    ;
}

/// The first symbol with the given ordinal.
fn find_symbol(symbols: &[ExportSymbol], ordinal: u16) -> (r: Option<usize>)
    ensures
        match r {
            Some(i) => symbol_at(views(symbols@), ordinal) == Some(i as int) && i < symbols@.len(),
            None => symbol_at(views(symbols@), ordinal) is None,
        },
{
    let ghost all = views(symbols@);
    let mut i: usize = 0;
    while i < symbols.len()
        invariant
            i <= symbols.len(),
            all == views(symbols@),
            symbol_at(all.take(i as int), ordinal) is None,
        decreases symbols.len() - i,
    {
        proof {
            assert(all.take(i + 1).drop_last() =~= all.take(i as int));
            assert(all.take(i + 1).last() == symbols@[i as int]@);
        }
        if symbols[i].ordinal == ordinal {
            proof {
                lemma_symbol_prefix(all, ordinal, i + 1);
            }
            return Some(i);
        }
        i = i + 1;
    }
    assert(all.take(i as int) =~= all);
    None
}

proof fn lemma_symbol_prefix(symbols: Seq<ExportSymbolModel>, ordinal: u16, n: int)
    requires
        0 <= n <= symbols.len(),
        symbol_at(symbols.take(n), ordinal) is Some,
    ensures
        symbol_at(symbols, ordinal) == symbol_at(symbols.take(n), ordinal),
    decreases symbols.len(),
{
    if n < symbols.len() {
        assert(symbols.drop_last().take(n) =~= symbols.take(n));
        lemma_symbol_prefix(symbols.drop_last(), ordinal, n);
    } else {
        assert(symbols.take(n) =~= symbols);
    }
}

/// Removing an ordinal that no symbol has leaves the symbols as they are; no
/// symbol keeps a removed ordinal.
pub proof fn removed_ordinal_is_gone(symbols: Seq<ExportSymbolModel>, ordinal: u16)
    ensures
        symbol_at(symbols_without(symbols, ordinal), ordinal) is None,
        symbol_at(symbols, ordinal) is None ==> symbols_without(symbols, ordinal) == symbols,
        symbol_at(symbols, ordinal) is Some ==> symbols_without(symbols, ordinal).len()
            < symbols.len(),
        symbols_without(symbols, ordinal).len() <= symbols.len(),
    decreases symbols.len(),
{
    if symbols.len() > 0 {
        removed_ordinal_is_gone(symbols.drop_last(), ordinal);
        let before = symbols_without(symbols.drop_last(), ordinal);
        if symbols.last().ordinal != ordinal {
            assert(before.push(symbols.last()).drop_last() =~= before);
            if symbol_at(symbols, ordinal) is None {
                assert(symbols.drop_last().push(symbols.last()) =~= symbols);
            }
        }
    }
}

/// After adding a symbol, the first symbol with its ordinal is that symbol.
pub proof fn added_export_is_found(symbols: Seq<ExportSymbolModel>, s: ExportSymbolModel)
    ensures
        symbol_at(symbols_with(symbols, s), s.ordinal) matches Some(i) && 0 <= i
            < symbols_with(symbols, s).len() && symbols_with(symbols, s)[i] == s,
        symbol_at(symbols, s.ordinal) matches Some(i) ==> 0 <= i < symbols.len()
            && symbols_with(symbols, s).len() == symbols.len(),
    decreases symbols.len(),
{
    if symbols.len() > 0 {
        added_export_is_found(symbols.drop_last(), s);
        match symbol_at(symbols.drop_last(), s.ordinal) {
            Some(i) => {
                assert(symbols.update(i, s).drop_last() =~= symbols.drop_last().update(i, s));
            },
            None => {
                if symbols.last().ordinal == s.ordinal {
                    assert(symbols.update(symbols.len() - 1, s).drop_last()
                        =~= symbols.drop_last());
                } else {
                    assert(symbols.push(s).drop_last() =~= symbols);
                }
            },
        }
    } else {
        assert(symbols.push(s).drop_last() =~= symbols);
    }
}

impl ExportTableEditor for PeDocument {
    fn set_exports(&mut self, exports: Option<ExportTable>) -> (r: PeResult<()>) {
        self.exports = exports;
        Ok(())
    }

    fn add_export(&mut self, symbol: ExportSymbol) -> (r: PeResult<()>) {
        let mut table: ExportTable = match self.exports.take() {
            Some(t) => t,
            None => ExportTable::default(),
        };
        let ghost before = table@;
        proof {
            added_export_is_found(table@.symbols, symbol@);
        }
        match find_symbol(&table.symbols, symbol.ordinal) {
            Some(i) => {
                let ghost symbols = table.symbols@;
                table.symbols.set(i, symbol);
                assert(views(table.symbols@) =~= views(symbols).update(i as int, symbol@));
            },
            None => {
                proof {
                    lemma_views_push(table.symbols@, symbol);
                }
                table.symbols.push(symbol);
            },
        }
        table.number_of_functions = low32(table.symbols.len() as u128);
        self.exports = Some(table);
        Ok(())
    }

    fn remove_export(&mut self, ordinal: u16) -> (r: PeResult<()>) {
        let table: &ExportTable = match &self.exports {
            Some(t) => t,
            None => {
                return Err(not_found("remove_export: no export table"));
            },
        };
        let ghost t = table@;
        let ghost all = views(table.symbols@);
        let mut kept: Vec<ExportSymbol> = Vec::new();
        let mut i: usize = 0;
        assert(all.take(0) =~= Seq::empty());
        assert(views(kept@) =~= Seq::empty());
        while i < table.symbols.len()
            invariant
                i <= table.symbols.len(),
                all == views(table.symbols@),
                views(kept@) == symbols_without(all.take(i as int), ordinal),
            decreases table.symbols.len() - i,
        {
            proof {
                assert(all.take(i + 1).drop_last() =~= all.take(i as int));
                assert(all.take(i + 1).last() == table.symbols@[i as int]@);
            }
            if table.symbols[i].ordinal != ordinal {
                let s = table.symbols[i].clone();
                proof {
                    lemma_views_push(kept@, s);
                }
                kept.push(s);
            }
            i = i + 1;
        }
        proof {
            assert(all.take(i as int) =~= all);
            removed_ordinal_is_gone(all, ordinal);
            assert(views(kept@).len() == kept@.len());
        }
        if kept.len() == table.symbols.len() {
            let mut m: String = "remove_export: no export at ordinal ".to_owned();
            push_dec(&mut m, ordinal as u64);
            return Err(PeError::NotFound(m));
        }
        if kept.len() == 0 {
            // The last symbol is gone: no exports left, clear the table so the
            // writer zeroes the export directory.
            self.exports = None;
        } else {
            let n: u32 = low32(kept.len() as u128);
            let new = ExportTable {
                module_name: crate::domain::export::clone_opt_text(&table.module_name),
                base: table.base,
                number_of_functions: n,
                symbols: kept,
            };
            assert(new@ =~= with_symbols(t, symbols_without(all, ordinal)));
            self.exports = Some(new);
        }
        Ok(())
    }
}

} // verus!

//! Resolution of an IAT thunk address to a concrete import.

use crate::domain::document::opt_view;
use crate::domain::import::{ImportFunction, ImportFunctionModel};
use vstd::prelude::*;

verus! {

/// A thunk address resolved to a module plus the function it names.
#[derive(Debug, PartialEq, Eq)]
pub struct ResolvedImport {
    pub module: String,
    pub function: ImportFunction,
}

/// A resolved import with its texts as character sequences.
pub struct ResolvedImportModel {
    pub module: Seq<char>,
    pub function: ImportFunctionModel,
}

impl View for ResolvedImport {
    type V = ResolvedImportModel;

    open spec fn view(&self) -> ResolvedImportModel {
        ResolvedImportModel { module: self.module@, function: self.function@ }
    }
}

impl Clone for ResolvedImport {
    fn clone(&self) -> (r: ResolvedImport)
        ensures
            r@ == self@,
    {
        ResolvedImport { module: self.module.clone(), function: self.function.clone() }
    }
}

/// Resolves an absolute address (as stored in an IAT slot) to a concrete
/// module/function. The mapping is caller-provided (e.g. from a symbol map or
/// a live process's loaded modules); the mock provides a fixed map.
pub trait ImportResolver {
    /// What an address stands for.
    spec fn target(&self, address: u64) -> Option<ResolvedImportModel>;

    fn resolve(&self, address: u64) -> (r: Option<ResolvedImport>)
        ensures
            opt_view(r) == self.target(address),
    ;
}

} // verus!

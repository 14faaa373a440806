//! IAT fixing (import table rebuilding, "Fix Dump").

use crate::api::resolver::ImportResolver;
use crate::domain::iat::{IatEntry, IatFixOptions, IatFixReport, IatScan};
use crate::error::PeResult;
use vstd::prelude::*;

verus! {

/// Rebuilds a PE's import table from the addresses found in its IAT.
///
/// This is Scylla's core "Fix Dump" operation, exposed in file terms:
/// every thunk value is resolved to a `(module, function)` pair and a fresh
/// import directory (descriptors + thunk arrays + name strings) is written
/// into the image. How is up to the implementor.
pub trait IatFixer {
    /// Resolve the entries of `scan` and rebuild the import table from them.
    fn fix_iat<R: ImportResolver>(
        &mut self,
        scan: &IatScan,
        resolver: &R,
        options: &IatFixOptions,
    ) -> PeResult<IatFixReport>;

    /// Manually add a caller-supplied array of IAT entries, then rebuild.
    fn add_iat_array<R: ImportResolver>(
        &mut self,
        entries: &[IatEntry],
        resolver: &R,
        options: &IatFixOptions,
    ) -> PeResult<IatFixReport>;
}

} // verus!

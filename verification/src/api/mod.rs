//! The **outer layer** of the library: capability traits that a GUI (or any
//! consumer) drives directly. Implementations operate on
//! [`crate::domain::PeDocument`], so they work identically for mock- and
//! real-parser-backed documents.

pub mod code_laws;
pub mod directory_editor;
pub mod edit_laws;
pub mod editor;
pub mod exporter;
pub mod iat_fixer;
pub mod iat_scanner;
pub mod importer;
pub mod in_place;
pub mod reflection_laws;
pub mod resolver;
pub mod run_laws;
pub mod scan_laws;
pub mod viewer;

pub use directory_editor::DirectoryEditor;
pub use editor::PeEditor;
pub use exporter::ExportTableEditor;
pub use iat_fixer::IatFixer;
pub use iat_scanner::IatScanner;
pub use importer::ImportTableEditor;
pub use resolver::{ImportResolver, ResolvedImport};
pub use viewer::PeViewer;

//! # pe_edit
//!
//! A library for **viewing and editing PE (Portable Executable) files**, in
//! which every function states what it computes and Verus proves that it does.
//!
//! A PE image is parsed into a rich [`PeDocument`](crate::domain::PeDocument)
//! (headers, sections, data directories and the import/export/resource/reloc/
//! TLS/LoadConfig rich forms), edited through the capability traits in
//! [`crate::api`], and serialized back to bytes. [`crate::io::pe::laws`] holds
//! what reading and writing keep of each other.

pub mod api;
pub mod bytes;
pub mod disasm;
pub mod domain;
pub mod error;
pub mod feature;
pub mod io;
pub mod process;
pub mod sorting;
pub mod text;
pub mod ui;

pub use error::{PeError, PeResult};

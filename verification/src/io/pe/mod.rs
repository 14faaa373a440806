//! Real PE parser and writer (the adapter behind
//! [`ByteSource`](crate::io::ByteSource)).

pub mod decode;
pub mod directory_render;
pub mod export_render;
pub mod import_render;
pub mod laws;
pub mod layout;
pub mod parser;
pub mod writer;

pub use parser::parse;
pub use writer::serialize;

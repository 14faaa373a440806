//! What the command line and the windows compute and decide; drawing and files
//! are left to the caller.

pub mod cli;
pub mod convert;
pub mod dump_app;
pub mod dump_args;
pub mod edit_app;
pub mod field_laws;
pub mod fields;
pub mod format;
pub mod hex;
pub mod input;
pub mod labels;
pub mod lang;
pub mod laws;
pub mod report;
pub mod search;
pub mod texts;

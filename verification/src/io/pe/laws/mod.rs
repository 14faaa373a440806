//! What reading and writing promise together.
pub mod directories;
pub mod exports;
pub mod extension;
pub mod format;
pub mod headers;
pub mod image;
pub mod imports;
pub mod plain;
pub mod plan;
pub mod roundtrip;
pub mod stability;
pub mod tables;
pub mod written;

//! Standalone disk-editing utilities built on the domain model.

pub mod section_rebuild;
pub mod va;

pub use section_rebuild::{merge_sections, rebuild_section_table};
pub use va::VaConverter;

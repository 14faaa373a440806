//! Adapters (ports) between bytes and the domain model.
//!
//! The only place where the *mock* and *real* implementations differ:
//! - [`MockSource`] fabricates a deterministic in-memory document (no real parsing).
//! - [`ByteSource`] parses real PE bytes and serializes documents back.

pub mod mock;
pub mod pe;
pub mod source;

pub use mock::{
    MockResolver, MockSource, MOCK_APIS_BASE, MOCK_IAT_RVA, MOCK_IDATA_RVA, MOCK_IMAGE_BASE,
    MOCK_TEXT_RVA,
};
pub use source::{ByteSource, PeFile, PeSource};

//! What is computed for a running process; reading and writing its memory is
//! left to the caller.

pub mod machine;
pub mod tracer;

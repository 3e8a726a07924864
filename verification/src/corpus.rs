//! Executable pieces of the sample programs that the rules are tried on.
//!
//! The samples come in pairs, one that shows a defect and one that does not.
//! What they compute without any I/O is stated and verified here.

pub mod buggy;
pub mod clean;
pub mod runtime;

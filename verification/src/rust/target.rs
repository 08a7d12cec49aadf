//! A crate named on the command line (the same target the token counter
//! parses).
pub use crate::crate_target::CrateTarget;

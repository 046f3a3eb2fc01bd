//! Resolution: from what the user asked for to the targets that plans are
//! built from.
pub mod common;
pub mod installed;
pub mod repair;
pub mod registry;
pub mod install;
pub mod update;

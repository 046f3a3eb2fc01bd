//! Font package management: package names, versions and manifests, the
//! package database's state machine, target resolution, planning and the
//! scheduling of plan steps.

pub mod text;
pub mod package;
pub mod db;
pub mod db_file;
pub mod simulate;
pub mod registry;
pub mod engine;

pub mod definition;
pub mod digest;
pub mod dirs;
pub mod equality;
pub mod file_name;
pub mod id;
pub mod manifest;
pub mod matching;
pub mod name;
pub mod namespace;
pub mod qualified_name;
pub mod rule;
pub mod spec;
pub mod state;
pub mod toml;
pub mod version;

//! Resolution of layered sandbox profiles: entries read from a user-level
//! and a project-level document are aggregated, templates are flattened into
//! commands, and a resolved entry is turned into `bwrap` arguments.
pub mod model;
pub mod env;
pub mod entry;
pub mod config;
pub mod document;
pub mod yaml;
pub mod bwrap;
pub mod loader;

pub use bwrap::WrappedCommandBuilder;
pub use config::Config;
pub use entry::{Entry, EntryType};
pub use env::EnvVars;
pub use loader::ConfigLoader;

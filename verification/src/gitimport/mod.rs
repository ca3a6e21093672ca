//! Importing a Git repository.

pub mod oid;
pub mod path;
pub mod manifest;
pub mod changes;
pub mod import;

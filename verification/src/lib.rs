//! The decisions that Mononoke's tools make: what a Git repository is imported as, what the
//! filestore benchmark writes where, which values tunables take, and how a traversal of a tree
//! is watched.
//!
//! Everything here works on plain values. Reading repositories, storing blobs, waiting and
//! printing is left to the programs that use it.

pub mod assoc;
pub mod benchmark_filestore;
pub mod bounded_traversal;
pub mod buffer;
pub mod gitimport;
pub mod number;
pub mod sql_ext;
pub mod tunables;

//! A benchmark of the filestore: what its arguments mean, which blobstore it writes to, and
//! what it writes and reads.

pub mod args;
pub mod blob;
pub mod run;

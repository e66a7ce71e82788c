//! Moves e-book files from download and library folders onto a reader's
//! mount point, and clears licence artifacts and reader-software copies.
//!
//! The library holds the decisions: which directory entries match an
//! extension, how a directory tree is walked, which files are moved where,
//! which are removed, and how failures are reported. The file system itself
//! is read and changed by the caller, who hands listings in and carries the
//! planned operations out.
pub mod filter;
pub mod path;
pub mod scan;
pub mod laws;
pub mod transfer;

//! Verified core of a directory-tree diff tool.
//!
//! The library classifies the children of two directories as added, deleted,
//! modified, unchanged, or mismatched in kind, by sorting the two listings
//! by name and walking them in lock-step.  File contents are compared chunk
//! by chunk; the per-chunk verdict is computed here, while the surrounding
//! program performs the actual reads and the recursion into subdirectories.

pub mod classify;
pub mod content;
pub mod entry;
pub mod exclude;
pub mod merge;

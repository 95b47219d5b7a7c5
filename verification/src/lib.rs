//! A content-addressed file deduplication library.
//!
//! The crate scans the entries of a directory tree (handed in by the caller),
//! decides which files take part via an ignore filter, fingerprints file
//! content with a digest, groups files by digest in a duplicate index that
//! persists across runs, and decides which redundant copies may be removed
//! while always keeping the last copy of every digest group.

pub mod file_filter;
pub mod hash;
pub mod index;
pub mod engine;
pub mod report;

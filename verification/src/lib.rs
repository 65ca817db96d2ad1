//! Filesystem exploration and indexing core.
//!
//! Given snapshots of directory listings and file metadata, this crate
//! classifies filesystem nodes (directory, file, symbolic link, unknown),
//! builds immutable `Entry` records, navigates a current location up and
//! down the tree (`Explorer`), and walks a whole subtree to partition its
//! descendants into directories, files and links (`Indexer`).
//!
//! The crate itself performs no I/O: callers probe the filesystem and hand
//! the results in as plain values (`NodeMeta`, `DirListing`, `TreeSnapshot`),
//! so that every rule — classification order, per-child error tolerance,
//! transactional navigation — is stated in contracts and proved.

pub mod entry;
pub mod errors;
pub mod explorer;
pub mod file;
pub mod fs_path;
pub mod indexer;

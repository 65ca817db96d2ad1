//! Error kinds shared by the whole crate.

use vstd::prelude::*;

verus! {

/// What can go wrong while building entries, navigating, or indexing.
///
/// `PathDoesNotExist`: the existence of a path could not be confirmed.
/// `FaultyName`: a path has no extractable final component (e.g. a root).
/// `Io`: an underlying read failed (directory listing, canonicalization).
/// `NotAFile` / `NotADirectory`: a type mismatch at construction.
#[derive(Clone, Copy, Debug, PartialEq, Eq, Structural)]
pub enum FsError {
    PathDoesNotExist,
    FaultyName,
    Io,
    NotAFile,
    NotADirectory,
}

} // verus!

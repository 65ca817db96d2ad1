//! A narrow record for nodes already known to be regular files.

use vstd::prelude::*;

use crate::errors::FsError;
use crate::fs_path::FsPath;
use crate::fs_path::spec_path_text;

verus! {

/// A snapshot of one regular file, identified by its absolute path.
pub struct File {
    path: FsPath,
}

impl View for File {
    type V = Seq<Seq<char>>;

    closed spec fn view(&self) -> Seq<Seq<char>> {
        self.path@
    }
}

impl File {
    /// Accepts `path` only when the caller's metadata probe showed a
    /// regular file; rejects anything else as `NotAFile`.
    pub fn new(path: FsPath, is_file: bool) -> (r: Result<File, FsError>)
        ensures
            is_file ==> (r matches Ok(f) && f@ == path@),
            !is_file ==> r == Err::<File, FsError>(FsError::NotAFile),
    {
        if !is_file {
            return Err(FsError::NotAFile);
        }
        Ok(File { path })
    }

    /// The absolute path of the file.
    pub fn get_path(&self) -> (r: &FsPath)
        ensures
            r@ == self@,
    {
        &self.path
    }

    /// The display name: the final component, or the whole path rendered
    /// as text when there is none.
    pub fn get_name(&self) -> (r: String)
        ensures
            self@.len() > 0 ==> r@ == self@.last(),
            self@.len() == 0 ==> r@ == spec_path_text(self@),
    {
        match self.path.file_name() {
            Some(name) => name,
            None => self.path.to_text(),
        }
    }
}

} // verus!

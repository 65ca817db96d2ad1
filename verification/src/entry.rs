//! Classification of filesystem nodes and the immutable `Entry` snapshot.

use vstd::prelude::*;

use crate::errors::FsError;
use crate::fs_path::FsPath;

verus! {

/// The four kinds a filesystem node is classified into.
#[derive(Clone, Copy, Debug, PartialEq, Eq, Structural)]
pub enum EntryType {
    Directory,
    File,
    Link,
    Unknown,
}

/// What one round of metadata probing observed about a path.
///
/// Callers fill this from the host filesystem: `exists` is the outcome of
/// an existence check (`None` when the check itself failed), the three
/// flags are the metadata type tests (directory and file tests follow
/// symbolic links, so a link to a directory classifies as a directory),
/// and `dir_listing` is the outcome of reading the node's own listing —
/// `Some(nonempty)` on success, `None` on failure, and irrelevant for
/// non-directories.
#[derive(Clone, Copy, Debug)]
pub struct NodeMeta {
    pub exists: Option<bool>,
    pub is_dir: bool,
    pub is_file: bool,
    pub is_symlink: bool,
    pub dir_listing: Option<bool>,
}

/// Classification policy: directory first, then file, then symbolic link,
/// first match wins; anything else is unknown.
pub open spec fn spec_classify(m: NodeMeta) -> EntryType {
    if m.is_dir {
        EntryType::Directory
    } else if m.is_file {
        EntryType::File
    } else if m.is_symlink {
        EntryType::Link
    } else {
        EntryType::Unknown
    }
}

/// Maps probed metadata to an `EntryType`; total, never fails.
pub fn classify(meta: &NodeMeta) -> (t: EntryType)
    ensures
        t == spec_classify(*meta),
{
    if meta.is_dir {
        EntryType::Directory
    } else if meta.is_file {
        EntryType::File
    } else if meta.is_symlink {
        EntryType::Link
    } else {
        EntryType::Unknown
    }
}

/// The mathematical value of an `Entry`.
pub struct EntryModel {
    pub entry_type: EntryType,
    pub name: Seq<char>,
    pub path: Seq<Seq<char>>,
    pub has_children: bool,
}

/// Exactly what `Entry::new` returns for a path and its probed metadata:
/// no confirmed existence is `PathDoesNotExist`; a path without a final
/// component is `FaultyName`; a directory whose own listing could not be
/// read is `Io` — deliberately a hard error, never silently "no children";
/// otherwise the snapshot record, whose `has_children` holds exactly for a
/// directory with a nonempty listing.
pub open spec fn spec_entry_new(path: Seq<Seq<char>>, m: NodeMeta) -> Result<EntryModel, FsError> {
    if m.exists != Some(true) {
        Err(FsError::PathDoesNotExist)
    } else if path.len() == 0 {
        Err(FsError::FaultyName)
    } else {
        let t = spec_classify(m);
        if t == EntryType::Directory && m.dir_listing is None {
            Err(FsError::Io)
        } else {
            Ok(
                EntryModel {
                    entry_type: t,
                    name: path.last(),
                    path: path,
                    has_children: t == EntryType::Directory && m.dir_listing == Some(true),
                },
            )
        }
    }
}

/// The has-children flag of a built entry holds exactly for a directory
/// whose listing showed at least one item, and never for an entry of any
/// other kind.
pub proof fn lemma_has_children_iff(path: Seq<Seq<char>>, m: NodeMeta)
    ensures
        spec_entry_new(path, m) matches Ok(e) ==> {
            &&& e.has_children <==> (e.entry_type == EntryType::Directory && m.dir_listing
                == Some(true))
            &&& e.entry_type != EntryType::Directory ==> !e.has_children
        },
{
}

/// The kind a built entry records is exactly what the classifier says
/// of the same metadata.
pub proof fn lemma_entry_type_matches_classifier(path: Seq<Seq<char>>, m: NodeMeta)
    ensures
        spec_entry_new(path, m) matches Ok(e) ==> e.entry_type == spec_classify(m),
{
}

/// Immutable snapshot of one filesystem node: its kind, display name,
/// absolute path, and whether it had children when probed.
pub struct Entry {
    entry_type: EntryType,
    name: String,
    path: FsPath,
    has_children: bool,
}

impl View for Entry {
    type V = EntryModel;

    closed spec fn view(&self) -> EntryModel {
        EntryModel {
            entry_type: self.entry_type,
            name: self.name@,
            path: self.path@,
            has_children: self.has_children,
        }
    }
}

impl DeepView for Entry {
    type V = EntryModel;

    open spec fn deep_view(&self) -> EntryModel {
        self.view()
    }
}

impl Clone for Entry {
    fn clone(&self) -> (r: Self)
        ensures
            r@ == self@,
    {
        Entry {
            entry_type: self.entry_type,
            name: self.name.clone(),
            path: self.path.clone(),
            has_children: self.has_children,
        }
    }
}

impl Entry {
    /// Builds the snapshot for `path` from its probed metadata; returns the
    /// value that `spec_entry_new` assigns to these inputs, error for error.
    pub fn new(path: FsPath, meta: &NodeMeta) -> (r: Result<Entry, FsError>)
        ensures
            match r {
                Ok(e) => spec_entry_new(path@, *meta) == Ok::<EntryModel, FsError>(e@),
                Err(err) => spec_entry_new(path@, *meta) == Err::<EntryModel, FsError>(err),
            },
    {
        match meta.exists {
            Some(true) => (),
            _ => {
                return Err(FsError::PathDoesNotExist);
            },
        };
        let name = match path.file_name() {
            Some(n) => n,
            None => {
                return Err(FsError::FaultyName);
            },
        };
        let entry_type = classify(meta);
        let mut has_children = false;
        if entry_type == EntryType::Directory {
            match meta.dir_listing {
                Some(nonempty) => {
                    has_children = nonempty;
                },
                None => {
                    return Err(FsError::Io);
                },
            };
        }
        Ok(Entry { entry_type, name, path, has_children })
    }

    /// The classified kind.
    pub fn get_type(&self) -> (t: &EntryType)
        ensures
            *t == self@.entry_type,
    {
        &self.entry_type
    }

    /// The display name: the path's final component.
    pub fn get_name(&self) -> (r: String)
        ensures
            r@ == self@.name,
    {
        self.name.clone()
    }

    /// The absolute path of the node.
    pub fn get_path(&self) -> (r: &FsPath)
        ensures
            r@ == self@.path,
    {
        &self.path
    }

    /// The entry seen relative to its parent: just its own name, ready to
    /// be joined onto the directory it was listed in. Never actually fails.
    pub fn get_rel_path(&self) -> (r: Result<String, FsError>)
        ensures
            r matches Ok(n) && n@ == self@.name,
    {
        Ok(self.name.clone())
    }

    /// Whether the directory held at least one child when probed;
    /// always false for non-directories.
    pub fn has_children(&self) -> (r: bool)
        ensures
            r == self@.has_children,
    {
        self.has_children
    }
}

} // verus!

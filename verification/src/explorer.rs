//! The stateful directory view and its navigation.
//!
//! An `Explorer` owns one current path and the entries of that path's
//! immediate children, exactly as they were listed at the last successful
//! navigation. Navigation is transactional: when a listing cannot be read,
//! the previous `(path, entries)` pair is kept untouched and the error is
//! returned.

use vstd::prelude::*;

use crate::entry::Entry;
use crate::entry::EntryModel;
use crate::entry::NodeMeta;
use crate::entry::spec_entry_new;
use crate::errors::FsError;
use crate::fs_path::FsPath;

verus! {

/// One child of a directory, as the caller's probe saw it: its name in
/// the listing, and its metadata.
pub struct ChildMeta {
    pub name: String,
    pub meta: NodeMeta,
}

/// The mathematical value of a `ChildMeta`.
pub struct ChildModel {
    pub name: Seq<char>,
    pub meta: NodeMeta,
}

impl View for ChildMeta {
    type V = ChildModel;

    open spec fn view(&self) -> ChildModel {
        ChildModel { name: self.name@, meta: self.meta }
    }
}

impl DeepView for ChildMeta {
    type V = ChildModel;

    open spec fn deep_view(&self) -> ChildModel {
        self.view()
    }
}

/// The outcome of reading one directory: whether the listing could be
/// opened at all, and the children that could be probed, in listing
/// order. A child whose probe produced nothing at all simply does not
/// appear; a child whose probe partly failed appears with that failure
/// recorded in its `NodeMeta`.
pub struct DirListing {
    pub readable: bool,
    pub children: Vec<ChildMeta>,
}

/// The entries a directory view holds for `path` given the probed
/// children: each child in listing order, skipped when its entry cannot
/// be built (a vanished or unreadable child never aborts the view).
pub open spec fn spec_entries(path: Seq<Seq<char>>, children: Seq<ChildModel>) -> Seq<EntryModel>
    decreases children.len(),
{
    if children.len() == 0 {
        Seq::<EntryModel>::empty()
    } else {
        let rest = spec_entries(path, children.drop_last());
        match spec_entry_new(path.push(children.last().name), children.last().meta) {
            Ok(e) => rest.push(e),
            Err(_) => rest,
        }
    }
}

/// The mathematical value of an `Explorer`.
pub struct ExplorerModel {
    pub path: Seq<Seq<char>>,
    pub entries: Seq<EntryModel>,
}

/// A live view of one directory: the current path and its children's
/// entries from the last successful navigation.
pub struct Explorer {
    path: FsPath,
    entries: Vec<Entry>,
}

impl View for Explorer {
    type V = ExplorerModel;

    closed spec fn view(&self) -> ExplorerModel {
        ExplorerModel { path: self.path@, entries: self.entries.deep_view() }
    }
}

impl Explorer {
    /// Opens a view of `path` from its probed listing. An unreadable
    /// directory is a hard error; unreadable children are skipped.
    pub fn new(path: &FsPath, listing: &DirListing) -> (r: Result<Explorer, FsError>)
        ensures
            listing.readable ==> (r matches Ok(ex) && ex@.path == path@ && ex@.entries
                == spec_entries(path@, listing.children.deep_view())),
            !listing.readable ==> (r matches Err(e) && e == FsError::Io),
    {
        let entries = match Explorer::get_entries_from_path(path, listing) {
            Ok(entries) => entries,
            Err(e) => {
                return Err(e);
            },
        };
        Ok(Explorer { path: path.clone(), entries })
    }

    /// The current path.
    pub fn get_path(&self) -> (r: &FsPath)
        ensures
            r@ == self@.path,
    {
        &self.path
    }

    /// The current entries, in listing order.
    pub fn get_entries(&self) -> (r: &Vec<Entry>)
        ensures
            r.deep_view() == self@.entries,
    {
        &self.entries
    }

    /// Builds the entries of one probed listing: every child whose entry
    /// can be built, in order; the others are skipped, never surfaced.
    pub fn get_entries_from_path(path: &FsPath, listing: &DirListing) -> (r: Result<
        Vec<Entry>,
        FsError,
    >)
        ensures
            listing.readable ==> (r matches Ok(es) && es.deep_view() == spec_entries(
                path@,
                listing.children.deep_view(),
            )),
            !listing.readable ==> (r matches Err(e) && e == FsError::Io),
    {
        if !listing.readable {
            return Err(FsError::Io);
        }
        let ghost children = listing.children.deep_view();
        let mut entries: Vec<Entry> = Vec::new();
        let mut i: usize = 0;
        while i < listing.children.len()
            invariant
                i <= listing.children.len(),
                children == listing.children.deep_view(),
                entries.deep_view() == spec_entries(path@, children.take(i as int)),
            decreases listing.children.len() - i,
        {
            let child = &listing.children[i];
            let child_path = path.join(&child.name);
            proof {
                assert(children.take(i + 1).drop_last() =~= children.take(i as int));
                assert(children.take(i + 1).last() == children[i as int]);
            }
            let ghost before = entries.deep_view();
            match Entry::new(child_path, &child.meta) {
                Ok(e) => {
                    proof {
                        let cm = children[i as int];
                        assert(cm.name == child.name@);
                        assert(cm.meta == child.meta);
                        assert(spec_entry_new(path@.push(cm.name), cm.meta) == Ok::<
                            EntryModel,
                            FsError,
                        >(e@));
                        assert(spec_entries(path@, children.take(i + 1)) == before.push(e@));
                    }
                    entries.push(e);
                    proof {
                        assert(entries.deep_view() =~= before.push(e@));
                    }
                },
                Err(err) => {
                    proof {
                        let cm = children[i as int];
                        assert(spec_entry_new(path@.push(cm.name), cm.meta) == Err::<
                            EntryModel,
                            FsError,
                        >(err));
                        assert(spec_entries(path@, children.take(i + 1)) == before);
                    }
                },
            };
            i = i + 1;
        }
        proof {
            assert(children.take(listing.children@.len() as int) =~= children);
        }
        Ok(entries)
    }

    /// Refreshes the view from a new probe of the current path, keeping
    /// the path itself. On failure the old entries stay untouched.
    pub fn update_entries(&mut self, listing: &DirListing) -> (r: Result<(), FsError>)
        ensures
            listing.readable ==> (r matches Ok(u)
                && final(self)@.path == old(self)@.path
                && final(self)@.entries == spec_entries(
                    old(self)@.path,
                    listing.children.deep_view(),
                )),
            !listing.readable ==> (r matches Err(e) && e == FsError::Io
                && final(self)@ == old(self)@),
    {
        let entries = match Explorer::get_entries_from_path(&self.path, listing) {
            Ok(entries) => entries,
            Err(e) => {
                return Err(e);
            },
        };
        self.entries = entries;
        Ok(())
    }

    /// Moves the view to `path`, given that path's probed listing. When
    /// the listing is unreadable, the previous consistent `(path,
    /// entries)` pair is preserved and the error is returned.
    pub fn set_path(&mut self, path: &FsPath, listing: &DirListing) -> (r: Result<(), FsError>)
        ensures
            listing.readable ==> (r matches Ok(u)
                && final(self)@.path == path@
                && final(self)@.entries == spec_entries(path@, listing.children.deep_view())),
            !listing.readable ==> (r matches Err(e) && e == FsError::Io
                && final(self)@ == old(self)@),
    {
        let entries = match Explorer::get_entries_from_path(path, listing) {
            Ok(entries) => entries,
            Err(e) => {
                return Err(e);
            },
        };
        self.path = path.clone();
        self.entries = entries;
        Ok(())
    }

    /// Moves the view one name deeper: joins `rel` onto the current path
    /// and proceeds as `set_path`, with the same all-or-nothing outcome.
    pub fn add_path(&mut self, rel: &String, listing: &DirListing) -> (r: Result<(), FsError>)
        ensures
            listing.readable ==> (r matches Ok(u)
                && final(self)@.path == old(self)@.path.push(rel@)
                && final(self)@.entries == spec_entries(
                    old(self)@.path.push(rel@),
                    listing.children.deep_view(),
                )),
            !listing.readable ==> (r matches Err(e) && e == FsError::Io
                && final(self)@ == old(self)@),
    {
        let joined = self.path.join(rel);
        self.set_path(&joined, listing)
    }

    /// Moves the view to the parent of the current path, given the
    /// parent's probed listing. At the filesystem root this is a no-op:
    /// path and entries stay untouched and no listing is consulted. On a
    /// failed listing the previous state is preserved.
    pub fn set_to_parent(&mut self, listing: &DirListing) -> (r: Result<(), FsError>)
        ensures
            old(self)@.path.len() == 0 ==> (r matches Ok(u) && final(self)@ == old(self)@),
            old(self)@.path.len() > 0 && listing.readable ==> (r matches Ok(u) && final(self)@.path
                == old(self)@.path.drop_last() && final(self)@.entries == spec_entries(
                old(self)@.path.drop_last(),
                listing.children.deep_view(),
            )),
            old(self)@.path.len() > 0 && !listing.readable ==> (r matches Err(e) && e == FsError::Io
                && final(self)@ == old(self)@),
    {
        let parent = match self.path.parent() {
            Some(parent) => parent,
            None => {
                return Ok(());
            },
        };
        self.set_path(&parent, listing)
    }
}

/// Every entry a directory view lists sits directly below the viewed
/// path: its path is one component longer, that component is its name,
/// and dropping it gives the viewed path back.
pub proof fn lemma_entries_lie_under_path(path: Seq<Seq<char>>, children: Seq<ChildModel>)
    ensures
        forall|k: int|
            0 <= k < spec_entries(path, children).len() ==> {
                let e = #[trigger] spec_entries(path, children)[k];
                e.path.len() == path.len() + 1 && e.path.drop_last() == path && e.path.last()
                    == e.name
            },
    decreases children.len(),
{
    if children.len() > 0 {
        lemma_entries_lie_under_path(path, children.drop_last());
        let c = children.last();
        match spec_entry_new(path.push(c.name), c.meta) {
            Ok(e) => {
                assert(e.path.drop_last() =~= path);
            },
            Err(_) => {},
        }
    }
}

/// Navigating from a directory view into one of its listed entries by
/// the entry's relative path lands exactly on that entry's own path; a
/// fresh view opened at that path from the same listing therefore shows
/// the same entries.
pub proof fn lemma_add_path_matches_fresh_view(
    path: Seq<Seq<char>>,
    children: Seq<ChildModel>,
    k: int,
    sub: Seq<ChildModel>,
)
    requires
        0 <= k < spec_entries(path, children).len(),
    ensures
        path.push(spec_entries(path, children)[k].name) == spec_entries(path, children)[k].path,
        spec_entries(path.push(spec_entries(path, children)[k].name), sub) == spec_entries(
            spec_entries(path, children)[k].path,
            sub,
        ),
{
    lemma_entries_lie_under_path(path, children);
    let e = spec_entries(path, children)[k];
    assert(path.push(e.name) =~= e.path);
}

} // verus!

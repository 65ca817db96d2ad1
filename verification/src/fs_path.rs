//! An owned, always-canonical absolute path.
//!
//! A path is a sequence of nonempty name components below the filesystem
//! root; the root itself is the empty sequence. Because a value of this type
//! never holds `.` or `..` segments, taking the parent is simply dropping
//! the last component, and repeated parent steps can never accumulate junk.

use vstd::prelude::*;

verus! {

/// The absolute path `/c_0/c_1/.../c_n`, stored as its components.
pub struct FsPath {
    components: Vec<String>,
}

impl View for FsPath {
    type V = Seq<Seq<char>>;

    closed spec fn view(&self) -> Seq<Seq<char>> {
        self.components.deep_view()
    }
}

impl DeepView for FsPath {
    type V = Seq<Seq<char>>;

    open spec fn deep_view(&self) -> Seq<Seq<char>> {
        self.view()
    }
}

/// The textual rendering of a path: `/` before every component, so the
/// root renders as the empty text.
pub open spec fn spec_path_text(s: Seq<Seq<char>>) -> Seq<char>
    decreases s.len(),
{
    if s.len() == 0 {
        Seq::<char>::empty()
    } else {
        spec_path_text(s.drop_last()) + seq!['/'] + s.last()
    }
}

impl Clone for FsPath {
    fn clone(&self) -> (r: Self)
        ensures
            r@ == self@,
    {
        let mut components: Vec<String> = Vec::new();
        let mut i: usize = 0;
        while i < self.components.len()
            invariant
                i <= self.components.len(),
                components@ == self.components@.take(i as int),
            decreases self.components.len() - i,
        {
            components.push(self.components[i].clone());
            proof {
                assert(components@ =~= self.components@.take(i + 1));
            }
            i = i + 1;
        }
        proof {
            assert(components@ =~= self.components@);
            assert(components.deep_view() =~= self.components.deep_view());
        }
        FsPath { components }
    }
}

impl FsPath {
    /// The filesystem root: no components at all.
    pub fn root() -> (r: Self)
        ensures
            r@ == Seq::<Seq<char>>::empty(),
    {
        let components: Vec<String> = Vec::new();
        proof {
            assert(components.deep_view() =~= Seq::<Seq<char>>::empty());
        }
        FsPath { components }
    }

    /// Builds a path directly from its components.
    pub fn from_components(components: Vec<String>) -> (r: Self)
        ensures
            r@ == components.deep_view(),
    {
        FsPath { components }
    }

    /// Read access to the components.
    pub fn components(&self) -> (r: &Vec<String>)
        ensures
            r.deep_view() == self@,
    {
        &self.components
    }

    /// How many components below the root this path has.
    pub fn depth(&self) -> (r: usize)
        ensures
            r == self@.len(),
    {
        self.components.len()
    }

    /// Whether this path is the filesystem root.
    pub fn is_root(&self) -> (r: bool)
        ensures
            r == (self@.len() == 0),
    {
        self.components.len() == 0
    }

    /// The path extended by one more component.
    pub fn join(&self, name: &String) -> (r: Self)
        ensures
            r@ == self@.push(name@),
    {
        let mut joined = self.clone();
        joined.components.push(name.clone());
        proof {
            assert(joined.components.deep_view() =~= self@.push(name@));
        }
        joined
    }

    /// The parent path, or `None` at the root.
    pub fn parent(&self) -> (r: Option<Self>)
        ensures
            self@.len() == 0 ==> r is None,
            self@.len() > 0 ==> (r matches Some(p) && p@ == self@.drop_last()),
    {
        if self.components.len() == 0 {
            None
        } else {
            let mut p = self.clone();
            p.components.pop();
            proof {
                assert(p.components.deep_view() =~= self@.drop_last());
            }
            Some(p)
        }
    }

    /// The final component, or `None` at the root.
    pub fn file_name(&self) -> (r: Option<String>)
        ensures
            self@.len() == 0 ==> r is None,
            self@.len() > 0 ==> (r matches Some(n) && n@ == self@.last()),
    {
        if self.components.len() == 0 {
            None
        } else {
            Some(self.components[self.components.len() - 1].clone())
        }
    }

    /// Renders the path as text, a `/` before every component.
    pub fn to_text(&self) -> (r: String)
        ensures
            r@ == spec_path_text(self@),
    {
        let mut out = String::new();
        let mut i: usize = 0;
        while i < self.components.len()
            invariant
                i <= self.components.len(),
                out@ == spec_path_text(self@.take(i as int)),
            decreases self.components.len() - i,
        {
            out.append("/");
            out.append(self.components[i].as_str());
            proof {
                assert(self@.take(i + 1).drop_last() =~= self@.take(i as int));
                assert(self@.take(i + 1).last() == self@[i as int]);
                reveal_strlit("/");
                assert(out@ =~= spec_path_text(self@.take(i + 1)));
            }
            i = i + 1;
        }
        proof {
            assert(self@.take(self@.len() as int) =~= self@);
        }
        out
    }
}

} // verus!

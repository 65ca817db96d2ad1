//! The full-subtree walker and its three category listings.
//!
//! Given a snapshot of a whole subtree, the `Indexer` visits every node
//! depth-first and partitions the entries it can build into directories,
//! files and links. A node whose entry cannot be built — gone by the time
//! it was probed, or a directory whose own listing failed — is skipped
//! together with everything below it; a failure to read the root listing
//! itself aborts the pass.

use vstd::prelude::*;

use crate::entry::Entry;
use crate::entry::EntryModel;
use crate::entry::EntryType;
use crate::entry::NodeMeta;
use crate::entry::spec_entry_new;
use crate::errors::FsError;
use crate::fs_path::FsPath;

verus! {

/// One node of a subtree snapshot: its name in its parent's listing, its
/// probed metadata, and the subtrees of the children that could be
/// probed, in listing order. Only a directory whose listing was read has
/// children here.
pub struct FsNode {
    pub name: String,
    pub meta: NodeMeta,
    pub children: Vec<FsNode>,
}

/// A probed subtree: whether the root's own listing could be read, and
/// the root's children as probed, in listing order.
pub struct TreeSnapshot {
    pub readable: bool,
    pub children: Vec<FsNode>,
}

/// The depth-first entry sequence of a sibling row: each node's subtree
/// in turn, in listing order.
pub open spec fn spec_walk_nodes(path: Seq<Seq<char>>, nodes: Seq<FsNode>) -> Seq<EntryModel>
    decreases nodes,
{
    if nodes.len() == 0 {
        Seq::<EntryModel>::empty()
    } else {
        spec_walk_nodes(path, nodes.subrange(0, nodes.len() - 1)) + spec_walk_node(
            path,
            nodes[nodes.len() - 1],
        )
    }
}

/// The depth-first entry sequence of one node's subtree under `path`:
/// nothing when its entry cannot be built; the entry alone for a
/// non-directory; the entry followed by its children's subtrees for a
/// directory.
pub open spec fn spec_walk_node(path: Seq<Seq<char>>, node: FsNode) -> Seq<EntryModel>
    decreases node,
{
    let p = path.push(node.name@);
    match spec_entry_new(p, node.meta) {
        Err(_) => Seq::<EntryModel>::empty(),
        Ok(e) => {
            if e.entry_type == EntryType::Directory {
                seq![e] + spec_walk_nodes(p, node.children@)
            } else {
                seq![e]
            }
        },
    }
}

/// The directories of an entry sequence, in order.
pub open spec fn spec_dirs_of(s: Seq<EntryModel>) -> Seq<EntryModel> {
    s.filter(|e: EntryModel| e.entry_type == EntryType::Directory)
}

/// The regular files of an entry sequence, in order.
pub open spec fn spec_files_of(s: Seq<EntryModel>) -> Seq<EntryModel> {
    s.filter(|e: EntryModel| e.entry_type == EntryType::File)
}

/// The symbolic links of an entry sequence, in order.
pub open spec fn spec_links_of(s: Seq<EntryModel>) -> Seq<EntryModel> {
    s.filter(|e: EntryModel| e.entry_type == EntryType::Link)
}

/// Appends one node's depth-first subtree entries to `out`.
fn walk_node_into(path: &FsPath, node: &FsNode, out: &mut Vec<Entry>)
    ensures
        final(out).deep_view() == old(out).deep_view() + spec_walk_node(path@, *node),
    decreases *node,
{
    let node_path = path.join(&node.name);
    let e = match Entry::new(node_path.clone(), &node.meta) {
        Ok(e) => e,
        Err(_) => {
            proof {
                assert(out.deep_view() =~= out.deep_view() + spec_walk_node(path@, *node));
            }
            return ;
        },
    };
    let is_dir = *e.get_type() == EntryType::Directory;
    let ghost e_model = e@;
    let ghost base = out.deep_view();
    out.push(e);
    proof {
        assert(out.deep_view() =~= base + seq![e_model]);
    }
    if is_dir {
        let mut i: usize = 0;
        while i < node.children.len()
            invariant
                i <= node.children.len(),
                out.deep_view() == base + seq![e_model] + spec_walk_nodes(
                    node_path@,
                    node.children@.take(i as int),
                ),
            decreases node.children.len() - i,
        {
            walk_node_into(&node_path, &node.children[i], out);
            proof {
                assert(node.children@.take(i + 1).subrange(0, i as int) =~= node.children@.take(
                    i as int,
                ));
                assert(node.children@.take(i + 1)[i as int] == node.children@[i as int]);
                assert(out.deep_view() =~= base + seq![e_model] + spec_walk_nodes(
                    node_path@,
                    node.children@.take(i + 1),
                ));
            }
            i = i + 1;
        }
        proof {
            assert(node.children@.take(node.children@.len() as int) =~= node.children@);
            assert(out.deep_view() =~= base + spec_walk_node(path@, *node));
        }
    } else {
        proof {
            assert(out.deep_view() =~= base + spec_walk_node(path@, *node));
        }
    }
}

/// Splits an entry sequence into its directories, files and links, each
/// in the original order; unknown-typed entries land in none of them.
fn partition_entries(all: &Vec<Entry>) -> (r: (Vec<Entry>, Vec<Entry>, Vec<Entry>))
    ensures
        r.0.deep_view() == spec_dirs_of(all.deep_view()),
        r.1.deep_view() == spec_files_of(all.deep_view()),
        r.2.deep_view() == spec_links_of(all.deep_view()),
{
    let ghost s = all.deep_view();
    let mut dirs: Vec<Entry> = Vec::new();
    let mut files: Vec<Entry> = Vec::new();
    let mut links: Vec<Entry> = Vec::new();
    let mut i: usize = 0;
    proof {
        reveal(Seq::filter);
        assert(s.take(0int) =~= Seq::<EntryModel>::empty());
        assert(dirs.deep_view() =~= spec_dirs_of(s.take(0int)));
        assert(files.deep_view() =~= spec_files_of(s.take(0int)));
        assert(links.deep_view() =~= spec_links_of(s.take(0int)));
    }
    while i < all.len()
        invariant
            i <= all.len(),
            s == all.deep_view(),
            dirs.deep_view() == spec_dirs_of(s.take(i as int)),
            files.deep_view() == spec_files_of(s.take(i as int)),
            links.deep_view() == spec_links_of(s.take(i as int)),
        decreases all.len() - i,
    {
        let e = all[i].clone();
        proof {
            assert(s.take(i + 1).drop_last() =~= s.take(i as int));
            assert(s.take(i + 1).last() == s[i as int]);
        }
        match *e.get_type() {
            EntryType::Directory => {
                dirs.push(e);
                proof {
                    reveal(Seq::filter);
                    assert(dirs.deep_view() =~= spec_dirs_of(s.take(i + 1)));
                    assert(files.deep_view() =~= spec_files_of(s.take(i + 1)));
                    assert(links.deep_view() =~= spec_links_of(s.take(i + 1)));
                }
            },
            EntryType::File => {
                files.push(e);
                proof {
                    reveal(Seq::filter);
                    assert(dirs.deep_view() =~= spec_dirs_of(s.take(i + 1)));
                    assert(files.deep_view() =~= spec_files_of(s.take(i + 1)));
                    assert(links.deep_view() =~= spec_links_of(s.take(i + 1)));
                }
            },
            EntryType::Link => {
                links.push(e);
                proof {
                    reveal(Seq::filter);
                    assert(dirs.deep_view() =~= spec_dirs_of(s.take(i + 1)));
                    assert(files.deep_view() =~= spec_files_of(s.take(i + 1)));
                    assert(links.deep_view() =~= spec_links_of(s.take(i + 1)));
                }
            },
            EntryType::Unknown => {
                proof {
                    reveal(Seq::filter);
                    assert(dirs.deep_view() =~= spec_dirs_of(s.take(i + 1)));
                    assert(files.deep_view() =~= spec_files_of(s.take(i + 1)));
                    assert(links.deep_view() =~= spec_links_of(s.take(i + 1)));
                }
            },
        };
        i = i + 1;
    }
    proof {
        assert(s.take(all@.len() as int) =~= s);
    }
    (dirs, files, links)
}

/// A stateless subtree walker, constructed with the root it reports on.
pub struct Indexer {
    root: FsPath,
}

impl View for Indexer {
    type V = Seq<Seq<char>>;

    closed spec fn view(&self) -> Seq<Seq<char>> {
        self.root@
    }
}

impl Indexer {
    /// An indexer for the subtree below `root`.
    pub fn new(root: &FsPath) -> (r: Self)
        ensures
            r@ == root@,
    {
        Indexer { root: root.clone() }
    }

    /// The root this indexer walks below.
    pub fn get_root(&self) -> (r: &FsPath)
        ensures
            r@ == self@,
    {
        &self.root
    }

    /// One depth-first pass over the snapshot, yielding the directories,
    /// files and links below the root, each list in walk order. An
    /// unreadable root listing aborts the pass; anything else unreadable
    /// was already skipped when the snapshot was probed or is skipped
    /// here with its subtree.
    pub fn index_all(&self, snap: &TreeSnapshot) -> (r: Result<
        (Vec<Entry>, Vec<Entry>, Vec<Entry>),
        FsError,
    >)
        ensures
            snap.readable ==> (r matches Ok(t) && t.0.deep_view() == spec_dirs_of(
                spec_walk_nodes(self@, snap.children@),
            ) && t.1.deep_view() == spec_files_of(spec_walk_nodes(self@, snap.children@))
                && t.2.deep_view() == spec_links_of(spec_walk_nodes(self@, snap.children@))),
            !snap.readable ==> (r matches Err(e) && e == FsError::Io),
    {
        if !snap.readable {
            return Err(FsError::Io);
        }
        let mut all: Vec<Entry> = Vec::new();
        let mut i: usize = 0;
        proof {
            assert(all.deep_view() =~= spec_walk_nodes(self@, snap.children@.take(0int)));
        }
        while i < snap.children.len()
            invariant
                i <= snap.children.len(),
                all.deep_view() == spec_walk_nodes(self@, snap.children@.take(i as int)),
            decreases snap.children.len() - i,
        {
            walk_node_into(&self.root, &snap.children[i], &mut all);
            proof {
                assert(snap.children@.take(i + 1).subrange(0, i as int) =~= snap.children@.take(
                    i as int,
                ));
                assert(snap.children@.take(i + 1)[i as int] == snap.children@[i as int]);
                assert(all.deep_view() =~= spec_walk_nodes(self@, snap.children@.take(i + 1)));
            }
            i = i + 1;
        }
        proof {
            assert(snap.children@.take(snap.children@.len() as int) =~= snap.children@);
        }
        Ok(partition_entries(&all))
    }

    /// All directories below the root, in depth-first walk order.
    pub fn index_directories(&self, snap: &TreeSnapshot) -> (r: Result<Vec<Entry>, FsError>)
        ensures
            snap.readable ==> (r matches Ok(v) && v.deep_view() == spec_dirs_of(
                spec_walk_nodes(self@, snap.children@),
            )),
            !snap.readable ==> (r matches Err(e) && e == FsError::Io),
    {
        match self.index_all(snap) {
            Ok(t) => Ok(t.0),
            Err(e) => Err(e),
        }
    }

    /// All regular files below the root, in depth-first walk order.
    pub fn index_files(&self, snap: &TreeSnapshot) -> (r: Result<Vec<Entry>, FsError>)
        ensures
            snap.readable ==> (r matches Ok(v) && v.deep_view() == spec_files_of(
                spec_walk_nodes(self@, snap.children@),
            )),
            !snap.readable ==> (r matches Err(e) && e == FsError::Io),
    {
        match self.index_all(snap) {
            Ok(t) => Ok(t.1),
            Err(e) => Err(e),
        }
    }

    /// All symbolic links below the root, in depth-first walk order.
    pub fn index_links(&self, snap: &TreeSnapshot) -> (r: Result<Vec<Entry>, FsError>)
        ensures
            snap.readable ==> (r matches Ok(v) && v.deep_view() == spec_links_of(
                spec_walk_nodes(self@, snap.children@),
            )),
            !snap.readable ==> (r matches Err(e) && e == FsError::Io),
    {
        match self.index_all(snap) {
            Ok(t) => Ok(t.2),
            Err(e) => Err(e),
        }
    }
}

/// Whether no two siblings in a row share a name, as a real directory
/// listing guarantees.
pub open spec fn distinct_names(nodes: Seq<FsNode>) -> bool {
    forall|i: int, j: int|
        0 <= i < j < nodes.len() ==> nodes[i].name@ != nodes[j].name@
}

/// A snapshot is well formed when sibling names are unique at every
/// level of it.
pub open spec fn wf_nodes(nodes: Seq<FsNode>) -> bool
    decreases nodes,
{
    distinct_names(nodes) && (forall|i: int|
        0 <= i < nodes.len() ==> wf_node(#[trigger] nodes[i]))
}

/// Well-formedness of one subtree: unique sibling names below it.
pub open spec fn wf_node(node: FsNode) -> bool
    decreases node,
{
    wf_nodes(node.children@)
}

/// An entry appears in a filtered listing exactly when the sequence
/// holds it and it satisfies the predicate.
proof fn lemma_filter_membership(s: Seq<EntryModel>, pred: spec_fn(EntryModel) -> bool)
    ensures
        forall|e: EntryModel| #[trigger]
            s.filter(pred).contains(e) <==> (s.contains(e) && pred(e)),
    decreases s.len(),
{
    reveal(Seq::filter);
    if s.len() > 0 {
        let sub = s.drop_last();
        lemma_filter_membership(sub, pred);
        let f = s.filter(pred);
        let fsub = sub.filter(pred);
        assert forall|e: EntryModel| #[trigger] f.contains(e) implies (s.contains(e) && pred(
            e,
        )) by {
            let i = choose|i: int| 0 <= i < f.len() && f[i] == e;
            if pred(s.last()) && i == f.len() - 1 {
                assert(s[s.len() - 1] == e);
            } else {
                assert(fsub[i] == e);
                assert(fsub.contains(e));
                let j = choose|j: int| 0 <= j < sub.len() && sub[j] == e;
                assert(s[j] == e);
            }
        }
        assert forall|e: EntryModel| s.contains(e) && pred(e) implies #[trigger] f.contains(e) by {
            let i = choose|i: int| 0 <= i < s.len() && s[i] == e;
            if i < s.len() - 1 {
                assert(sub[i] == e);
                assert(sub.contains(e));
                assert(fsub.contains(e));
                let j = choose|j: int| 0 <= j < fsub.len() && fsub[j] == e;
                assert(f[j] == e);
            } else {
                assert(f[f.len() - 1] == e);
            }
        }
    }
}

/// Filtering keeps a duplicate-free sequence duplicate-free.
proof fn lemma_filter_no_dup(s: Seq<EntryModel>, pred: spec_fn(EntryModel) -> bool)
    requires
        s.no_duplicates(),
    ensures
        s.filter(pred).no_duplicates(),
    decreases s.len(),
{
    reveal(Seq::filter);
    if s.len() > 0 {
        let sub = s.drop_last();
        assert(sub.no_duplicates());
        lemma_filter_no_dup(sub, pred);
        lemma_filter_membership(sub, pred);
        let fsub = sub.filter(pred);
        if pred(s.last()) {
            let f = fsub.push(s.last());
            assert forall|i: int, j: int|
                0 <= i < f.len() && 0 <= j < f.len() && i != j implies f[i] != f[j] by {
                if i == f.len() - 1 || j == f.len() - 1 {
                    let k = if i == f.len() - 1 { j } else { i };
                    if f[k] == s.last() {
                        assert(fsub[k] == s.last());
                        assert(fsub.contains(s.last()));
                        let t = choose|t: int| 0 <= t < sub.len() && sub[t] == s.last();
                        assert(s[t] == s[s.len() - 1]);
                        assert(false);
                    }
                }
            }
        }
    }
}

/// Every entry walked below one node extends that node's own path: it
/// is strictly deeper than `path`, agrees with `path` on the first
/// components, and carries the node's name right after them. Under a
/// well-formed snapshot the walk never yields the same entry twice.
proof fn lemma_walk_node_sound(path: Seq<Seq<char>>, node: FsNode)
    requires
        wf_node(node),
    ensures
        forall|k: int|
            0 <= k < spec_walk_node(path, node).len() ==> {
                let e = #[trigger] spec_walk_node(path, node)[k];
                e.path.len() > path.len() && e.path.take(path.len() as int) == path && e.path[path.len() as int]
                    == node.name@
            },
        spec_walk_node(path, node).no_duplicates(),
    decreases node,
{
    let p = path.push(node.name@);
    assert(p.take(path.len() as int) =~= path);
    match spec_entry_new(p, node.meta) {
        Err(_) => {},
        Ok(e0) => {
            if e0.entry_type == EntryType::Directory {
                lemma_walk_nodes_sound(p, node.children@);
                let rest = spec_walk_nodes(p, node.children@);
                let w = seq![e0] + rest;
                assert forall|k: int| 0 <= k < w.len() implies {
                    let e = #[trigger] w[k];
                    e.path.len() > path.len() && e.path.take(path.len() as int) == path && e.path[path.len() as int]
                        == node.name@
                } by {
                    if k == 0 {
                        assert(w[0] == e0);
                    } else {
                        let e = w[k];
                        assert(e == rest[k - 1]);
                        assert(e.path.take(p.len() as int) == p);
                        assert(e.path.take(path.len() as int) =~= path);
                        assert(e.path[path.len() as int] == e.path.take(p.len() as int)[path.len() as int]);
                    }
                }
                assert forall|i: int, j: int|
                    0 <= i < seq![e0].len() && 0 <= j < rest.len() implies seq![e0][i] != rest[j] by {
                    assert(rest[j].path.len() > p.len());
                    assert(e0.path.len() == p.len());
                }
                vstd::seq_lib::lemma_no_dup_in_concat(seq![e0], rest);
            }
        },
    }
}

/// The sibling-row form of the walk soundness above: every walked entry
/// lies strictly below `path` and starts with the name of one of the
/// row's nodes; under unique sibling names the row's walk is
/// duplicate-free.
proof fn lemma_walk_nodes_sound(path: Seq<Seq<char>>, nodes: Seq<FsNode>)
    requires
        wf_nodes(nodes),
    ensures
        forall|k: int|
            0 <= k < spec_walk_nodes(path, nodes).len() ==> {
                let e = #[trigger] spec_walk_nodes(path, nodes)[k];
                e.path.len() > path.len() && e.path.take(path.len() as int) == path && exists|t: int|
                    0 <= t < nodes.len() && e.path[path.len() as int] == nodes[t].name@
            },
        spec_walk_nodes(path, nodes).no_duplicates(),
    decreases nodes,
{
    if nodes.len() > 0 {
        let m = nodes.len() - 1;
        let sub = nodes.subrange(0, m);
        let lastn = nodes[m];
        assert(wf_nodes(sub)) by {
            assert(forall|i: int| 0 <= i < sub.len() ==> #[trigger] sub[i] == nodes[i]);
        }
        assert(wf_node(lastn));
        lemma_walk_nodes_sound(path, sub);
        lemma_walk_node_sound(path, lastn);
        let a = spec_walk_nodes(path, sub);
        let b = spec_walk_node(path, lastn);
        let w = a + b;
        assert forall|k: int| 0 <= k < w.len() implies {
            let e = #[trigger] w[k];
            e.path.len() > path.len() && e.path.take(path.len() as int) == path && exists|t: int|
                0 <= t < nodes.len() && e.path[path.len() as int] == nodes[t].name@
        } by {
            if k < a.len() {
                let e = a[k];
                assert(w[k] == e);
                let t = choose|t: int| 0 <= t < sub.len() && e.path[path.len() as int] == sub[t].name@;
                assert(nodes[t] == sub[t]);
            } else {
                let e = b[k - a.len()];
                assert(w[k] == e);
                assert(e.path[path.len() as int] == nodes[m].name@);
            }
        }
        assert forall|i: int, j: int| 0 <= i < a.len() && 0 <= j < b.len() implies a[i] != b[j] by {
            let t = choose|t: int| 0 <= t < sub.len() && a[i].path[path.len() as int] == sub[t].name@;
            assert(nodes[t].name@ != nodes[m].name@);
            assert(b[j].path[path.len() as int] == nodes[m].name@);
        }
        vstd::seq_lib::lemma_no_dup_in_concat(a, b);
    }
}

/// The partition law of one index pass: the three listings hold only
/// entries of their own kind, and together they hold exactly the
/// entries the depth-first walk of the snapshot yields, apart from
/// unknown-typed ones, which land in none of them.
pub proof fn lemma_index_partitions_walk(root: Seq<Seq<char>>, nodes: Seq<FsNode>)
    ensures
        forall|e: EntryModel| #[trigger]
            spec_dirs_of(spec_walk_nodes(root, nodes)).contains(e) <==> (spec_walk_nodes(
                root,
                nodes,
            ).contains(e) && e.entry_type == EntryType::Directory),
        forall|e: EntryModel| #[trigger]
            spec_files_of(spec_walk_nodes(root, nodes)).contains(e) <==> (spec_walk_nodes(
                root,
                nodes,
            ).contains(e) && e.entry_type == EntryType::File),
        forall|e: EntryModel| #[trigger]
            spec_links_of(spec_walk_nodes(root, nodes)).contains(e) <==> (spec_walk_nodes(
                root,
                nodes,
            ).contains(e) && e.entry_type == EntryType::Link),
        forall|e: EntryModel|
            (spec_dirs_of(spec_walk_nodes(root, nodes)).contains(e) || spec_files_of(
                spec_walk_nodes(root, nodes),
            ).contains(e) || spec_links_of(spec_walk_nodes(root, nodes)).contains(e)) <==> (
            #[trigger] spec_walk_nodes(root, nodes).contains(e) && e.entry_type
                != EntryType::Unknown),
{
    let w = spec_walk_nodes(root, nodes);
    lemma_filter_membership(w, |e: EntryModel| e.entry_type == EntryType::Directory);
    lemma_filter_membership(w, |e: EntryModel| e.entry_type == EntryType::File);
    lemma_filter_membership(w, |e: EntryModel| e.entry_type == EntryType::Link);
}

/// Exactly-once law: under a snapshot with unique sibling names at
/// every level, the walk yields each entry at most once, and so does
/// each of the three listings.
pub proof fn lemma_index_exactly_once(root: Seq<Seq<char>>, nodes: Seq<FsNode>)
    requires
        wf_nodes(nodes),
    ensures
        spec_walk_nodes(root, nodes).no_duplicates(),
        spec_dirs_of(spec_walk_nodes(root, nodes)).no_duplicates(),
        spec_files_of(spec_walk_nodes(root, nodes)).no_duplicates(),
        spec_links_of(spec_walk_nodes(root, nodes)).no_duplicates(),
{
    let w = spec_walk_nodes(root, nodes);
    lemma_walk_nodes_sound(root, nodes);
    lemma_filter_no_dup(w, |e: EntryModel| e.entry_type == EntryType::Directory);
    lemma_filter_no_dup(w, |e: EntryModel| e.entry_type == EntryType::File);
    lemma_filter_no_dup(w, |e: EntryModel| e.entry_type == EntryType::Link);
}

/// Indexing is a pure function of the root and the snapshot: two
/// passes over the same unchanged tree report identical listings,
/// element for element and in order.
pub proof fn lemma_index_idempotent(
    root: Seq<Seq<char>>,
    nodes: Seq<FsNode>,
    first: (Seq<EntryModel>, Seq<EntryModel>, Seq<EntryModel>),
    second: (Seq<EntryModel>, Seq<EntryModel>, Seq<EntryModel>),
)
    requires
        first.0 == spec_dirs_of(spec_walk_nodes(root, nodes)),
        first.1 == spec_files_of(spec_walk_nodes(root, nodes)),
        first.2 == spec_links_of(spec_walk_nodes(root, nodes)),
        second.0 == spec_dirs_of(spec_walk_nodes(root, nodes)),
        second.1 == spec_files_of(spec_walk_nodes(root, nodes)),
        second.2 == spec_links_of(spec_walk_nodes(root, nodes)),
    ensures
        first == second,
{
}

} // verus!

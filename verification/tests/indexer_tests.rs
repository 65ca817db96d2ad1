use fexplorer::entry::{Entry, EntryType, NodeMeta};
use fexplorer::errors::FsError;
use fexplorer::explorer::{ChildMeta, DirListing, Explorer};
use fexplorer::fs_path::FsPath;
use fexplorer::indexer::{FsNode, Indexer, TreeSnapshot};

fn path_from(s: &str) -> FsPath {
    let comps: Vec<String> = s
        .split('/')
        .filter(|c| !c.is_empty())
        .map(|c| c.to_string())
        .collect();
    FsPath::from_components(comps)
}

fn dir_meta(listing_nonempty: bool) -> NodeMeta {
    NodeMeta {
        exists: Some(true),
        is_dir: true,
        is_file: false,
        is_symlink: false,
        dir_listing: Some(listing_nonempty),
    }
}

fn file_meta() -> NodeMeta {
    NodeMeta {
        exists: Some(true),
        is_dir: false,
        is_file: true,
        is_symlink: false,
        dir_listing: None,
    }
}

fn link_meta() -> NodeMeta {
    NodeMeta {
        exists: Some(true),
        is_dir: false,
        is_file: false,
        is_symlink: true,
        dir_listing: None,
    }
}

fn leaf(name: &str, meta: NodeMeta) -> FsNode {
    FsNode {
        name: name.to_string(),
        meta,
        children: Vec::new(),
    }
}

fn dir(name: &str, children: Vec<FsNode>) -> FsNode {
    FsNode {
        name: name.to_string(),
        meta: dir_meta(!children.is_empty()),
        children,
    }
}

fn snapshot(children: Vec<FsNode>) -> TreeSnapshot {
    TreeSnapshot {
        readable: true,
        children,
    }
}

fn paths_of(entries: &[Entry]) -> Vec<String> {
    entries.iter().map(|e| e.get_path().to_text()).collect()
}

/// A root holding an empty directory and one file, as the smallest
/// mixed-content scenario.
fn small_tree() -> TreeSnapshot {
    snapshot(vec![dir("a", vec![]), leaf("b.txt", file_meta())])
}

#[test]
fn small_scenario_explorer_and_indexer_agree() {
    let listing = DirListing {
        readable: true,
        children: vec![
            ChildMeta {
                name: "a".to_string(),
                meta: dir_meta(false),
            },
            ChildMeta {
                name: "b.txt".to_string(),
                meta: file_meta(),
            },
        ],
    };
    let explorer = Explorer::new(&path_from("/tmp/t"), &listing).unwrap();
    let entries = explorer.get_entries();
    assert_eq!(entries.len(), 2);
    assert_eq!(*entries[0].get_type(), EntryType::Directory);
    assert_eq!(entries[0].get_name(), "a");
    assert!(!entries[0].has_children());
    assert_eq!(*entries[1].get_type(), EntryType::File);
    assert_eq!(entries[1].get_name(), "b.txt");

    let indexer = Indexer::new(&path_from("/tmp/t"));
    let dirs = indexer.index_directories(&small_tree()).unwrap();
    assert_eq!(paths_of(&dirs), vec!["/tmp/t/a".to_string()]);
    let files = indexer.index_files(&small_tree()).unwrap();
    assert_eq!(paths_of(&files), vec!["/tmp/t/b.txt".to_string()]);
    let links = indexer.index_links(&small_tree()).unwrap();
    assert!(links.is_empty());
}

#[test]
fn depth_first_walk_collects_the_whole_subtree() {
    let tree = snapshot(vec![
        dir(
            "a",
            vec![
                leaf("x.txt", file_meta()),
                dir("b", vec![leaf("deep", link_meta())]),
            ],
        ),
        leaf("top.txt", file_meta()),
    ]);
    let indexer = Indexer::new(&path_from("/root"));
    let (dirs, files, links) = indexer.index_all(&tree).unwrap();
    assert_eq!(
        paths_of(&dirs),
        vec!["/root/a".to_string(), "/root/a/b".to_string()]
    );
    assert_eq!(
        paths_of(&files),
        vec!["/root/a/x.txt".to_string(), "/root/top.txt".to_string()]
    );
    assert_eq!(paths_of(&links), vec!["/root/a/b/deep".to_string()]);
}

#[test]
fn unreadable_root_aborts_the_pass() {
    let tree = TreeSnapshot {
        readable: false,
        children: Vec::new(),
    };
    let indexer = Indexer::new(&path_from("/root"));
    assert!(matches!(indexer.index_all(&tree), Err(FsError::Io)));
    assert!(matches!(indexer.index_directories(&tree), Err(FsError::Io)));
    assert!(matches!(indexer.index_files(&tree), Err(FsError::Io)));
    assert!(matches!(indexer.index_links(&tree), Err(FsError::Io)));
}

#[test]
fn unreadable_subtree_is_skipped_whole() {
    let locked = FsNode {
        name: "locked".to_string(),
        meta: NodeMeta {
            exists: Some(true),
            is_dir: true,
            is_file: false,
            is_symlink: false,
            dir_listing: None,
        },
        // anything probed below an unreadable directory stays invisible
        children: vec![leaf("hidden.txt", file_meta())],
    };
    let tree = snapshot(vec![locked, leaf("seen.txt", file_meta())]);
    let indexer = Indexer::new(&path_from("/root"));
    let (dirs, files, links) = indexer.index_all(&tree).unwrap();
    assert!(dirs.is_empty());
    assert_eq!(paths_of(&files), vec!["/root/seen.txt".to_string()]);
    assert!(links.is_empty());
}

#[test]
fn unknown_nodes_land_in_no_listing() {
    let odd = NodeMeta {
        exists: Some(true),
        is_dir: false,
        is_file: false,
        is_symlink: false,
        dir_listing: None,
    };
    let tree = snapshot(vec![leaf("socket", odd), leaf("plain.txt", file_meta())]);
    let indexer = Indexer::new(&path_from("/root"));
    let (dirs, files, links) = indexer.index_all(&tree).unwrap();
    assert!(dirs.is_empty());
    assert_eq!(paths_of(&files), vec!["/root/plain.txt".to_string()]);
    assert!(links.is_empty());
}

#[test]
fn union_of_listings_covers_each_descendant_once() {
    let tree = snapshot(vec![
        dir(
            "a",
            vec![leaf("f1.txt", file_meta()), leaf("l1", link_meta())],
        ),
        dir("b", vec![dir("c", vec![])]),
        leaf("f2.txt", file_meta()),
    ]);
    let indexer = Indexer::new(&path_from("/r"));
    let (dirs, files, links) = indexer.index_all(&tree).unwrap();
    for d in &dirs {
        assert_eq!(*d.get_type(), EntryType::Directory);
    }
    for f in &files {
        assert_eq!(*f.get_type(), EntryType::File);
    }
    for l in &links {
        assert_eq!(*l.get_type(), EntryType::Link);
    }
    let mut all = paths_of(&dirs);
    all.extend(paths_of(&files));
    all.extend(paths_of(&links));
    all.sort();
    let mut expected: Vec<String> = vec![
        "/r/a", "/r/a/f1.txt", "/r/a/l1", "/r/b", "/r/b/c", "/r/f2.txt",
    ]
    .into_iter()
    .map(|s| s.to_string())
    .collect();
    expected.sort();
    assert_eq!(all, expected);
}

#[test]
fn indexing_twice_gives_identical_results() {
    let tree = snapshot(vec![
        dir("a", vec![leaf("x.txt", file_meta())]),
        leaf("l", link_meta()),
    ]);
    let indexer = Indexer::new(&path_from("/r"));
    let first = indexer.index_all(&tree).unwrap();
    let second = indexer.index_all(&tree).unwrap();
    assert_eq!(paths_of(&first.0), paths_of(&second.0));
    assert_eq!(paths_of(&first.1), paths_of(&second.1));
    assert_eq!(paths_of(&first.2), paths_of(&second.2));
    assert_eq!(
        paths_of(&indexer.index_directories(&tree).unwrap()),
        paths_of(&first.0)
    );
    assert_eq!(
        paths_of(&indexer.index_files(&tree).unwrap()),
        paths_of(&first.1)
    );
    assert_eq!(
        paths_of(&indexer.index_links(&tree).unwrap()),
        paths_of(&first.2)
    );
}

#[test]
fn indexer_reports_its_root() {
    let indexer = Indexer::new(&path_from("/srv"));
    assert_eq!(indexer.get_root().to_text(), "/srv");
}

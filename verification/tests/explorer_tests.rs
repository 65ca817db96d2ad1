use fexplorer::entry::{EntryType, NodeMeta};
use fexplorer::errors::FsError;
use fexplorer::explorer::{ChildMeta, DirListing, Explorer};
use fexplorer::fs_path::FsPath;

fn path_from(s: &str) -> FsPath {
    let comps: Vec<String> = s
        .split('/')
        .filter(|c| !c.is_empty())
        .map(|c| c.to_string())
        .collect();
    FsPath::from_components(comps)
}

fn dir_meta(listing_nonempty: bool) -> NodeMeta {
    NodeMeta {
        exists: Some(true),
        is_dir: true,
        is_file: false,
        is_symlink: false,
        dir_listing: Some(listing_nonempty),
    }
}

fn file_meta() -> NodeMeta {
    NodeMeta {
        exists: Some(true),
        is_dir: false,
        is_file: true,
        is_symlink: false,
        dir_listing: None,
    }
}

fn link_meta() -> NodeMeta {
    NodeMeta {
        exists: Some(true),
        is_dir: false,
        is_file: false,
        is_symlink: true,
        dir_listing: None,
    }
}

fn child(name: &str, meta: NodeMeta) -> ChildMeta {
    ChildMeta {
        name: name.to_string(),
        meta,
    }
}

fn listing(children: Vec<ChildMeta>) -> DirListing {
    DirListing {
        readable: true,
        children,
    }
}

fn unreadable() -> DirListing {
    DirListing {
        readable: false,
        children: Vec::new(),
    }
}

fn print_entries(explorer: &Explorer) {
    println!("[Location] {}", explorer.get_path().to_text());

    for entry in explorer.get_entries() {
        println!(
            "[{:?}] {}, {}, has_children: {}",
            entry.get_type(),
            entry.get_name(),
            entry.get_path().to_text(),
            entry.has_children(),
        );
    }
}

fn home_listing() -> DirListing {
    listing(vec![child("xcf", dir_meta(true))])
}

#[test]
fn new() {
    let explorer = Explorer::new(&path_from("/home"), &home_listing()).unwrap();
    print_entries(&explorer);
}

#[test]
fn test_parent() {
    let mut explorer = Explorer::new(&path_from("/home"), &home_listing()).unwrap();

    let root_listing = listing(vec![child("home", dir_meta(true))]);
    explorer.set_to_parent(&root_listing).unwrap();
    print_entries(&explorer);
}

#[test]
fn add_path() {
    let docs_listing = listing(vec![child("notes", dir_meta(false))]);
    let mut explorer = Explorer::new(&path_from("/home/xcf/Documents"), &docs_listing).unwrap();
    let entry = explorer.get_entries().get(0).unwrap();

    let rel_path = entry.get_rel_path().unwrap();
    let notes_listing = listing(vec![]);
    explorer.add_path(&rel_path, &notes_listing).unwrap();
    print_entries(&explorer);
}

#[test]
fn construct_keeps_current_path() {
    let p = path_from("/srv/data");
    let explorer = Explorer::new(&p, &listing(vec![child("logs", dir_meta(true))])).unwrap();
    assert_eq!(explorer.get_path().components(), p.components());
    assert_eq!(explorer.get_path().to_text(), "/srv/data");
}

#[test]
fn entries_sit_directly_below_current_path() {
    let p = path_from("/srv/data");
    let l = listing(vec![
        child("logs", dir_meta(true)),
        child("readme.txt", file_meta()),
        child("latest", link_meta()),
    ]);
    let explorer = Explorer::new(&p, &l).unwrap();
    assert_eq!(explorer.get_entries().len(), 3);
    for entry in explorer.get_entries() {
        let parent = entry.get_path().parent().unwrap();
        assert_eq!(parent.components(), p.components());
        let name = entry.get_path().file_name().unwrap();
        assert_eq!(name, entry.get_name());
    }
}

#[test]
fn unreadable_directory_is_a_hard_error() {
    let r = Explorer::new(&path_from("/gone"), &unreadable());
    assert!(matches!(r, Err(FsError::Io)));
}

#[test]
fn failed_children_are_skipped() {
    let vanished = NodeMeta {
        exists: None,
        is_dir: false,
        is_file: false,
        is_symlink: false,
        dir_listing: None,
    };
    let locked_dir = NodeMeta {
        exists: Some(true),
        is_dir: true,
        is_file: false,
        is_symlink: false,
        dir_listing: None,
    };
    let l = listing(vec![
        child("gone", vanished),
        child("kept.txt", file_meta()),
        child("locked", locked_dir),
    ]);
    let explorer = Explorer::new(&path_from("/mnt"), &l).unwrap();
    assert_eq!(explorer.get_entries().len(), 1);
    assert_eq!(explorer.get_entries()[0].get_name(), "kept.txt");
}

#[test]
fn set_path_failure_preserves_state() {
    let p = path_from("/home");
    let mut explorer = Explorer::new(&p, &home_listing()).unwrap();

    let r = explorer.set_path(&path_from("/tmp/doomed"), &unreadable());
    assert!(matches!(r, Err(FsError::Io)));
    assert_eq!(explorer.get_path().to_text(), "/home");
    assert_eq!(explorer.get_entries().len(), 1);
    assert_eq!(explorer.get_entries()[0].get_name(), "xcf");
}

#[test]
fn set_to_parent_at_root_is_a_no_op() {
    let root_listing = listing(vec![child("home", dir_meta(true))]);
    let mut explorer = Explorer::new(&FsPath::root(), &root_listing).unwrap();

    explorer.set_to_parent(&unreadable()).unwrap();
    assert_eq!(explorer.get_path().to_text(), "");
    assert!(explorer.get_path().is_root());
    assert_eq!(explorer.get_entries().len(), 1);
    assert_eq!(explorer.get_entries()[0].get_name(), "home");
}

#[test]
fn add_path_matches_fresh_construction() {
    let p = path_from("/var");
    let l = listing(vec![child("lib", dir_meta(true))]);
    let mut explorer = Explorer::new(&p, &l).unwrap();

    let entry = explorer.get_entries().get(0).unwrap();
    assert_eq!(*entry.get_type(), EntryType::Directory);
    let rel = entry.get_rel_path().unwrap();

    let sub = listing(vec![
        child("dpkg", dir_meta(true)),
        child("status.txt", file_meta()),
    ]);
    explorer.add_path(&rel, &sub).unwrap();

    let fresh = Explorer::new(&path_from("/var/lib"), &sub).unwrap();
    assert_eq!(explorer.get_path().components(), fresh.get_path().components());
    assert_eq!(explorer.get_entries().len(), fresh.get_entries().len());
    for (a, b) in explorer.get_entries().iter().zip(fresh.get_entries().iter()) {
        assert_eq!(a.get_name(), b.get_name());
        assert_eq!(a.get_type(), b.get_type());
        assert_eq!(a.get_path().components(), b.get_path().components());
        assert_eq!(a.has_children(), b.has_children());
    }
}

#[test]
fn update_entries_refreshes_in_place() {
    let mut explorer = Explorer::new(&path_from("/home"), &home_listing()).unwrap();

    let changed = listing(vec![
        child("xcf", dir_meta(true)),
        child("guest", dir_meta(false)),
    ]);
    explorer.update_entries(&changed).unwrap();
    assert_eq!(explorer.get_path().to_text(), "/home");
    assert_eq!(explorer.get_entries().len(), 2);

    let r = explorer.update_entries(&unreadable());
    assert!(matches!(r, Err(FsError::Io)));
    assert_eq!(explorer.get_entries().len(), 2);
}

#[test]
fn set_to_parent_normalizes_to_dropped_component() {
    let mut explorer = Explorer::new(
        &path_from("/a/b/c"),
        &listing(vec![child("d", dir_meta(false))]),
    )
    .unwrap();
    let parent_listing = listing(vec![child("c", dir_meta(true))]);
    explorer.set_to_parent(&parent_listing).unwrap();
    assert_eq!(explorer.get_path().to_text(), "/a/b");
    explorer
        .set_to_parent(&listing(vec![child("b", dir_meta(true))]))
        .unwrap();
    assert_eq!(explorer.get_path().to_text(), "/a");
}

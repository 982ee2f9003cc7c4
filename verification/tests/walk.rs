use heic2jpg::walk::{DirEntry, DirListing, DirWalker, EntryKind, EnumerationError, WalkStep};

enum Node {
    File(&'static str),
    Dir(&'static str, Vec<Node>),
    Locked(&'static str),
    Socket(&'static str),
}

fn path_of(node: &Node) -> &'static str {
    match node {
        Node::File(path) | Node::Dir(path, _) | Node::Locked(path) | Node::Socket(path) => path,
    }
}

fn kind_of(node: &Node) -> EntryKind {
    match node {
        Node::File(_) => EntryKind::File,
        Node::Dir(_, _) | Node::Locked(_) => EntryKind::Directory,
        Node::Socket(_) => EntryKind::Other,
    }
}

fn file(path: &str) -> DirEntry<String> {
    DirEntry { path: path.to_string(), kind: EntryKind::File }
}

fn find<'a>(node: &'a Node, path: &str) -> Option<&'a Node> {
    if path_of(node) == path {
        return Some(node);
    }
    match node {
        Node::Dir(_, children) => children.iter().find_map(|child| find(child, path)),
        _ => None,
    }
}

fn list(root: &Node, path: &str) -> DirListing<String> {
    match find(root, path) {
        Some(Node::Dir(_, children)) => DirListing::Entries(
            children.iter().map(|child| DirEntry { path: path_of(child).to_string(), kind: kind_of(child) }).collect(),
        ),
        Some(Node::Locked(_)) => DirListing::Unreadable,
        Some(Node::File(_)) => DirListing::RegularFile,
        _ => DirListing::NotADirectory,
    }
}

fn enumerate(root: &Node) -> Result<Vec<String>, EnumerationError> {
    let mut walker = DirWalker::new(path_of(root).to_string());
    loop {
        match walker.step() {
            WalkStep::Collected | WalkStep::Skipped => {}
            WalkStep::ListDirectory => {
                let dir = walker.pending_dir().unwrap().clone();
                let _ = walker.visit_dirs(list(root, &dir));
            }
            WalkStep::Finished => break,
        }
    }
    walker.get_all_files()
}

fn sample() -> Node {
    Node::Dir(
        "root",
        vec![
            Node::File("root/f1"),
            Node::Dir(
                "root/d1",
                vec![
                    Node::File("root/d1/g1"),
                    Node::Dir("root/d1/e", vec![Node::File("root/d1/e/h")]),
                    Node::File("root/d1/g2"),
                ],
            ),
            Node::File("root/f2"),
            Node::Socket("root/sock"),
            Node::Dir("root/d2", vec![]),
            Node::File("root/f3"),
        ],
    )
}

#[test]
fn root_file_is_the_only_candidate() {
    assert_eq!(enumerate(&Node::File("shot.zip")), Ok(vec!["shot.zip".to_string()]));
}

#[test]
fn walk_finds_every_file_in_depth_first_order() {
    assert_eq!(
        enumerate(&sample()),
        Ok(vec![
            "root/f1".to_string(),
            "root/d1/g1".to_string(),
            "root/d1/e/h".to_string(),
            "root/d1/g2".to_string(),
            "root/f2".to_string(),
            "root/f3".to_string(),
        ])
    );
}

#[test]
fn walk_finds_no_file_twice_and_no_directory() {
    let files = enumerate(&sample()).unwrap();
    let mut sorted = files.clone();
    sorted.sort();
    sorted.dedup();
    assert_eq!(sorted.len(), files.len());
    for dir in ["root", "root/d1", "root/d1/e", "root/d2", "root/sock"] {
        assert!(!files.iter().any(|file| file == dir));
    }
}

#[test]
fn walk_keeps_the_order_of_the_listing() {
    let tree = Node::Dir("r", vec![Node::File("r/z"), Node::File("r/a"), Node::File("r/m")]);
    assert_eq!(enumerate(&tree), Ok(vec!["r/z".to_string(), "r/a".to_string(), "r/m".to_string()]));
}

#[test]
fn empty_directory_has_no_files() {
    assert_eq!(enumerate(&Node::Dir("empty", vec![])), Ok(vec![]));
}

#[test]
fn unreadable_directory_fails_the_whole_walk() {
    let tree = Node::Dir(
        "root",
        vec![Node::File("root/a"), Node::Locked("root/secret"), Node::File("root/b")],
    );
    assert_eq!(enumerate(&tree), Err(EnumerationError::Unreadable));
    assert_eq!(enumerate(&Node::Locked("root")), Err(EnumerationError::Unreadable));
}

#[test]
fn root_that_is_neither_file_nor_directory_has_no_files() {
    assert_eq!(enumerate(&Node::Socket("missing")), Ok(vec![]));
    let mut walker = DirWalker::new("missing".to_string());
    assert_eq!(walker.step(), WalkStep::ListDirectory);
    assert_eq!(walker.pending_dir(), Some(&"missing".to_string()));
    assert_eq!(walker.visit_dirs(DirListing::NotADirectory), Ok(()));
    assert_eq!(walker.step(), WalkStep::Finished);
    assert_eq!(walker.get_all_files(), Ok(vec![]));
}

#[test]
fn new_walker_finds_a_root_that_is_a_regular_file() {
    let mut walker = DirWalker::new("dir/shot.zip".to_string());
    assert_eq!(walker.step(), WalkStep::ListDirectory);
    assert_eq!(walker.pending_dir(), Some(&"dir/shot.zip".to_string()));
    assert_eq!(walker.visit_dirs(DirListing::RegularFile), Ok(()));
    assert_eq!(walker.pending_dir(), None);
    assert_eq!(walker.step(), WalkStep::Collected);
    assert_eq!(walker.step(), WalkStep::Finished);
    assert_eq!(walker.get_all_files(), Ok(vec!["dir/shot.zip".to_string()]));
}

#[test]
fn entry_that_turns_out_to_be_a_file_is_found_in_its_place() {
    let mut walker = DirWalker::new("r".to_string());
    assert_eq!(walker.step(), WalkStep::ListDirectory);
    let listing = DirListing::Entries(vec![
        file("r/a"),
        DirEntry { path: "r/b".to_string(), kind: EntryKind::Directory },
        file("r/c"),
    ]);
    assert_eq!(walker.visit_dirs(listing), Ok(()));
    assert_eq!(walker.step(), WalkStep::Collected);
    assert_eq!(walker.step(), WalkStep::ListDirectory);
    assert_eq!(walker.visit_dirs(DirListing::RegularFile), Ok(()));
    while walker.step() != WalkStep::Finished {}
    assert_eq!(walker.get_all_files(), Ok(vec!["r/a".to_string(), "r/b".to_string(), "r/c".to_string()]));
}

#[test]
fn entries_that_are_neither_file_nor_directory_are_passed_over() {
    let mut walker = DirWalker::new("r".to_string());
    assert_eq!(walker.step(), WalkStep::ListDirectory);
    let listing = DirListing::Entries(vec![
        DirEntry { path: "r/pipe".to_string(), kind: EntryKind::Other },
        file("r/a"),
        DirEntry { path: "r/dangling".to_string(), kind: EntryKind::Other },
    ]);
    assert_eq!(walker.visit_dirs(listing), Ok(()));
    assert_eq!(walker.step(), WalkStep::Skipped);
    assert_eq!(walker.step(), WalkStep::Collected);
    assert_eq!(walker.step(), WalkStep::Skipped);
    assert_eq!(walker.step(), WalkStep::Finished);
    assert_eq!(walker.get_all_files(), Ok(vec!["r/a".to_string()]));
}

#[test]
fn new_walker_lists_its_root_first() {
    let mut walker = DirWalker::new("photos".to_string());
    assert_eq!(walker.step(), WalkStep::ListDirectory);
    let listing = DirListing::Entries(vec![file("photos/a.zip"), file("photos/b.txt")]);
    assert_eq!(walker.visit_dirs(listing), Ok(()));
    assert_eq!(walker.pending_dir(), None);
    assert_eq!(walker.step(), WalkStep::Collected);
    assert_eq!(walker.step(), WalkStep::Collected);
    assert_eq!(walker.step(), WalkStep::Finished);
    assert_eq!(walker.get_all_files(), Ok(vec!["photos/a.zip".to_string(), "photos/b.txt".to_string()]));
}

#[test]
fn walk_that_is_not_over_gives_no_files() {
    let walker = DirWalker::new("photos".to_string());
    assert_eq!(walker.get_all_files(), Err(EnumerationError::Unfinished));
    let mut walker = DirWalker::new("photos".to_string());
    assert_eq!(walker.visit_dirs(DirListing::Entries(vec![file("photos/a.zip")])), Ok(()));
    assert_eq!(walker.get_all_files(), Err(EnumerationError::Unfinished));
}

#[test]
fn failed_walk_stays_failed() {
    let mut walker = DirWalker::new("photos".to_string());
    assert_eq!(walker.visit_dirs(DirListing::Unreadable), Err(EnumerationError::Unreadable));
    assert_eq!(walker.step(), WalkStep::Finished);
    assert_eq!(walker.pending_dir(), None);
    assert_eq!(walker.visit_dirs(DirListing::Entries(vec![])), Err(EnumerationError::Unreadable));
    assert_eq!(walker.visit_dirs(DirListing::RegularFile), Err(EnumerationError::Unreadable));
    assert_eq!(walker.get_all_files(), Err(EnumerationError::Unreadable));
}

#[test]
fn listing_that_nothing_waits_for_is_ignored() {
    let mut walker = DirWalker::new("r".to_string());
    assert_eq!(walker.visit_dirs(DirListing::Entries(vec![file("r/a")])), Ok(()));
    assert_eq!(walker.visit_dirs(DirListing::Entries(vec![file("stray")])), Ok(()));
    assert_eq!(walker.visit_dirs(DirListing::RegularFile), Ok(()));
    assert_eq!(walker.step(), WalkStep::Collected);
    assert_eq!(walker.visit_dirs(DirListing::NotADirectory), Ok(()));
    assert_eq!(walker.step(), WalkStep::Finished);
    assert_eq!(walker.get_all_files(), Ok(vec!["r/a".to_string()]));
}

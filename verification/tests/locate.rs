use beetree::file_handling::{find_file, FsTree};

fn file(path: &str, content: &str) -> FsTree {
    FsTree::File { path: path.to_string(), content: Some(content.to_string()) }
}

#[test]
fn finds_by_anchor_anywhere_in_tree() {
    let tree = FsTree::Dir {
        entries: vec![
            FsTree::Dir { entries: vec![file("/x/sub/a", "hello")] },
            file("/x/b", "TAG=1\nother"),
        ],
    };
    let needle = "TAG".to_string();
    let m = find_file(&tree, None, Some(&needle)).unwrap();
    assert_eq!(m.file, "/x/b");
    assert_eq!(m.line, Some(0));
    assert_eq!(m.content, Some("TAG=1\nother".to_string()));
}

#[test]
fn finds_deeply_nested_single_match() {
    let tree = FsTree::Dir {
        entries: vec![FsTree::Dir {
            entries: vec![FsTree::Dir {
                entries: vec![FsTree::Dir { entries: vec![file("/deep/a", "x\nTAG=1")] }],
            }],
        }],
    };
    let needle = "TAG".to_string();
    let m = find_file(&tree, None, Some(&needle)).unwrap();
    assert_eq!(m.file, "/deep/a");
    assert_eq!(m.line, Some(1));
}

#[test]
fn empty_directory_yields_nothing() {
    let tree = FsTree::Dir { entries: vec![] };
    let needle = "TAG".to_string();
    assert!(find_file(&tree, None, Some(&needle)).is_none());
}

#[test]
fn finds_by_exact_path_without_line() {
    let tree = FsTree::Dir { entries: vec![file("/x/a", "hello"), file("/x/b", "world")] };
    let target = "/x/b".to_string();
    let m = find_file(&tree, Some(&target), None).unwrap();
    assert_eq!(m.file, "/x/b");
    assert_eq!(m.line, None);
    assert_eq!(m.content, Some("world".to_string()));
}

#[test]
fn path_and_anchor_combine() {
    let tree = FsTree::Dir {
        entries: vec![file("/x/a", "other\nTAG=1"), file("/x/b", "one\nother")],
    };
    let target = "/x/b".to_string();
    let needle = "other".to_string();
    let m = find_file(&tree, Some(&target), Some(&needle)).unwrap();
    assert_eq!(m.file, "/x/b");
    assert_eq!(m.line, Some(1));
}

#[test]
fn path_match_without_anchor_match_yields_nothing() {
    let tree = FsTree::Dir { entries: vec![file("/x/a", "hello")] };
    let target = "/x/a".to_string();
    let needle = "TAG".to_string();
    assert!(find_file(&tree, Some(&target), Some(&needle)).is_none());
}

#[test]
fn only_first_match_in_snapshot_order_is_reported() {
    let tree = FsTree::Dir {
        entries: vec![file("/x/a", "TAG=first"), file("/x/b", "TAG=second")],
    };
    let needle = "TAG".to_string();
    let m = find_file(&tree, None, Some(&needle)).unwrap();
    assert_eq!(m.file, "/x/a");
}

#[test]
fn unreadable_file_never_matches_anchor() {
    let tree = FsTree::Dir {
        entries: vec![
            FsTree::File { path: "/x/a".to_string(), content: None },
            file("/x/b", "TAG=1"),
        ],
    };
    let needle = "TAG".to_string();
    let m = find_file(&tree, None, Some(&needle)).unwrap();
    assert_eq!(m.file, "/x/b");
}

#[test]
fn unreadable_file_still_matches_by_path() {
    let tree = FsTree::Dir {
        entries: vec![FsTree::File { path: "/x/a".to_string(), content: None }],
    };
    let target = "/x/a".to_string();
    let m = find_file(&tree, Some(&target), None).unwrap();
    assert_eq!(m.file, "/x/a");
    assert_eq!(m.content, None);
}

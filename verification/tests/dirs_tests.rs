use tedge_write::paths::{dir_prefixes, parent_dir, validate};
use tedge_write::perms::{segment_action, Ownership, SegmentAction};

#[test]
fn parent_of_root_is_none() {
    let root = validate("/").unwrap();
    assert!(parent_dir(&root).is_none());
}

#[test]
fn parent_of_top_level_is_root() {
    let p = validate("/etc").unwrap();
    assert_eq!(parent_dir(&p).unwrap().as_str(), "/");
}

#[test]
fn parent_strips_last_component() {
    let p = validate("/a/b/c/file").unwrap();
    assert_eq!(parent_dir(&p).unwrap().as_str(), "/a/b/c");
}

#[test]
fn prefixes_of_root() {
    let root = validate("/").unwrap();
    let pres: Vec<String> = dir_prefixes(&root).iter().map(|p| p.as_str().to_owned()).collect();
    assert_eq!(pres, ["/"]);
}

#[test]
fn prefixes_walk_from_root_down() {
    let dir = validate("/a/b/c").unwrap();
    let pres: Vec<String> = dir_prefixes(&dir).iter().map(|p| p.as_str().to_owned()).collect();
    assert_eq!(pres, ["/", "/a", "/a/b", "/a/b/c"]);
}

#[test]
fn walk_creates_only_missing_segments() {
    // target /a/b/c/file where /a exists but /a/b and /a/b/c do not: the walk
    // leaves / and /a alone and creates /a/b and /a/b/c with mode 0755
    let target = validate("/a/b/c/file").unwrap();
    let dir = parent_dir(&target).unwrap();
    let own = Ownership { uid: None, gid: None };
    let prefixes = dir_prefixes(&dir);
    let exists = |p: &str| p == "/" || p == "/a";
    let actions: Vec<(String, SegmentAction)> = prefixes
        .iter()
        .map(|p| (p.as_str().to_owned(), segment_action(exists(p.as_str()), &own)))
        .collect();
    assert_eq!(
        actions,
        [
            ("/".to_owned(), SegmentAction::Skip),
            ("/a".to_owned(), SegmentAction::Skip),
            ("/a/b".to_owned(), SegmentAction::Create { mode: 0o755, uid: None, gid: None }),
            ("/a/b/c".to_owned(), SegmentAction::Create { mode: 0o755, uid: None, gid: None }),
        ]
    );
}

#[test]
fn existing_segment_is_skipped() {
    let own = Ownership { uid: Some(7), gid: None };
    assert_eq!(segment_action(true, &own), SegmentAction::Skip);
}

#[test]
fn missing_segment_is_created_with_fixed_mode() {
    let own = Ownership { uid: Some(7), gid: Some(8) };
    assert_eq!(
        segment_action(false, &own),
        SegmentAction::Create { mode: 0o755, uid: Some(7), gid: Some(8) }
    );
    let none = Ownership { uid: None, gid: None };
    assert_eq!(
        segment_action(false, &none),
        SegmentAction::Create { mode: 0o755, uid: None, gid: None }
    );
}

use fuxi::fstree::{FsEntry, FsNode};
use fuxi::sync::{lookup_node, sync, SyncError};

fn file(data: &[u8]) -> FsNode {
    FsNode::File { data: data.to_vec() }
}

fn dir(entries: Vec<(&str, FsNode)>) -> FsNode {
    FsNode::Dir {
        entries: entries
            .into_iter()
            .map(|(name, node)| FsEntry { name: name.to_string(), node })
            .collect(),
    }
}

fn path(segments: &[&str]) -> Vec<String> {
    segments.iter().map(|s| s.to_string()).collect()
}

#[test]
fn missing_source_is_reported() {
    let root = dir(vec![("repo", dir(vec![]))]);
    let r = sync(&root, &path(&["absent"]), &path(&["repo", "absent"]));
    assert_eq!(r, Err(SyncError::SourceMissing));
}

#[test]
fn file_backup_lands_under_the_profile_directory() {
    let root = dir(vec![
        ("etc", dir(vec![("hosts", file(b"127.0.0.1"))])),
        ("repo", dir(vec![])),
    ]);
    let backed = sync(&root, &path(&["etc", "hosts"]), &path(&["repo", "work", "hosts"]))
        .expect("backup should succeed");
    let mirrored = lookup_node(&backed, &path(&["repo", "work", "hosts"]))
        .expect("mirrored file should exist");
    assert_eq!(*mirrored, file(b"127.0.0.1"));
}

#[test]
fn file_round_trip_restores_identical_bytes() {
    let root = dir(vec![
        ("etc", dir(vec![("hosts", file(b"127.0.0.1 localhost\n"))])),
        ("repo", dir(vec![])),
    ]);
    let backed = sync(&root, &path(&["etc", "hosts"]), &path(&["repo", "work", "hosts"]))
        .expect("backup should succeed");
    let restored = sync(&backed, &path(&["repo", "work", "hosts"]), &path(&["etc", "hosts"]))
        .expect("apply should succeed");
    let node = lookup_node(&restored, &path(&["etc", "hosts"])).expect("file should be back");
    assert_eq!(*node, file(b"127.0.0.1 localhost\n"));
}

#[test]
fn directory_round_trip_restores_nested_content() {
    let tree = dir(vec![
        ("deep", dir(vec![("inner.txt", file(b"inner"))])),
        ("top.txt", file(b"top")),
    ]);
    let root = dir(vec![
        ("home", dir(vec![("work stuff", tree)])),
        ("repo", dir(vec![])),
    ]);
    let backed = sync(
        &root,
        &path(&["home", "work stuff"]),
        &path(&["repo", "work", "work stuff"]),
    )
    .expect("backup should succeed");
    let restored = sync(
        &backed,
        &path(&["repo", "work", "work stuff"]),
        &path(&["home", "work stuff"]),
    )
    .expect("apply should succeed");
    let node = lookup_node(&restored, &path(&["home", "work stuff"]))
        .expect("directory should be back");
    let expected = dir(vec![
        ("deep", dir(vec![("inner.txt", file(b"inner"))])),
        ("top.txt", file(b"top")),
    ]);
    assert_eq!(*node, expected);
}

#[test]
fn missing_destination_directories_are_created() {
    let root = dir(vec![("data", file(b"x")), ("repo", dir(vec![]))]);
    let backed = sync(&root, &path(&["data"]), &path(&["repo", "a", "b", "data"]))
        .expect("backup should succeed");
    let node = lookup_node(&backed, &path(&["repo", "a", "b", "data"])).expect("file should exist");
    assert_eq!(*node, file(b"x"));
}

#[test]
fn copying_a_file_overwrites_the_old_file() {
    let root = dir(vec![
        ("new", file(b"new content")),
        ("old", file(b"old content")),
    ]);
    let merged = sync(&root, &path(&["new"]), &path(&["old"])).expect("copy should succeed");
    let node = lookup_node(&merged, &path(&["old"])).expect("file should exist");
    assert_eq!(*node, file(b"new content"));
}

#[test]
fn flattening_into_an_existing_dir_keeps_its_other_entries() {
    let root = dir(vec![
        ("live", dir(vec![("keep.txt", file(b"keep"))])),
        (
            "repo",
            dir(vec![("live", dir(vec![("new.txt", file(b"new"))]))]),
        ),
    ]);
    let merged = sync(&root, &path(&["repo", "live"]), &path(&["live"]))
        .expect("apply should succeed");
    let kept = lookup_node(&merged, &path(&["live", "keep.txt"])).expect("kept file");
    let added = lookup_node(&merged, &path(&["live", "new.txt"])).expect("added file");
    assert_eq!(*kept, file(b"keep"));
    assert_eq!(*added, file(b"new"));
}

#[test]
fn a_file_blocking_a_directory_step_fails_the_copy() {
    let root = dir(vec![("data", file(b"x")), ("repo", file(b"i am a file"))]);
    let r = sync(&root, &path(&["data"]), &path(&["repo", "data"]));
    assert_eq!(r, Err(SyncError::DestinationBlocked));
}

#[test]
fn a_directory_blocking_a_file_copy_fails() {
    let root = dir(vec![
        ("data", file(b"x")),
        ("dst", dir(vec![("data", dir(vec![]))])),
    ]);
    let r = sync(&root, &path(&["data"]), &path(&["dst", "data"]));
    assert_eq!(r, Err(SyncError::DestinationBlocked));
}

use template_overlay::errors::CopyCause;
use template_overlay::errors::SetupError;
use template_overlay::tree::copy_tree;
use template_overlay::tree::DirEntry;
use template_overlay::tree::FsNode;

fn file(bytes: &[u8], mode: Option<u32>) -> FsNode {
    FsNode::File { bytes: bytes.to_vec(), mode }
}

fn dir(entries: Vec<(&[u8], FsNode)>) -> FsNode {
    FsNode::Dir {
        entries: entries
            .into_iter()
            .map(|(name, node)| DirEntry { name: name.to_vec(), node })
            .collect(),
    }
}

/// Source `{a.txt: "hi", sub/b.txt: "yo"}` copied into an empty destination
/// directory yields exactly those entries and no others.
#[test]
fn two_files_into_empty_destination() {
    let src = dir(vec![
        (b"a.txt", file(b"hi", None)),
        (b"sub", dir(vec![(b"b.txt", file(b"yo", None))])),
    ]);
    let dst = dir(vec![]);
    let got = copy_tree(Some(src), Some(dst)).unwrap().unwrap();
    let want = dir(vec![
        (b"a.txt", file(b"hi", None)),
        (b"sub", dir(vec![(b"b.txt", file(b"yo", None))])),
    ]);
    assert_eq!(got, want);
}

/// An absent source is a no-op: the destination comes back unmodified.
#[test]
fn absent_source_is_noop() {
    let dst = dir(vec![(b"keep.txt", file(b"data", Some(0o644)))]);
    let want = dir(vec![(b"keep.txt", file(b"data", Some(0o644)))]);
    let got = copy_tree(None, Some(dst)).unwrap().unwrap();
    assert_eq!(got, want);
    assert_eq!(copy_tree(None, None).unwrap(), None);
}

/// Running the copy twice with an unchanged source gives the same destination
/// as running it once.
#[test]
fn copy_twice_equals_copy_once() {
    let src = || {
        dir(vec![
            (b"a.txt", file(b"one", Some(0o600))),
            (b"sub", dir(vec![(b"b.txt", file(b"two", None))])),
        ])
    };
    let dst = dir(vec![
        (b"a.txt", file(b"stale", Some(0o644))),
        (b"extra.txt", file(b"kept", None)),
    ]);
    let once = copy_tree(Some(src()), Some(dst)).unwrap().unwrap();
    let expected = copy_tree(Some(src()), Some(once)).unwrap().unwrap();
    let dst_again = dir(vec![
        (b"a.txt", file(b"stale", Some(0o644))),
        (b"extra.txt", file(b"kept", None)),
    ]);
    let once_again = copy_tree(Some(src()), Some(dst_again)).unwrap().unwrap();
    assert_eq!(once_again, expected);
}

/// A colliding file is overwritten with the source's content; destination
/// entries absent from the source survive.
#[test]
fn overlay_overwrites_colliding_file() {
    let src = dir(vec![(b"a.txt", file(b"new", Some(0o755)))]);
    let dst = dir(vec![
        (b"a.txt", file(b"old", Some(0o644))),
        (b"other.txt", file(b"stay", None)),
    ]);
    let got = copy_tree(Some(src), Some(dst)).unwrap().unwrap();
    let want = dir(vec![
        (b"a.txt", file(b"new", Some(0o755))),
        (b"other.txt", file(b"stay", None)),
    ]);
    assert_eq!(got, want);
}

/// Permission bits of a source file are carried to the destination.
#[test]
fn permission_bits_are_preserved() {
    let src = dir(vec![(b"run.sh", file(b"#!", Some(0o755)))]);
    let got = copy_tree(Some(src), None).unwrap().unwrap();
    match got {
        FsNode::Dir { entries } => {
            assert_eq!(entries.len(), 1);
            assert_eq!(entries[0].name, b"run.sh".to_vec());
            assert_eq!(
                entries[0].node,
                FsNode::File { bytes: b"#!".to_vec(), mode: Some(0o755) }
            );
        }
        FsNode::File { .. } => panic!("expected a directory"),
    }
}

/// Zero-length files and files without permission metadata copy fine.
#[test]
fn empty_file_and_missing_mode_copy() {
    let src = dir(vec![(b"empty", file(b"", None))]);
    let got = copy_tree(Some(src), None).unwrap().unwrap();
    let want = dir(vec![(b"empty", file(b"", None))]);
    assert_eq!(got, want);
}

/// Directories merge recursively: a nested destination file not present in the
/// source survives beside the copied one.
#[test]
fn nested_directories_merge() {
    let src = dir(vec![(b"sub", dir(vec![(b"new.txt", file(b"n", None))]))]);
    let dst = dir(vec![(b"sub", dir(vec![(b"old.txt", file(b"o", None))]))]);
    let got = copy_tree(Some(src), Some(dst)).unwrap().unwrap();
    let want = dir(vec![(
        b"sub",
        dir(vec![(b"old.txt", file(b"o", None)), (b"new.txt", file(b"n", None))]),
    )]);
    assert_eq!(got, want);
}

/// A source that is a regular file cannot be enumerated.
#[test]
fn file_source_fails() {
    let got = copy_tree(Some(file(b"x", None)), None);
    match got {
        Err(SetupError::CopyFailed { cause, .. }) => {
            assert_eq!(cause, CopyCause::SourceNotADirectory)
        }
        _ => panic!("expected CopyFailed"),
    }
}

/// A source file colliding with a destination directory fails the copy.
#[test]
fn file_over_directory_fails() {
    let src = dir(vec![(b"x", file(b"data", None))]);
    let dst = dir(vec![(b"x", dir(vec![]))]);
    match copy_tree(Some(src), Some(dst)) {
        Err(SetupError::CopyFailed { path, cause }) => {
            assert_eq!(cause, CopyCause::DestinationIsADirectory);
            assert_eq!(path, vec![b"x".to_vec()]);
        }
        _ => panic!("expected CopyFailed"),
    }
}

/// Entries cannot be written beneath a destination that is a regular file.
#[test]
fn entries_under_destination_file_fail() {
    let src = dir(vec![(b"sub", dir(vec![(b"b.txt", file(b"yo", None))]))]);
    let dst = dir(vec![(b"sub", file(b"i am a file", None))]);
    match copy_tree(Some(src), Some(dst)) {
        Err(SetupError::CopyFailed { path, cause }) => {
            assert_eq!(cause, CopyCause::DestinationNotADirectory);
            assert_eq!(path, vec![b"sub".to_vec(), b"b.txt".to_vec()]);
        }
        _ => panic!("expected CopyFailed"),
    }
}

/// An empty source directory colliding with a destination file leaves the
/// file in place, as a copier that never has to write beneath it does.
#[test]
fn empty_dir_over_destination_file_keeps_file() {
    let src = dir(vec![(b"x", dir(vec![]))]);
    let dst = dir(vec![(b"x", file(b"survives", None))]);
    let got = copy_tree(Some(src), Some(dst)).unwrap().unwrap();
    let want = dir(vec![(b"x", file(b"survives", None))]);
    assert_eq!(got, want);
}

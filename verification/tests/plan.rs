use template_overlay::errors::SetupError;
use template_overlay::plan::copy_plan;
use template_overlay::plan::CopyAction;
use template_overlay::tree::DirEntry;
use template_overlay::tree::FsNode;

fn file(bytes: &[u8], mode: Option<u32>) -> FsNode {
    FsNode::File { bytes: bytes.to_vec(), mode }
}

fn dir(entries: Vec<(&[u8], FsNode)>) -> FsNode {
    FsNode::Dir {
        entries: entries
            .into_iter()
            .map(|(name, node)| DirEntry { name: name.to_vec(), node })
            .collect(),
    }
}

/// The plan is depth-first and pre-order: each directory is ensured before its
/// contents, each file written with its exact bytes and permission bits.
#[test]
fn plan_is_preorder() {
    let src = dir(vec![
        (b"a.txt", file(b"hi", None)),
        (b"sub", dir(vec![(b"b.txt", file(b"yo", Some(0o755)))])),
    ]);
    let plan = copy_plan(src).unwrap();
    assert_eq!(
        plan,
        vec![
            CopyAction::EnsureDir { path: vec![] },
            CopyAction::WriteFile { path: vec![b"a.txt".to_vec()], bytes: b"hi".to_vec(), mode: None },
            CopyAction::EnsureDir { path: vec![b"sub".to_vec()] },
            CopyAction::WriteFile {
                path: vec![b"sub".to_vec(), b"b.txt".to_vec()],
                bytes: b"yo".to_vec(),
                mode: Some(0o755),
            },
        ]
    );
}

/// An empty source directory still ensures the destination root and nothing
/// else.
#[test]
fn plan_of_empty_directory() {
    let plan = copy_plan(dir(vec![])).unwrap();
    assert_eq!(plan, vec![CopyAction::EnsureDir { path: vec![] }]);
}

/// A source that is a regular file cannot be enumerated, so it has no plan.
#[test]
fn plan_of_file_fails() {
    match copy_plan(file(b"x", None)) {
        Err(SetupError::CopyFailed { .. }) => {}
        other => panic!("expected CopyFailed, got {:?}", other),
    }
}

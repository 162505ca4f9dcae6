use template_overlay::errors::SetupError;
use template_overlay::materialize::fetch_then_materialize;
use template_overlay::materialize::materialize;
use template_overlay::materialize::materialize_plan;
use template_overlay::materialize::retrieval_outcome;
use template_overlay::plan::CopyAction;
use template_overlay::tree::DirEntry;
use template_overlay::tree::FsNode;

fn file(bytes: &[u8], mode: Option<u32>) -> FsNode {
    FsNode::File { bytes: bytes.to_vec(), mode }
}

fn dir(entries: Vec<(&[u8], FsNode)>) -> FsNode {
    FsNode::Dir {
        entries: entries
            .into_iter()
            .map(|(name, node)| DirEntry { name: name.to_vec(), node })
            .collect(),
    }
}

/// A snapshot without a `template` subtree fails with `TemplateSubtreeMissing`
/// and nothing is copied: the destination is returned only on success, so an
/// unrelated destination tree cannot have been touched.
#[test]
fn missing_template_subtree_fails() {
    let snapshot = dir(vec![(b"README.md", file(b"docs", None))]);
    let dest = dir(vec![(b"src", dir(vec![]))]);
    let got = materialize(snapshot, Some(dest));
    assert_eq!(got, Err(SetupError::TemplateSubtreeMissing));
}

/// The plan form fails the same way, producing no actions to execute.
#[test]
fn missing_template_subtree_yields_no_plan() {
    let snapshot = dir(vec![(b"README.md", file(b"docs", None))]);
    assert_eq!(
        materialize_plan(snapshot),
        Err(SetupError::TemplateSubtreeMissing)
    );
}

/// Materialization overlays exactly the `template` subtree, not the rest of
/// the snapshot.
#[test]
fn template_subtree_is_overlaid() {
    let snapshot = dir(vec![
        (b".git", dir(vec![(b"HEAD", file(b"ref", None))])),
        (b"template", dir(vec![(b"index.ts", file(b"code", Some(0o644)))])),
    ]);
    let dest = dir(vec![(b"package.json", file(b"{}", None))]);
    let got = materialize(snapshot, Some(dest)).unwrap().unwrap();
    let want = dir(vec![
        (b"package.json", file(b"{}", None)),
        (b"index.ts", file(b"code", Some(0o644))),
    ]);
    assert_eq!(got, want);
}

/// A `template` entry that is a regular file cannot be enumerated.
#[test]
fn template_as_file_fails_copy() {
    let snapshot = dir(vec![(b"template", file(b"not a dir", None))]);
    match materialize(snapshot, None) {
        Err(SetupError::CopyFailed { .. }) => {}
        other => panic!("expected CopyFailed, got {:?}", other),
    }
}

/// The retrieval gate: only a launched fetch with a successful exit passes.
#[test]
fn retrieval_gate() {
    assert_eq!(retrieval_outcome(true, true), Ok(()));
    assert_eq!(retrieval_outcome(true, false), Err(SetupError::RetrievalFailed));
    assert_eq!(retrieval_outcome(false, false), Err(SetupError::RetrievalFailed));
}

/// A failed retrieval (simulated non-zero exit) means materialization is never
/// reached: the caller sees `RetrievalFailed`, whatever the destination held.
#[test]
fn failed_retrieval_never_materializes() {
    let dest = dir(vec![(b"src", dir(vec![]))]);
    // the failed fetch left no snapshot behind
    let got = fetch_then_materialize(None, Some(dest));
    assert_eq!(got, Err(SetupError::RetrievalFailed));

    // a caller that consults the retrieval decision stops before copying
    let mut reached_materialize = false;
    if retrieval_outcome(true, false).is_ok() {
        reached_materialize = true;
    }
    assert!(!reached_materialize);
}

/// A successful fetch hands the snapshot through to materialization.
#[test]
fn successful_retrieval_materializes() {
    let snapshot = dir(vec![(b"template", dir(vec![(b"a.txt", file(b"hi", None))]))]);
    let got = fetch_then_materialize(Some(snapshot), None).unwrap().unwrap();
    let want = dir(vec![(b"a.txt", file(b"hi", None))]);
    assert_eq!(got, want);
}

/// The plan of a found template starts by ensuring the destination root and
/// then writes the template's files.
#[test]
fn plan_of_template() {
    let snapshot = dir(vec![(b"template", dir(vec![(b"a.txt", file(b"hi", Some(0o600)))]))]);
    let plan = materialize_plan(snapshot).unwrap();
    assert_eq!(
        plan,
        vec![
            CopyAction::EnsureDir { path: vec![] },
            CopyAction::WriteFile {
                path: vec![b"a.txt".to_vec()],
                bytes: b"hi".to_vec(),
                mode: Some(0o600),
            },
        ]
    );
}

//! The orchestrator: locate the `template` subtree inside a fetched snapshot,
//! overlay it onto the destination, and gate the whole operation on the
//! outcome of the retrieval step.

use vstd::prelude::*;

use crate::errors::SetupError;
use crate::plan::actions_view;
use crate::plan::copy_plan;
use crate::plan::plan_spec;
use crate::plan::CopyAction;
use crate::tree::copy_spec;
use crate::tree::copy_tree;
use crate::tree::find_entry;
use crate::tree::lemma_entries_view;
use crate::tree::lookup_spec;
use crate::tree::node_view;
use crate::tree::opt_view;
use crate::tree::FsNode;
use crate::tree::TreeV;

verus! {

/// The name of the subtree a snapshot must hold: `template`, as bytes.
pub open spec fn template_name() -> Seq<u8> {
    seq![116u8, 101u8, 109u8, 112u8, 108u8, 97u8, 116u8, 101u8]
}

pub fn template_name_bytes() -> (r: Vec<u8>)
    ensures
        r@ == template_name(),
{
    let mut v: Vec<u8> = Vec::new();
    v.push(116);
    v.push(101);
    v.push(109);
    v.push(112);
    v.push(108);
    v.push(97);
    v.push(116);
    v.push(101);
    proof {
        assert(v@ =~= template_name());
    }
    v
}

/// The template subtree of a snapshot, when the snapshot holds one.
pub open spec fn template_of(snap: TreeV) -> Option<TreeV> {
    lookup_spec(snap, template_name())
}

/// What materializing a snapshot onto a destination must answer: a snapshot
/// without a `template` subtree fails with exactly `TemplateSubtreeMissing`
/// (and nothing is copied); otherwise the answer is the overlay of that
/// subtree onto the destination, any copy failure passing through as
/// `CopyFailed`.
pub open spec fn materialize_post(
    snapv: TreeV,
    destv: Option<TreeV>,
    r: Result<Option<FsNode>, SetupError>,
) -> bool {
    &&& (template_of(snapv) is None) <==> (r == Err::<Option<FsNode>, SetupError>(
        SetupError::TemplateSubtreeMissing,
    ))
    &&& match template_of(snapv) {
        Some(t) => {
            &&& (r is Ok) == (copy_spec(Some(t), destv) is Ok)
            &&& (r matches Ok(m) ==> copy_spec(Some(t), destv) == Ok::<Option<TreeV>, ()>(
                opt_view(m),
            ))
            &&& (r matches Err(e) ==> e is CopyFailed)
        },
        None => true,
    }
}

/// Locates the `template` subtree of the snapshot and overlays it onto the
/// destination. Fails with `TemplateSubtreeMissing`, before any copy, when the
/// snapshot lacks that subtree; otherwise the copier's verdict is returned
/// unchanged in kind.
pub fn materialize(snapshot: FsNode, dest: Option<FsNode>) -> (r: Result<
    Option<FsNode>,
    SetupError,
>)
    ensures
        materialize_post(node_view(snapshot), opt_view(dest), r),
{
    let tname = template_name_bytes();
    match snapshot {
        FsNode::File { .. } => Err(SetupError::TemplateSubtreeMissing),
        FsNode::Dir { entries } => {
            let mut entries = entries;
            let ghost esv = entries@;
            let found = find_entry(&entries, &tname);
            match found {
                None => Err(SetupError::TemplateSubtreeMissing),
                Some(i) => {
                    let ent = entries.remove(i);
                    proof {
                        lemma_entries_view(esv);
                    }
                    copy_tree(Some(ent.node), dest)
                },
            }
        },
    }
}

/// The executable form of materialization: the plan whose in-order execution
/// against the destination root realizes the overlay of the snapshot's
/// `template` subtree. Fails with `TemplateSubtreeMissing`, producing no plan,
/// exactly when the snapshot lacks that subtree; a `template` that is a
/// regular file cannot be enumerated and yields `CopyFailed`.
pub fn materialize_plan(snapshot: FsNode) -> (r: Result<Vec<CopyAction>, SetupError>)
    ensures
        (template_of(node_view(snapshot)) is None) <==> (r == Err::<Vec<CopyAction>, SetupError>(
            SetupError::TemplateSubtreeMissing,
        )),
        template_of(node_view(snapshot)) matches Some(t) ==> {
            &&& (r is Ok) == (t is Dir)
            &&& (r matches Ok(v) ==> actions_view(v@) == plan_spec(t, Seq::empty()))
            &&& (r matches Err(e) ==> e is CopyFailed)
        },
{
    let tname = template_name_bytes();
    match snapshot {
        FsNode::File { .. } => Err(SetupError::TemplateSubtreeMissing),
        FsNode::Dir { entries } => {
            let mut entries = entries;
            let ghost esv = entries@;
            let found = find_entry(&entries, &tname);
            match found {
                None => Err(SetupError::TemplateSubtreeMissing),
                Some(i) => {
                    let ent = entries.remove(i);
                    proof {
                        lemma_entries_view(esv);
                    }
                    copy_plan(ent.node)
                },
            }
        },
    }
}

/// Decision after the snapshot fetch: the fetch process must have been
/// launched and have completed successfully; any other outcome fails the whole
/// operation with `RetrievalFailed`, with no retry.
pub fn retrieval_outcome(launched: bool, exit_ok: bool) -> (r: Result<(), SetupError>)
    ensures
        (r is Ok) == (launched && exit_ok),
        !(launched && exit_ok) ==> r == Err::<(), SetupError>(SetupError::RetrievalFailed),
{
    if launched && exit_ok {
        Ok(())
    } else {
        Err(SetupError::RetrievalFailed)
    }
}

/// The retrieval gate and materialization in sequence: when the fetch produced
/// no snapshot the answer is `RetrievalFailed` whatever the destination holds,
/// and materialization is never attempted.
pub fn fetch_then_materialize(fetched: Option<FsNode>, dest: Option<FsNode>) -> (r: Result<
    Option<FsNode>,
    SetupError,
>)
    ensures
        fetched is None ==> r == Err::<Option<FsNode>, SetupError>(SetupError::RetrievalFailed),
        fetched matches Some(snap) ==> materialize_post(node_view(snap), opt_view(dest), r),
{
    match fetched {
        None => Err(SetupError::RetrievalFailed),
        Some(snap) => materialize(snap, dest),
    }
}

} // verus!

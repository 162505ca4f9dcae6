//! The executable form of a tree copy: a depth-first, pre-order sequence of
//! create-directory and write-file instructions that an executor replays, in
//! order, against the real destination root.

use vstd::prelude::*;

use crate::errors::CopyCause;
use crate::errors::SetupError;
use crate::tree::entries_view;
use crate::tree::entry_view;
use crate::tree::lemma_entries_view_drop;
use crate::tree::node_view;
use crate::tree::DirEntry;
use crate::tree::EntryV;
use crate::tree::FsNode;
use crate::tree::TreeV;

verus! {

/// One instruction of a copy plan, relative to the destination root.
#[derive(Debug, PartialEq, Eq)]
pub enum CopyAction {
    /// Ensure the directory at `path` exists, creating it and any missing
    /// ancestors; an existing directory is left as it is.
    EnsureDir { path: Vec<Vec<u8>> },
    /// Write the file at `path` with exactly these bytes, overwriting any
    /// existing file, then apply the permission bits where the platform has
    /// them.
    WriteFile { path: Vec<Vec<u8>>, bytes: Vec<u8>, mode: Option<u32> },
}

/// Mathematical image of a `CopyAction`.
#[verifier::ext_equal]
pub enum ActionV {
    EnsureDir { path: Seq<Seq<u8>> },
    WriteFile { path: Seq<Seq<u8>>, bytes: Seq<u8>, mode: Option<u32> },
}

pub open spec fn path_view(p: Seq<Vec<u8>>) -> Seq<Seq<u8>> {
    Seq::new(p.len(), |i: int| p[i]@)
}

pub open spec fn action_view(a: CopyAction) -> ActionV {
    match a {
        CopyAction::EnsureDir { path } => ActionV::EnsureDir { path: path_view(path@) },
        CopyAction::WriteFile { path, bytes, mode } => ActionV::WriteFile {
            path: path_view(path@),
            bytes: bytes@,
            mode,
        },
    }
}

pub open spec fn actions_view(s: Seq<CopyAction>) -> Seq<ActionV> {
    Seq::new(s.len(), |i: int| action_view(s[i]))
}

/// The plan that realizes a copy of `t` at the relative path `at`: ensure the
/// directory, then, entry by entry in listing order, write each file and
/// recurse into each subdirectory.
pub open spec fn plan_spec(t: TreeV, at: Seq<Seq<u8>>) -> Seq<ActionV>
    decreases t, 0int,
{
    match t {
        TreeV::File { bytes, mode } => seq![ActionV::WriteFile { path: at, bytes, mode }],
        TreeV::Dir { entries } => seq![ActionV::EnsureDir { path: at }] + plan_entries_spec(
            entries,
            at,
        ),
    }
}

pub open spec fn plan_entries_spec(es: Seq<EntryV>, at: Seq<Seq<u8>>) -> Seq<ActionV>
    decreases es, 1int,
{
    if es.len() == 0 {
        Seq::empty()
    } else {
        plan_spec(es[0].node, at.push(es[0].name)) + plan_entries_spec(es.drop_first(), at)
    }
}

fn clone_bytes(v: &Vec<u8>) -> (r: Vec<u8>)
    ensures
        r@ == v@,
{
    let mut out: Vec<u8> = Vec::new();
    let mut i: usize = 0;
    while i < v.len()
        invariant
            0 <= i <= v@.len(),
            out@.len() == i,
            forall|j: int| 0 <= j < i ==> out@[j] == v@[j],
        decreases v@.len() - i,
    {
        out.push(v[i]);
        i = i + 1;
    }
    proof {
        assert(out@ =~= v@);
    }
    out
}

fn clone_path(p: &Vec<Vec<u8>>) -> (r: Vec<Vec<u8>>)
    ensures
        path_view(r@) == path_view(p@),
{
    let mut out: Vec<Vec<u8>> = Vec::new();
    let mut i: usize = 0;
    while i < p.len()
        invariant
            0 <= i <= p@.len(),
            out@.len() == i,
            forall|j: int| 0 <= j < i ==> out@[j]@ == p@[j]@,
        decreases p@.len() - i,
    {
        out.push(clone_bytes(&p[i]));
        i = i + 1;
    }
    proof {
        assert(path_view(out@) =~= path_view(p@));
    }
    out
}

fn plan_node(node: FsNode, path: Vec<Vec<u8>>, out: &mut Vec<CopyAction>)
    ensures
        actions_view(final(out)@) == actions_view(old(out)@) + plan_spec(
            node_view(node),
            path_view(path@),
        ),
    decreases node, 0int,
{
    let ghost out0 = out@;
    let ghost pv = path_view(path@);
    match node {
        FsNode::File { bytes, mode } => {
            let ghost nv = node_view(FsNode::File { bytes, mode });
            out.push(CopyAction::WriteFile { path, bytes, mode });
            proof {
                assert(actions_view(out@) =~= actions_view(out0) + plan_spec(nv, pv));
            }
        },
        FsNode::Dir { entries } => {
            let ghost nv = node_view(FsNode::Dir { entries });
            let dir_path = clone_path(&path);
            out.push(CopyAction::EnsureDir { path: dir_path });
            proof {
                assert(actions_view(out@) =~= actions_view(out0) + seq![
                    ActionV::EnsureDir { path: pv },
                ]);
            }
            plan_entries(entries, path, out);
            proof {
                assert(actions_view(out@) =~= actions_view(out0) + plan_spec(nv, pv));
            }
        },
    }
}

fn plan_entries(es: Vec<DirEntry>, path: Vec<Vec<u8>>, out: &mut Vec<CopyAction>)
    ensures
        actions_view(final(out)@) == actions_view(old(out)@) + plan_entries_spec(
            entries_view(es@),
            path_view(path@),
        ),
    decreases es@, 1int,
{
    let ghost es0 = es@;
    let ghost out0 = out@;
    let ghost pv = path_view(path@);
    let mut es = es;
    if es.len() == 0 {
        proof {
            assert(actions_view(out@) =~= actions_view(out0) + plan_entries_spec(
                entries_view(es0),
                pv,
            ));
        }
        return ;
    }
    proof {
        lemma_entries_view_drop(es0);
    }
    let e = es.remove(0);
    proof {
        assert(es@ =~= es0.drop_first());
    }
    let mut child_path = clone_path(&path);
    child_path.push(e.name);
    proof {
        assert(path_view(child_path@) =~= pv.push(es0[0].name@));
        assert(entries_view(es0)[0] == entry_view(es0[0]));
        assert(decreases_to!(es0 => es0[0].node));
    }
    plan_node(e.node, child_path, out);
    plan_entries(es, path, out);
    proof {
        assert(actions_view(out@) =~= actions_view(out0) + plan_entries_spec(
            entries_view(es0),
            pv,
        ));
    }
}

/// The plan whose in-order execution against the destination root realizes
/// `copy_tree` of this source: directories are ensured before their contents,
/// files are written with their exact bytes and permission bits. A source that
/// is a regular file cannot be enumerated and yields `CopyFailed`, as the copy
/// itself does.
pub fn copy_plan(src: FsNode) -> (r: Result<Vec<CopyAction>, SetupError>)
    ensures
        (r is Ok) == (node_view(src) is Dir),
        r matches Ok(v) ==> actions_view(v@) == plan_spec(node_view(src), Seq::empty()),
        r matches Err(e) ==> e is CopyFailed,
{
    let is_dir = match &src {
        FsNode::Dir { .. } => true,
        FsNode::File { .. } => false,
    };
    if !is_dir {
        return Err(
            SetupError::CopyFailed { path: Vec::new(), cause: CopyCause::SourceNotADirectory },
        );
    }
    let mut out: Vec<CopyAction> = Vec::new();
    plan_node(src, Vec::new(), &mut out);
    proof {
        assert(path_view(Seq::<Vec<u8>>::empty()) =~= Seq::<Seq<u8>>::empty());
        assert(actions_view(Seq::<CopyAction>::empty()) =~= Seq::<ActionV>::empty());
        assert(actions_view(out@) =~= plan_spec(node_view(src), Seq::empty()));
    }
    Ok(out)
}

} // verus!

//! The file-tree model: directories and regular files, with contents and
//! permission bits, together with the overlay-copy semantics.

use vstd::prelude::*;

use crate::errors::CopyCause;
use crate::errors::SetupError;

verus! {

/// One filesystem object: a regular file (bytes plus permission bits where the
/// platform has them) or a directory of named entries.
#[derive(Debug, PartialEq, Eq)]
pub enum FsNode {
    File { bytes: Vec<u8>, mode: Option<u32> },
    Dir { entries: Vec<DirEntry> },
}

/// A named entry of a directory. Names are raw bytes, as the operating system
/// reports them.
#[derive(Debug, PartialEq, Eq)]
pub struct DirEntry {
    pub name: Vec<u8>,
    pub node: FsNode,
}

/// Mathematical image of an `FsNode`.
#[verifier::ext_equal]
pub enum TreeV {
    File { bytes: Seq<u8>, mode: Option<u32> },
    Dir { entries: Seq<EntryV> },
}

/// Mathematical image of a `DirEntry`.
#[verifier::ext_equal]
pub struct EntryV {
    pub name: Seq<u8>,
    pub node: TreeV,
}

pub open spec fn node_view(n: FsNode) -> TreeV
    decreases n, 0int,
{
    match n {
        FsNode::File { bytes, mode } => TreeV::File { bytes: bytes@, mode },
        FsNode::Dir { entries } => TreeV::Dir { entries: entries_view(entries@) },
    }
}

pub open spec fn entry_view(d: DirEntry) -> EntryV
    decreases d, 1int,
{
    EntryV { name: d.name@, node: node_view(d.node) }
}

pub open spec fn entries_view(s: Seq<DirEntry>) -> Seq<EntryV>
    decreases s, 2int,
{
    if s.len() == 0 {
        Seq::empty()
    } else {
        seq![entry_view(s[0])] + entries_view(s.drop_first())
    }
}

/// `entries_view` maps `entry_view` over the sequence, index by index.
pub proof fn lemma_entries_view(s: Seq<DirEntry>)
    ensures
        entries_view(s).len() == s.len(),
        forall|i: int| 0 <= i < s.len() ==> entries_view(s)[i] == entry_view(#[trigger] s[i]),
    decreases s.len(),
{
    if s.len() > 0 {
        lemma_entries_view(s.drop_first());
        assert forall|i: int| 0 <= i < s.len() implies entries_view(s)[i] == entry_view(#[trigger] s[i]) by {
            if i > 0 {
                assert(s.drop_first()[i - 1] == s[i]);
                assert(entries_view(s)[i] == entries_view(s.drop_first())[i - 1]);
            }
        }
    }
}

pub open spec fn opt_view(o: Option<FsNode>) -> Option<TreeV> {
    match o {
        None => None,
        Some(n) => Some(node_view(n)),
    }
}

/// Index of the first entry named `name`, if any.
pub open spec fn find_entry_spec(es: Seq<EntryV>, name: Seq<u8>) -> Option<int>
    decreases es.len(),
{
    if es.len() == 0 {
        None
    } else if es[0].name == name {
        Some(0int)
    } else {
        match find_entry_spec(es.drop_first(), name) {
            None => None,
            Some(i) => Some(i + 1),
        }
    }
}

/// `find_entry_spec` returns the least index carrying `name`, or `None` when
/// no entry carries it.
pub proof fn lemma_find_entry(es: Seq<EntryV>, name: Seq<u8>)
    ensures
        match find_entry_spec(es, name) {
            Some(i) => 0 <= i < es.len() && es[i].name == name && forall|j: int|
                0 <= j < i ==> es[j].name != name,
            None => forall|j: int| 0 <= j < es.len() ==> es[j].name != name,
        },
    decreases es.len(),
{
    if es.len() > 0 && es[0].name != name {
        lemma_find_entry(es.drop_first(), name);
        assert forall|j: int| 1 <= j < es.len() implies es.drop_first()[j - 1] == es[j] by {}
    }
}

/// Converse direction: an entry named `name` whose predecessors all carry
/// other names is the one `find_entry_spec` points at.
pub proof fn lemma_find_entry_at(es: Seq<EntryV>, name: Seq<u8>, i: int)
    requires
        0 <= i < es.len(),
        es[i].name == name,
        forall|j: int| 0 <= j < i ==> es[j].name != name,
    ensures
        find_entry_spec(es, name) == Some(i),
{
    lemma_find_entry(es, name);
    match find_entry_spec(es, name) {
        None => {
            assert(es[i].name != name);
        },
        Some(k) => {
            if k < i {
                assert(es[k].name != name);
            }
            if i < k {
                assert(es[i].name != name);
            }
        },
    }
}

/// Overlay-copying a subtree rooted at `src` onto the node (or absence of one)
/// at the same position of the destination. Mirrors a depth-first, pre-order
/// directory walk: a source that is not a directory cannot be enumerated;
/// a missing destination directory is created empty; then each source entry is
/// merged in listing order, the first failure aborting the whole walk.
pub open spec fn copy_node_spec(src: TreeV, dst: Option<TreeV>) -> Result<TreeV, ()>
    decreases src, 0int,
{
    match src {
        TreeV::File { .. } => Err(()),
        TreeV::Dir { entries } => {
            let start = match dst {
                None => TreeV::Dir { entries: Seq::empty() },
                Some(d) => d,
            };
            fold_entries_spec(entries, start)
        },
    }
}

/// Merges the source entries `es`, in order, into the destination node `cur`.
pub open spec fn fold_entries_spec(es: Seq<EntryV>, cur: TreeV) -> Result<TreeV, ()>
    decreases es, 2int,
{
    if es.len() == 0 {
        Ok(cur)
    } else {
        match step_entry_spec(es[0], cur) {
            Err(e) => Err(e),
            Ok(c2) => fold_entries_spec(es.drop_first(), c2),
        }
    }
}

/// Merges one source entry into the destination node `cur`: a file entry
/// overwrites a same-named file (never a directory); a directory entry
/// recurses. Any entry fails when `cur` is itself a regular file, as writing
/// beneath a file does.
pub open spec fn step_entry_spec(e: EntryV, cur: TreeV) -> Result<TreeV, ()>
    decreases e, 1int,
{
    match cur {
        TreeV::File { .. } => Err(()),
        TreeV::Dir { entries: des } => match e.node {
            TreeV::File { .. } => match find_entry_spec(des, e.name) {
                Some(i) => if des[i].node is Dir {
                    Err(())
                } else {
                    Ok(TreeV::Dir { entries: des.update(i, e) })
                },
                None => Ok(TreeV::Dir { entries: des.push(e) }),
            },
            TreeV::Dir { .. } => match find_entry_spec(des, e.name) {
                Some(i) => match copy_node_spec(e.node, Some(des[i].node)) {
                    Err(err) => Err(err),
                    Ok(sub) => Ok(
                        TreeV::Dir { entries: des.update(i, EntryV { name: e.name, node: sub }) },
                    ),
                },
                None => match copy_node_spec(e.node, None) {
                    Err(err) => Err(err),
                    Ok(sub) => Ok(
                        TreeV::Dir { entries: des.push(EntryV { name: e.name, node: sub }) },
                    ),
                },
            },
        },
    }
}

/// The whole tree copy: an absent source is a no-op that leaves the
/// destination exactly as it was.
pub open spec fn copy_spec(src: Option<TreeV>, dst: Option<TreeV>) -> Result<
    Option<TreeV>,
    (),
> {
    match src {
        None => Ok(dst),
        Some(s) => match copy_node_spec(s, dst) {
            Ok(t) => Ok(Some(t)),
            Err(e) => Err(e),
        },
    }
}

/// Well-formedness: within any directory, entry names are distinct.
pub open spec fn wf_entries(es: Seq<EntryV>) -> bool
    decreases es, 2int,
{
    &&& forall|i: int, j: int| 0 <= i < j < es.len() ==> es[i].name != es[j].name
    &&& forall|i: int| 0 <= i < es.len() ==> wf_tree(#[trigger] es[i].node)
}

pub open spec fn wf_tree(t: TreeV) -> bool
    decreases t, 0int,
{
    match t {
        TreeV::File { .. } => true,
        TreeV::Dir { entries } => wf_entries(entries),
    }
}

pub open spec fn wf_opt(o: Option<TreeV>) -> bool {
    match o {
        None => true,
        Some(t) => wf_tree(t),
    }
}

/// The child of `t` named `name`, when `t` is a directory that has one.
pub open spec fn lookup_spec(t: TreeV, name: Seq<u8>) -> Option<TreeV> {
    match t {
        TreeV::File { .. } => None,
        TreeV::Dir { entries } => match find_entry_spec(entries, name) {
            None => None,
            Some(i) => Some(entries[i].node),
        },
    }
}

/// The node reached from `t` along the relative path `path` (a sequence of
/// entry names), if every step exists.
pub open spec fn node_at(t: TreeV, path: Seq<Seq<u8>>) -> Option<TreeV>
    decreases path.len(),
{
    if path.len() == 0 {
        Some(t)
    } else {
        match lookup_spec(t, path[0]) {
            None => None,
            Some(c) => node_at(c, path.drop_first()),
        }
    }
}

/// Whether the relative path `path` names a directory or regular file of `t`.
pub open spec fn has_path(t: TreeV, path: Seq<Seq<u8>>) -> bool {
    node_at(t, path) is Some
}

/// Dropping the first exec entry drops the first viewed entry.
pub proof fn lemma_entries_view_drop(s: Seq<DirEntry>)
    requires
        s.len() > 0,
    ensures
        entries_view(s).drop_first() == entries_view(s.drop_first()),
        entries_view(s)[0] == entry_view(s[0]),
        entries_view(s).len() == s.len(),
{
    lemma_entries_view(s);
    assert(entries_view(s).drop_first() =~= entries_view(s.drop_first()));
}

/// Updating one exec entry updates the one viewed entry.
pub proof fn lemma_entries_view_update(s: Seq<DirEntry>, i: int, d: DirEntry)
    requires
        0 <= i < s.len(),
    ensures
        entries_view(s.update(i, d)) == entries_view(s).update(i, entry_view(d)),
{
    lemma_entries_view(s);
    lemma_entries_view(s.update(i, d));
    assert forall|k: int| 0 <= k < s.len() implies entries_view(s.update(i, d))[k]
        == entries_view(s).update(i, entry_view(d))[k] by {
        assert(entries_view(s.update(i, d))[k] == entry_view(s.update(i, d)[k]));
        if k != i {
            assert(entries_view(s)[k] == entry_view(s[k]));
        }
    }
    assert(entries_view(s.update(i, d)) =~= entries_view(s).update(i, entry_view(d)));
}

/// Appending an exec entry appends its view.
pub proof fn lemma_entries_view_push(s: Seq<DirEntry>, d: DirEntry)
    ensures
        entries_view(s.push(d)) == entries_view(s).push(entry_view(d)),
{
    lemma_entries_view(s);
    lemma_entries_view(s.push(d));
    assert forall|k: int| 0 <= k < s.len() + 1 implies entries_view(s.push(d))[k]
        == entries_view(s).push(entry_view(d))[k] by {
        assert(entries_view(s.push(d))[k] == entry_view(s.push(d)[k]));
        if k < s.len() {
            assert(entries_view(s)[k] == entry_view(s[k]));
            assert(s.push(d)[k] == s[k]);
        }
    }
    assert(entries_view(s.push(d)) =~= entries_view(s).push(entry_view(d)));
}

/// Removing at `i` and inserting back at `i` is an in-place update.
pub proof fn lemma_remove_insert(s: Seq<DirEntry>, i: int, d: DirEntry)
    requires
        0 <= i < s.len(),
    ensures
        s.remove(i).insert(i, d) == s.update(i, d),
{
    assert(s.remove(i).insert(i, d) =~= s.update(i, d));
}

fn names_equal(a: &Vec<u8>, b: &Vec<u8>) -> (r: bool)
    ensures
        r == (a@ == b@),
{
    if a.len() != b.len() {
        return false;
    }
    let mut i: usize = 0;
    while i < a.len()
        invariant
            a@.len() == b@.len(),
            0 <= i <= a@.len(),
            forall|j: int| 0 <= j < i ==> a@[j] == b@[j],
        decreases a@.len() - i,
    {
        if a[i] != b[i] {
            return false;
        }
        i = i + 1;
    }
    proof {
        assert(a@ =~= b@);
    }
    true
}

/// Index of the first entry of `es` named `name`, matching `find_entry_spec`
/// on the views.
pub(crate) fn find_entry(es: &Vec<DirEntry>, name: &Vec<u8>) -> (r: Option<usize>)
    ensures
        match r {
            Some(i) => i < es@.len() && find_entry_spec(entries_view(es@), name@) == Some(
                i as int,
            ),
            None => find_entry_spec(entries_view(es@), name@) is None,
        },
{
    let mut i: usize = 0;
    while i < es.len()
        invariant
            0 <= i <= es@.len(),
            forall|j: int| 0 <= j < i ==> es@[j].name@ != name@,
        decreases es@.len() - i,
    {
        if names_equal(&es[i].name, name) {
            proof {
                lemma_entries_view(es@);
                assert forall|j: int| 0 <= j < i implies entries_view(es@)[j].name != name@ by {
                    assert(entries_view(es@)[j] == entry_view(es@[j]));
                }
                assert(entries_view(es@)[i as int] == entry_view(es@[i as int]));
                lemma_find_entry_at(entries_view(es@), name@, i as int);
            }
            return Some(i);
        }
        i = i + 1;
    }
    proof {
        lemma_entries_view(es@);
        lemma_find_entry(entries_view(es@), name@);
        if find_entry_spec(entries_view(es@), name@) is Some {
            let k = find_entry_spec(entries_view(es@), name@)->Some_0;
            assert(entries_view(es@)[k].name == name@);
            assert(es@[k].name@ != name@);
        }
    }
    None
}

fn node_is_dir(n: &FsNode) -> (r: bool)
    ensures
        r == (node_view(*n) is Dir),
{
    match n {
        FsNode::Dir { .. } => true,
        FsNode::File { .. } => false,
    }
}

/// Pushes `name` onto the front of a copy failure's diagnostic path.
fn prepend_path(err: SetupError, name: Vec<u8>) -> (r: SetupError)
    ensures
        (r is CopyFailed) == (err is CopyFailed),
{
    match err {
        SetupError::CopyFailed { path, cause } => {
            let mut path = path;
            path.insert(0, name);
            SetupError::CopyFailed { path, cause }
        },
        other => other,
    }
}

fn copy_node(src: FsNode, dst: Option<FsNode>) -> (r: Result<FsNode, SetupError>)
    ensures
        (r is Ok) == (copy_node_spec(node_view(src), opt_view(dst)) is Ok),
        r matches Ok(t) ==> copy_node_spec(node_view(src), opt_view(dst)) == Ok::<TreeV, ()>(
            node_view(t),
        ),
        r matches Err(e) ==> e is CopyFailed,
    decreases src, 0int,
{
    match src {
        FsNode::File { .. } => Err(
            SetupError::CopyFailed { path: Vec::new(), cause: CopyCause::SourceNotADirectory },
        ),
        FsNode::Dir { entries } => {
            let start = match dst {
                None => FsNode::Dir { entries: Vec::new() },
                Some(d) => d,
            };
            copy_entries(entries, start)
        },
    }
}

fn copy_entries(es: Vec<DirEntry>, cur: FsNode) -> (r: Result<FsNode, SetupError>)
    ensures
        (r is Ok) == (fold_entries_spec(entries_view(es@), node_view(cur)) is Ok),
        r matches Ok(t) ==> fold_entries_spec(entries_view(es@), node_view(cur)) == Ok::<
            TreeV,
            (),
        >(node_view(t)),
        r matches Err(e) ==> e is CopyFailed,
    decreases es@, 3int,
{
    let ghost es0 = es@;
    let ghost curv = node_view(cur);
    let mut es = es;
    if es.len() == 0 {
        return Ok(cur);
    }
    proof {
        lemma_entries_view_drop(es0);
    }
    let e = es.remove(0);
    proof {
        assert(es@ =~= es0.drop_first());
    }
    let ghost ev = entry_view(e);
    let DirEntry { name, node } = e;
    let stepped: FsNode = match cur {
        FsNode::File { .. } => {
            let mut p: Vec<Vec<u8>> = Vec::new();
            p.push(name);
            return Err(
                SetupError::CopyFailed { path: p, cause: CopyCause::DestinationNotADirectory },
            );
        },
        FsNode::Dir { entries: des } => {
            let mut des = des;
            let ghost desv = des@;
            let found = find_entry(&des, &name);
            proof {
                lemma_entries_view(desv);
            }
            if node_is_dir(&node) {
                match found {
                    Some(i) => {
                        let old_e = des.remove(i);
                        proof {
                            assert(decreases_to!(es0 => es0[0].node));
                        }
                        match copy_node(node, Some(old_e.node)) {
                            Err(err) => {
                                return Err(prepend_path(err, name));
                            },
                            Ok(sub) => {
                                des.insert(i, DirEntry { name, node: sub });
                                proof {
                                    lemma_remove_insert(
                                        desv,
                                        i as int,
                                        DirEntry { name: name, node: sub },
                                    );
                                    assert(des@ == desv.update(
                                        i as int,
                                        DirEntry { name: name, node: sub },
                                    ));
                                    lemma_entries_view_update(
                                        desv,
                                        i as int,
                                        DirEntry { name: name, node: sub },
                                    );
                                }
                                FsNode::Dir { entries: des }
                            },
                        }
                    },
                    None => {
                        proof {
                            assert(decreases_to!(es0 => es0[0].node));
                        }
                        match copy_node(node, None) {
                            Err(err) => {
                                return Err(prepend_path(err, name));
                            },
                            Ok(sub) => {
                                proof {
                                    lemma_entries_view_push(desv, DirEntry { name: name, node: sub });
                                }
                                des.push(DirEntry { name, node: sub });
                                FsNode::Dir { entries: des }
                            },
                        }
                    },
                }
            } else {
                match found {
                    Some(i) => {
                        if node_is_dir(&des[i].node) {
                            let mut p: Vec<Vec<u8>> = Vec::new();
                            p.push(name);
                            return Err(
                                SetupError::CopyFailed {
                                    path: p,
                                    cause: CopyCause::DestinationIsADirectory,
                                },
                            );
                        }
                        let _old_e = des.remove(i);
                        des.insert(i, DirEntry { name, node });
                        proof {
                            lemma_remove_insert(desv, i as int, DirEntry { name: name, node: node });
                            lemma_entries_view_update(
                                desv,
                                i as int,
                                DirEntry { name: name, node: node },
                            );
                        }
                        FsNode::Dir { entries: des }
                    },
                    None => {
                        proof {
                            lemma_entries_view_push(desv, DirEntry { name: name, node: node });
                        }
                        des.push(DirEntry { name, node });
                        FsNode::Dir { entries: des }
                    },
                }
            }
        },
    };
    proof {
        assert(entries_view(es0)[0] == ev);
        assert(step_entry_spec(ev, curv) == Ok::<TreeV, ()>(node_view(stepped)));
        assert(entries_view(es@) == entries_view(es0).drop_first());
    }
    copy_entries(es, stepped)
}

/// Overlay-copies the subtree at `src` onto `dst`: directories merge, source
/// files overwrite same-named destination files, destination entries absent
/// from the source are left untouched, and an absent source is a no-op. The
/// result is exactly `copy_spec` of the two views; the only failure kind is
/// `CopyFailed`.
pub fn copy_tree(src: Option<FsNode>, dst: Option<FsNode>) -> (r: Result<
    Option<FsNode>,
    SetupError,
>)
    ensures
        (r is Ok) == (copy_spec(opt_view(src), opt_view(dst)) is Ok),
        r matches Ok(t) ==> copy_spec(opt_view(src), opt_view(dst)) == Ok::<Option<TreeV>, ()>(
            opt_view(t),
        ),
        r matches Err(e) ==> e is CopyFailed,
        src is None ==> r == Ok::<Option<FsNode>, SetupError>(dst),
{
    match src {
        None => Ok(dst),
        Some(s) => match copy_node(s, dst) {
            Ok(t) => Ok(Some(t)),
            Err(e) => Err(e),
        },
    }
}

} // verus!

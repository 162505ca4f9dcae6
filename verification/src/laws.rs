//! Proved properties of the overlay copy: an absent source is a no-op, a copy
//! into a fresh destination reproduces the source tree exactly, every source
//! file ends up at its path with its bytes and permission bits, overlay
//! overwrites colliding files, and the whole copy is idempotent.

use vstd::prelude::*;

use crate::tree::copy_node_spec;
use crate::tree::copy_spec;
use crate::tree::find_entry_spec;
use crate::tree::fold_entries_spec;
use crate::tree::has_path;
use crate::tree::lemma_find_entry;
use crate::tree::lemma_find_entry_at;
use crate::tree::lookup_spec;
use crate::tree::node_at;
use crate::tree::step_entry_spec;
use crate::tree::wf_entries;
use crate::tree::wf_opt;
use crate::tree::wf_tree;
use crate::tree::EntryV;
use crate::tree::TreeV;

verus! {

/// Two entry sequences whose names agree index by index are searched alike.
proof fn lemma_find_same_names(es1: Seq<EntryV>, es2: Seq<EntryV>, n: Seq<u8>)
    requires
        es1.len() == es2.len(),
        forall|k: int| 0 <= k < es1.len() ==> es1[k].name == #[trigger] es2[k].name,
    ensures
        find_entry_spec(es1, n) == find_entry_spec(es2, n),
{
    lemma_find_entry(es1, n);
    lemma_find_entry(es2, n);
    match find_entry_spec(es1, n) {
        Some(i) => {
            lemma_find_entry_at(es2, n, i);
        },
        None => {
            if find_entry_spec(es2, n) is Some {
                let k = find_entry_spec(es2, n)->Some_0;
                assert(es1[k].name != n);
            }
        },
    }
}

/// Dropping the first entry keeps the rest well-formed.
proof fn lemma_wf_entries_drop(es: Seq<EntryV>)
    requires
        wf_entries(es),
        es.len() > 0,
    ensures
        wf_entries(es.drop_first()),
        wf_tree(es[0].node),
    decreases 0int,
{
    let rest = es.drop_first();
    assert forall|i: int, j: int| 0 <= i < j < rest.len() implies rest[i].name != rest[j].name by {
        assert(rest[i] == es[i + 1]);
        assert(rest[j] == es[j + 1]);
    }
    assert forall|i: int| 0 <= i < rest.len() implies wf_tree(#[trigger] rest[i].node) by {
        assert(rest[i] == es[i + 1]);
        assert(wf_tree(es[i + 1].node));
    }
}

/// A successful merge step of an entry named otherwise than `n` does not
/// change what the destination holds at `n`.
proof fn lemma_step_absent(e: EntryV, cur: TreeV, n: Seq<u8>)
    requires
        step_entry_spec(e, cur) is Ok,
        e.name != n,
    ensures
        lookup_spec(step_entry_spec(e, cur)->Ok_0, n) == lookup_spec(cur, n),
{
    let c2 = step_entry_spec(e, cur)->Ok_0;
    let des = cur->Dir_entries;
    let des2 = c2->Dir_entries;
    lemma_find_entry(des, e.name);
    lemma_find_entry(des, n);
    match find_entry_spec(des, e.name) {
        Some(i) => {
            assert(des[i].name == e.name);
            assert forall|k: int| 0 <= k < des2.len() implies des[k].name
                == #[trigger] des2[k].name by {}
            lemma_find_same_names(des2, des, n);
            if find_entry_spec(des, n) is Some {
                let k = find_entry_spec(des, n)->Some_0;
                assert(des[k].name == n);
                assert(k != i);
                assert(des2[k].node == des[k].node);
            }
        },
        None => {
            // the new entry is appended; its name is e.name != n
            lemma_find_entry(des2, n);
            match find_entry_spec(des, n) {
                Some(k) => {
                    assert(des2[k] == des[k]);
                    assert forall|j: int| 0 <= j < k implies des2[j].name != n by {
                        assert(des2[j] == des[j]);
                        assert(des[j].name != n);
                    }
                    lemma_find_entry_at(des2, n, k);
                },
                None => {
                    if find_entry_spec(des2, n) is Some {
                        let k = find_entry_spec(des2, n)->Some_0;
                        assert(des2[k].name == n);
                        if k < des.len() {
                            assert(des2[k] == des[k]);
                            assert(des[k].name != n);
                        } else {
                            assert(des2[k].name == e.name);
                        }
                    }
                },
            }
        },
    }
}

/// Folding entries whose names all differ from `n` does not change what the
/// destination holds at `n`.
proof fn lemma_fold_absent(es: Seq<EntryV>, cur: TreeV, n: Seq<u8>)
    requires
        fold_entries_spec(es, cur) is Ok,
        forall|j: int| 0 <= j < es.len() ==> (#[trigger] es[j].name) != n,
    ensures
        lookup_spec(fold_entries_spec(es, cur)->Ok_0, n) == lookup_spec(cur, n),
    decreases es.len(),
{
    if es.len() > 0 {
        let e = es[0];
        let c2 = step_entry_spec(e, cur)->Ok_0;
        assert(es[0].name != n);
        lemma_step_absent(e, cur, n);
        let rest = es.drop_first();
        assert forall|k: int| 0 <= k < rest.len() implies (#[trigger] rest[k].name) != n by {
            assert(rest[k] == es[k + 1]);
            assert(es[k + 1].name != n);
        }
        lemma_fold_absent(rest, c2, n);
    }
}

/// Witness that a directory entry `e` was merged into some destination child
/// `d0`, the merge succeeded with result `x`, and `r` holds `x` under the
/// entry's name.
spec fn dir_merge_witness(e: EntryV, r: TreeV, d0: Option<TreeV>, x: TreeV) -> bool {
    &&& copy_node_spec(e.node, d0) == Ok::<TreeV, ()>(x)
    &&& lookup_spec(r, e.name) == Some(x)
}

/// After a successful fold, the result holds the entry's own file, or the
/// successful merge of the entry's directory.
spec fn entry_settled(e: EntryV, r: TreeV) -> bool {
    match e.node {
        TreeV::File { .. } => lookup_spec(r, e.name) == Some(e.node),
        TreeV::Dir { .. } => exists|d0: Option<TreeV>, x: TreeV|
            #[trigger] dir_merge_witness(e, r, d0, x),
    }
}

/// The exact outcome of a successful fold at one entry, relative to the
/// destination `cur` the fold started from: a file entry lands unchanged
/// (and the destination held no directory under its name); a directory entry
/// lands as the successful merge with the destination's own child under that
/// name.
spec fn entry_outcome(e: EntryV, cur: TreeV, r: TreeV) -> bool {
    match e.node {
        TreeV::File { .. } => {
            &&& lookup_spec(r, e.name) == Some(e.node)
            &&& !(lookup_spec(cur, e.name) matches Some(x) && x is Dir)
        },
        TreeV::Dir { .. } => {
            &&& copy_node_spec(e.node, lookup_spec(cur, e.name)) is Ok
            &&& lookup_spec(r, e.name) == Some(
                copy_node_spec(e.node, lookup_spec(cur, e.name))->Ok_0,
            )
        },
    }
}

/// Every entry of a successfully folded, well-formed sequence has its exact
/// outcome in the result.
proof fn lemma_fold_settles(es: Seq<EntryV>, cur: TreeV, j: int)
    requires
        wf_entries(es),
        fold_entries_spec(es, cur) is Ok,
        0 <= j < es.len(),
    ensures
        entry_outcome(es[j], cur, fold_entries_spec(es, cur)->Ok_0),
    decreases es.len(),
{
    let e = es[0];
    let c2 = step_entry_spec(e, cur)->Ok_0;
    let r = fold_entries_spec(es, cur)->Ok_0;
    let des = cur->Dir_entries;
    let des2 = c2->Dir_entries;
    lemma_find_entry(des, e.name);
    if j == 0 {
        let n = e.name;
        // after the step, c2 holds the merged entry under n
        match find_entry_spec(des, n) {
            Some(i) => {
                assert forall|k: int| 0 <= k < i implies des2[k].name != n by {
                    assert(des2[k] == des[k]);
                }
                assert(des2[i].name == n);
                lemma_find_entry_at(des2, n, i);
            },
            None => {
                assert forall|k: int| 0 <= k < des.len() implies des2[k].name != n by {
                    assert(des2[k] == des[k]);
                }
                assert(des2[des.len() as int].name == n);
                lemma_find_entry_at(des2, n, des.len() as int);
            },
        }
        match e.node {
            TreeV::File { .. } => {
                assert(lookup_spec(c2, n) == Some(e.node));
                match find_entry_spec(des, n) {
                    Some(i) => {
                        assert(lookup_spec(cur, n) == Some(des[i].node));
                        assert(!(des[i].node is Dir));
                    },
                    None => {
                        assert(lookup_spec(cur, n) is None);
                    },
                }
            },
            TreeV::Dir { .. } => {
                match find_entry_spec(des, n) {
                    Some(i) => {
                        assert(lookup_spec(cur, n) == Some(des[i].node));
                        let sub = copy_node_spec(e.node, Some(des[i].node))->Ok_0;
                        assert(lookup_spec(c2, n) == Some(sub));
                    },
                    None => {
                        assert(lookup_spec(cur, n) is None);
                        let sub = copy_node_spec(e.node, None)->Ok_0;
                        assert(lookup_spec(c2, n) == Some(sub));
                    },
                }
            },
        }
        // the remaining entries carry other names, so the merge survives
        let rest = es.drop_first();
        assert forall|k: int| 0 <= k < rest.len() implies (#[trigger] rest[k].name) != n by {
            assert(rest[k] == es[k + 1]);
            assert(es[0].name != es[k + 1].name);
        }
        lemma_fold_absent(rest, c2, n);
        assert(lookup_spec(r, n) == lookup_spec(c2, n));
    } else {
        let rest = es.drop_first();
        lemma_wf_entries_drop(es);
        lemma_fold_settles(rest, c2, j - 1);
        assert(rest[j - 1] == es[j]);
        let n = es[j].name;
        assert(es[0].name != n);
        lemma_step_absent(e, cur, n);
        assert(lookup_spec(c2, n) == lookup_spec(cur, n));
    }
}

/// Content, permission and structural fidelity of a successful copy: every
/// source path is present in the result, and every source regular file is
/// present there unchanged — bytes and permission bits alike.
pub proof fn lemma_copy_preserves_source(src: TreeV, dst: Option<TreeV>, p: Seq<Seq<u8>>)
    requires
        wf_tree(src),
        copy_node_spec(src, dst) is Ok,
    ensures
        node_at(src, p) is Some && node_at(src, p)->Some_0 is File ==> node_at(
            copy_node_spec(src, dst)->Ok_0,
            p,
        ) == node_at(src, p),
        node_at(src, p) is Some ==> node_at(copy_node_spec(src, dst)->Ok_0, p) is Some,
    decreases p.len(),
{
    let t = copy_node_spec(src, dst)->Ok_0;
    if node_at(src, p) is Some {
        if p.len() == 0 {
        } else {
            let es = src->Dir_entries;
            let start = match dst {
                None => TreeV::Dir { entries: Seq::<EntryV>::empty() },
                Some(d) => d,
            };
            lemma_find_entry(es, p[0]);
            let j = find_entry_spec(es, p[0])->Some_0;
            let c = es[j].node;
            lemma_fold_settles(es, start, j);
            match c {
                TreeV::File { .. } => {
                    assert(lookup_spec(t, p[0]) == Some(c));
                    if p.len() == 1 {
                        assert(node_at(c, p.drop_first()) == Some(c));
                    } else {
                        assert(node_at(src, p) == node_at(c, p.drop_first()));
                        assert(node_at(c, p.drop_first()) is None);
                    }
                },
                TreeV::Dir { .. } => {
                    let d0 = lookup_spec(start, p[0]);
                    let x = copy_node_spec(c, d0)->Ok_0;
                    assert(wf_tree(c));
                    lemma_copy_preserves_source(c, d0, p.drop_first());
                    assert(node_at(t, p) == node_at(x, p.drop_first()));
                },
            }
        }
    }
}

/// An absent source is a no-op: the destination comes back exactly as it was.
pub proof fn lemma_absent_source_noop(dst: Option<TreeV>)
    ensures
        copy_spec(None, dst) == Ok::<Option<TreeV>, ()>(dst),
{
}

/// Copying a well-formed directory tree into an absent destination reproduces
/// the source exactly.
pub proof fn lemma_copy_into_absent(src: TreeV)
    requires
        wf_tree(src),
        src is Dir,
    ensures
        copy_node_spec(src, None) == Ok::<TreeV, ()>(src),
    decreases src, 0int,
{
    let es = src->Dir_entries;
    lemma_fold_into_fresh(es, Seq::empty());
    assert(Seq::<EntryV>::empty() + es =~= es);
}

/// Folding well-formed entries into a fresh directory that already holds
/// `done` (whose names are disjoint from the entries') appends the entries
/// unchanged.
proof fn lemma_fold_into_fresh(es: Seq<EntryV>, done: Seq<EntryV>)
    requires
        wf_entries(es),
        forall|k: int, j: int|
            0 <= k < done.len() && 0 <= j < es.len() ==> (#[trigger] done[k].name) != (
            #[trigger] es[j].name),
    ensures
        fold_entries_spec(es, TreeV::Dir { entries: done }) == Ok::<TreeV, ()>(
            TreeV::Dir { entries: done + es },
        ),
    decreases es, 1int,
{
    if es.len() == 0 {
        assert(done + es =~= done);
    } else {
        let e = es[0];
        lemma_find_entry(done, e.name);
        if find_entry_spec(done, e.name) is Some {
            let k = find_entry_spec(done, e.name)->Some_0;
            assert(done[k].name != es[0].name);
        }
        assert(find_entry_spec(done, e.name) is None);
        match e.node {
            TreeV::File { .. } => {},
            TreeV::Dir { .. } => {
                assert(wf_tree(e.node));
                lemma_copy_into_absent(e.node);
            },
        }
        assert(EntryV { name: e.name, node: e.node } == e);
        assert(step_entry_spec(e, TreeV::Dir { entries: done }) == Ok::<TreeV, ()>(
            TreeV::Dir { entries: done.push(e) },
        ));
        let rest = es.drop_first();
        lemma_wf_entries_drop(es);
        assert forall|k: int, j: int|
            0 <= k < done.push(e).len() && 0 <= j < rest.len() implies (
        #[trigger] done.push(e)[k].name) != (#[trigger] rest[j].name) by {
            assert(rest[j] == es[j + 1]);
            if k < done.len() {
                assert(done[k].name != es[j + 1].name);
            } else {
                assert(done.push(e)[k] == e);
                assert(es[0].name != es[j + 1].name);
            }
        }
        lemma_fold_into_fresh(rest, done.push(e));
        assert(done.push(e) + rest =~= done + es);
    }
}

/// The node an optional tree holds at `path`.
pub open spec fn opt_node_at(o: Option<TreeV>, path: Seq<Seq<u8>>) -> Option<TreeV> {
    match o {
        None => None,
        Some(t) => node_at(t, path),
    }
}

/// Structural fidelity of the overlay: a successful copy holds exactly the
/// union of the source's relative paths and the destination's.
pub proof fn lemma_path_union(src: TreeV, dst: Option<TreeV>, p: Seq<Seq<u8>>)
    requires
        wf_tree(src),
        copy_node_spec(src, dst) is Ok,
    ensures
        has_path(copy_node_spec(src, dst)->Ok_0, p) == (has_path(src, p) || opt_node_at(
            dst,
            p,
        ) is Some),
    decreases p.len(),
{
    let t = copy_node_spec(src, dst)->Ok_0;
    let es = src->Dir_entries;
    let start = match dst {
        None => TreeV::Dir { entries: Seq::<EntryV>::empty() },
        Some(d) => d,
    };
    if p.len() == 0 {
    } else {
        let n = p[0];
        let rest = p.drop_first();
        // with a non-empty path, the fresh empty directory holds nothing, so
        // `start` can stand for the destination
        if dst is None {
            lemma_find_entry(Seq::<EntryV>::empty(), n);
        }
        assert(node_at(start, p) == opt_node_at(dst, p));
        lemma_find_entry(es, n);
        match find_entry_spec(es, n) {
            Some(j) => {
                let c = es[j].node;
                lemma_fold_settles(es, start, j);
                match c {
                    TreeV::File { .. } => {
                        assert(lookup_spec(t, n) == Some(c));
                        if rest.len() == 0 {
                        } else {
                            assert(node_at(c, rest) is None);
                            match lookup_spec(start, n) {
                                Some(x) => {
                                    assert(!(x is Dir));
                                    assert(node_at(x, rest) is None);
                                },
                                None => {},
                            }
                        }
                    },
                    TreeV::Dir { .. } => {
                        let d0 = lookup_spec(start, n);
                        let x = copy_node_spec(c, d0)->Ok_0;
                        assert(lookup_spec(t, n) == Some(x));
                        assert(wf_tree(c));
                        lemma_path_union(c, d0, rest);
                        assert(node_at(t, p) == node_at(x, rest));
                        assert(opt_node_at(d0, rest) == node_at(start, p));
                    },
                }
            },
            None => {
                lemma_fold_absent(es, start, n);
                assert(lookup_spec(t, n) == lookup_spec(start, n));
                assert(lookup_spec(src, n) is None);
            },
        }
    }
}

/// Structural fidelity into a fresh destination: the copy holds exactly the
/// relative paths of the source.
pub proof fn lemma_structural_fidelity(src: TreeV, p: Seq<Seq<u8>>)
    requires
        wf_tree(src),
        src is Dir,
    ensures
        copy_node_spec(src, None) is Ok,
        has_path(copy_node_spec(src, None)->Ok_0, p) == has_path(src, p),
{
    lemma_copy_into_absent(src);
}

/// Content and permission fidelity: after a successful copy, every regular
/// file of the source sits at its path in the result with identical bytes and
/// identical permission bits.
pub proof fn lemma_file_fidelity(src: TreeV, dst: Option<TreeV>, p: Seq<Seq<u8>>)
    requires
        wf_tree(src),
        copy_node_spec(src, dst) is Ok,
        node_at(src, p) is Some,
        node_at(src, p)->Some_0 is File,
    ensures
        node_at(copy_node_spec(src, dst)->Ok_0, p) == node_at(src, p),
{
    lemma_copy_preserves_source(src, dst, p);
}

/// Overlay overwrites: when the destination already holds a regular file at a
/// path the source also holds as a regular file, the result holds the source's
/// file there — not the destination's.
pub proof fn lemma_overlay_overwrites(src: TreeV, dst: TreeV, p: Seq<Seq<u8>>)
    requires
        wf_tree(src),
        copy_node_spec(src, Some(dst)) is Ok,
        node_at(src, p) is Some,
        node_at(src, p)->Some_0 is File,
        node_at(dst, p) is Some,
        node_at(dst, p)->Some_0 is File,
    ensures
        node_at(copy_node_spec(src, Some(dst))->Ok_0, p) == node_at(src, p),
{
    lemma_file_fidelity(src, Some(dst), p);
}

/// A settled entry merges into the settled tree without changing it.
proof fn lemma_refold_identity(es: Seq<EntryV>, r: TreeV)
    requires
        wf_entries(es),
        forall|j: int| 0 <= j < es.len() ==> entry_settled(#[trigger] es[j], r),
    ensures
        fold_entries_spec(es, r) == Ok::<TreeV, ()>(r),
    decreases es, 1int,
{
    if es.len() > 0 {
        let e = es[0];
        assert(entry_settled(e, r));
        let res = r->Dir_entries;
        match e.node {
            TreeV::File { .. } => {
                assert(lookup_spec(r, e.name) == Some(e.node));
                lemma_find_entry(res, e.name);
                let i = find_entry_spec(res, e.name)->Some_0;
                assert(res[i].node == e.node);
                assert(res[i].name == e.name);
                assert(res[i] == e);
                assert(res.update(i, e) =~= res);
                assert(step_entry_spec(e, r) == Ok::<TreeV, ()>(TreeV::Dir { entries: res }));
                assert(TreeV::Dir { entries: res } == r);
            },
            TreeV::Dir { .. } => {
                let (d0, x) = choose|d0: Option<TreeV>, x: TreeV| #[trigger] dir_merge_witness(
                    e,
                    r,
                    d0,
                    x,
                );
                lemma_find_entry(res, e.name);
                let i = find_entry_spec(res, e.name)->Some_0;
                assert(res[i].node == x);
                assert(wf_tree(e.node));
                lemma_copy_idempotent_node(e.node, d0);
                assert(copy_node_spec(e.node, Some(x)) == Ok::<TreeV, ()>(x));
                assert(res.update(i, EntryV { name: e.name, node: x }) =~= res);
                assert(step_entry_spec(e, r) == Ok::<TreeV, ()>(TreeV::Dir { entries: res }));
                assert(TreeV::Dir { entries: res } == r);
            },
        }
        lemma_wf_entries_drop(es);
        assert forall|j: int| 0 <= j < es.drop_first().len() implies entry_settled(
            #[trigger] es.drop_first()[j],
            r,
        ) by {
            assert(es.drop_first()[j] == es[j + 1]);
            assert(entry_settled(es[j + 1], r));
        }
        lemma_refold_identity(es.drop_first(), r);
    }
}

/// Idempotence at a node: copying the same well-formed source onto the result
/// of a successful copy reproduces that result.
proof fn lemma_copy_idempotent_node(src: TreeV, dst: Option<TreeV>)
    requires
        wf_tree(src),
        copy_node_spec(src, dst) is Ok,
    ensures
        copy_node_spec(src, Some(copy_node_spec(src, dst)->Ok_0)) == Ok::<TreeV, ()>(
            copy_node_spec(src, dst)->Ok_0,
        ),
    decreases src, 0int,
{
    let es = src->Dir_entries;
    let start = match dst {
        None => TreeV::Dir { entries: Seq::<EntryV>::empty() },
        Some(d) => d,
    };
    let t = copy_node_spec(src, dst)->Ok_0;
    assert forall|j: int| 0 <= j < es.len() implies entry_settled(#[trigger] es[j], t) by {
        lemma_fold_settles(es, start, j);
        match es[j].node {
            TreeV::File { .. } => {},
            TreeV::Dir { .. } => {
                let d0 = lookup_spec(start, es[j].name);
                assert(dir_merge_witness(es[j], t, d0, copy_node_spec(es[j].node, d0)->Ok_0));
            },
        }
    }
    lemma_refold_identity(es, t);
}

/// Idempotence: running the copy twice in succession with an unchanged source
/// produces the same destination as running it once.
pub proof fn lemma_copy_idempotent(src: Option<TreeV>, dst: Option<TreeV>)
    requires
        wf_opt(src),
        copy_spec(src, dst) is Ok,
    ensures
        copy_spec(src, copy_spec(src, dst)->Ok_0) == copy_spec(src, dst),
{
    match src {
        None => {},
        Some(s) => {
            lemma_copy_idempotent_node(s, dst);
        },
    }
}

} // verus!

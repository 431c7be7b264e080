use crate::analyze::{
    analyze_spec, lemma_ok_children_sum_bound, ok_children, AnalyzeError,
};
use crate::fs_tree::{
    lemma_raw_total_nonneg, lemma_raw_total_seq_nonneg, raw_total, raw_total_seq, FsEntry, FsNode,
};
use crate::item::{lemma_sum_sizes_nonneg, DiskItemView};
use crate::sort::{lemma_sort_by_size_props, sort_by_size};
use vstd::prelude::*;

verus! {

/// Sum and sort invariants: every node a successful analysis yields is
/// well-formed — each directory node's `disk_size` is exactly the sum of its
/// children's `disk_size`, and the children are sorted by size in
/// non-increasing order, at every level of the tree.
pub proof fn lemma_analysis_wf(e: FsEntry, apparent: bool, root_dev: u64)
    requires
        raw_total(e, apparent) <= u64::MAX,
    ensures
        (match analyze_spec(e, apparent, root_dev) {
            Ok(v) => v.wf(),
            Err(_) => true,
        }),
    decreases e,
{
    match e.node {
        FsNode::Dir { volume_id, entries } => match entries {
            Some(es) => {
                if volume_id == root_dev {
                    lemma_ok_children_wf(es@, apparent, root_dev);
                    let ok = ok_children(es@, apparent, root_dev);
                    let kids = sort_by_size(ok);
                    lemma_sort_by_size_props(ok);
                    lemma_ok_children_sum_bound(es@, apparent, root_dev);
                    lemma_sum_sizes_nonneg(ok);
                    assert forall|i: int| 0 <= i < kids.len() implies (#[trigger] kids[i]).wf() by {
                        assert(kids.contains(kids[i]));
                        assert(ok.contains(kids[i]));
                        let j = choose|j: int| 0 <= j < ok.len() && ok[j] == kids[i];
                        assert(ok[j].wf());
                    }
                }
            },
            None => {},
        },
        _ => {},
    }
}

/// Every node among a directory's surviving children is well-formed.
pub proof fn lemma_ok_children_wf(s: Seq<FsEntry>, apparent: bool, root_dev: u64)
    requires
        raw_total_seq(s, apparent) <= u64::MAX,
    ensures
        forall|i: int|
            0 <= i < ok_children(s, apparent, root_dev).len() ==> (#[trigger] ok_children(
                s,
                apparent,
                root_dev,
            )[i]).wf(),
    decreases s,
{
    if s.len() > 0 {
        lemma_raw_total_nonneg(s.last(), apparent);
        lemma_raw_total_seq_nonneg(s.drop_last(), apparent);
        lemma_ok_children_wf(s.drop_last(), apparent, root_dev);
        lemma_analysis_wf(s.last(), apparent, root_dev);
        match analyze_spec(s.last(), apparent, root_dev) {
            Ok(v) => {
                let rest = ok_children(s.drop_last(), apparent, root_dev);
                assert forall|i: int| 0 <= i < rest.push(v).len() implies (#[trigger] rest.push(
                    v,
                )[i]).wf() by {
                    if i < rest.len() {
                        assert(rest.push(v)[i] == rest[i]);
                    } else {
                        assert(rest.push(v)[i] == v);
                    }
                }
            },
            Err(_) => {},
        }
    }
}

/// Dropping one entry whose analysis fails leaves the surviving children
/// untouched.
pub proof fn lemma_failed_entry_dropped(
    s1: Seq<FsEntry>,
    s2: Seq<FsEntry>,
    apparent: bool,
    root_dev: u64,
    i: int,
)
    requires
        0 <= i < s1.len(),
        analyze_spec(s1[i], apparent, root_dev) is Err,
        s2 == s1.remove(i),
    ensures
        ok_children(s1, apparent, root_dev) == ok_children(s2, apparent, root_dev),
    decreases s1,
{
    if i == s1.len() - 1 {
        assert(s2 =~= s1.drop_last());
    } else {
        lemma_failed_entry_dropped(
            s1.drop_last(),
            s1.drop_last().remove(i),
            apparent,
            root_dev,
            i,
        );
        assert(s2.drop_last() =~= s1.drop_last().remove(i));
        assert(s2.last() == s1.last());
    }
}

/// An entry whose analysis fails contributes nothing at all: a directory
/// analyses to the very same node it would have analysed to had the failing
/// entry not been listed. The scan itself still succeeds.
pub proof fn lemma_failed_entry_excluded(
    e1: FsEntry,
    e2: FsEntry,
    apparent: bool,
    root_dev: u64,
    i: int,
)
    requires
        e1.name@ == e2.name@,
        e1.node is Dir,
        e2.node is Dir,
        e1.node->Dir_volume_id == root_dev,
        e2.node->Dir_volume_id == root_dev,
        e1.node->Dir_entries is Some,
        e2.node->Dir_entries is Some,
        0 <= i < e1.node->Dir_entries->0@.len(),
        e2.node->Dir_entries->0@ == e1.node->Dir_entries->0@.remove(i),
        analyze_spec(e1.node->Dir_entries->0@[i], apparent, root_dev) is Err,
    ensures
        analyze_spec(e1, apparent, root_dev) is Ok,
        analyze_spec(e1, apparent, root_dev) == analyze_spec(e2, apparent, root_dev),
{
    let es1 = e1.node->Dir_entries->0@;
    let es2 = e2.node->Dir_entries->0@;
    lemma_failed_entry_dropped(es1, es2, apparent, root_dev, i);
}

/// Boundary exclusion: a mounted subtree that reports another volume is
/// excluded entirely — the parent directory analyses to the same node as if
/// the foreign subtree did not exist under it, so none of its entries appears
/// in the result and none of its bytes is counted.
pub proof fn lemma_boundary_exclusion(
    e1: FsEntry,
    e2: FsEntry,
    apparent: bool,
    root_dev: u64,
    i: int,
)
    requires
        e1.name@ == e2.name@,
        e1.node is Dir,
        e2.node is Dir,
        e1.node->Dir_volume_id == root_dev,
        e2.node->Dir_volume_id == root_dev,
        e1.node->Dir_entries is Some,
        e2.node->Dir_entries is Some,
        0 <= i < e1.node->Dir_entries->0@.len(),
        e2.node->Dir_entries->0@ == e1.node->Dir_entries->0@.remove(i),
        e1.node->Dir_entries->0@[i].node is Dir,
        e1.node->Dir_entries->0@[i].node->Dir_volume_id != root_dev,
    ensures
        analyze_spec(e1, apparent, root_dev) is Ok,
        analyze_spec(e1, apparent, root_dev) == analyze_spec(e2, apparent, root_dev),
{
    assert(analyze_spec(e1.node->Dir_entries->0@[i], apparent, root_dev) is Err);
    lemma_failed_entry_excluded(e1, e2, apparent, root_dev, i);
}

/// Missing-entry resilience: an entry that vanishes between the directory
/// listing and its probe leaves the scan intact — the parent analyses to the
/// same node as if the entry had not been listed, and its size counts
/// nothing for the vanished entry.
pub proof fn lemma_missing_entry_resilience(
    e1: FsEntry,
    e2: FsEntry,
    apparent: bool,
    root_dev: u64,
    i: int,
)
    requires
        e1.name@ == e2.name@,
        e1.node is Dir,
        e2.node is Dir,
        e1.node->Dir_volume_id == root_dev,
        e2.node->Dir_volume_id == root_dev,
        e1.node->Dir_entries is Some,
        e2.node->Dir_entries is Some,
        0 <= i < e1.node->Dir_entries->0@.len(),
        e2.node->Dir_entries->0@ == e1.node->Dir_entries->0@.remove(i),
        e1.node->Dir_entries->0@[i].node is Unreadable,
    ensures
        analyze_spec(e1, apparent, root_dev) is Ok,
        analyze_spec(e1, apparent, root_dev) == analyze_spec(e2, apparent, root_dev),
{
    assert(analyze_spec(e1.node->Dir_entries->0@[i], apparent, root_dev) is Err);
    lemma_failed_entry_excluded(e1, e2, apparent, root_dev, i);
}

/// Determinism, and with it size-mode independence: the analysis result is a
/// function of the snapshot and the two scan-wide constants alone — there is
/// no hidden state — so two scans of the same immutable tree with the same
/// mode yield identical results.
pub proof fn lemma_scan_deterministic(
    e: FsEntry,
    apparent: bool,
    root_dev: u64,
    r1: DiskItemView,
    r2: DiskItemView,
)
    requires
        analyze_spec(e, apparent, root_dev) == Ok::<DiskItemView, AnalyzeError>(r1),
        analyze_spec(e, apparent, root_dev) == Ok::<DiskItemView, AnalyzeError>(r2),
    ensures
        r1 == r2,
{
}

/// Leaf versus empty directory: a file analyses to a node without children;
/// an empty directory analyses to a node with an empty child sequence and
/// size zero. The two states are distinct.
pub proof fn lemma_leaf_vs_empty_dir(file: FsEntry, dir: FsEntry, apparent: bool, root_dev: u64)
    requires
        file.node is File,
        dir.node is Dir,
        dir.node->Dir_volume_id == root_dev,
        dir.node->Dir_entries is Some,
        dir.node->Dir_entries->0@.len() == 0,
    ensures
        analyze_spec(file, apparent, root_dev) is Ok,
        analyze_spec(file, apparent, root_dev)->Ok_0.children is None,
        analyze_spec(dir, apparent, root_dev) is Ok,
        analyze_spec(dir, apparent, root_dev)->Ok_0.children == Some(Seq::<DiskItemView>::empty()),
        analyze_spec(dir, apparent, root_dev)->Ok_0.disk_size == 0,
{
    let es = dir.node->Dir_entries->0@;
    assert(es =~= Seq::<FsEntry>::empty());
    assert(ok_children(es, apparent, root_dev) =~= Seq::<DiskItemView>::empty());
    assert(sort_by_size(ok_children(es, apparent, root_dev)) =~= Seq::<DiskItemView>::empty());
}

} // verus!

use crate::fs_tree::{
    lemma_raw_total_nonneg, lemma_raw_total_seq_element, lemma_raw_total_seq_nonneg, raw_total,
    raw_total_seq, FsEntry, FsNode,
};
use crate::item::{
    items_view, lemma_sum_sizes_nonneg, sum_item_sizes, sum_sizes, DiskItem, DiskItemView,
};
use crate::probe::{resolve_size, resolve_size_spec};
use crate::sort::{lemma_sort_by_size_props, sort_by_size, sort_items_by_size};
use rayon::iter::{IntoParallelRefIterator, ParallelIterator};
use vstd::prelude::*;

verus! {

/// Why analysing one entry failed. Every failure is scoped to its entry: the
/// parent directory's aggregation drops the entry and carries on; only a
/// failure at the scan root fails the scan.
#[derive(Clone, Copy, Debug, PartialEq, Eq, Structural)]
pub enum AnalyzeError {
    /// The entry could not be probed (vanished, permission denied, I/O error).
    Probe,
    /// The entry is a directory on a different volume than the scan root.
    BoundaryCrossed,
    /// The entry is a directory whose listing failed.
    Enumeration,
}

impl AnalyzeError {
    /// The description `message` returns for each failure.
    pub open spec fn message_spec(self) -> Seq<char> {
        match self {
            AnalyzeError::Probe => "can not get file info"@,
            AnalyzeError::BoundaryCrossed => "Filesystem boundary crossed"@,
            AnalyzeError::Enumeration => "can not list directory"@,
        }
    }

    /// A short description of the failure, for the caller to display.
    pub fn message(&self) -> (msg: &'static str)
        ensures
            msg@ == self.message_spec(),
    {
        match self {
            AnalyzeError::Probe => "can not get file info",
            AnalyzeError::BoundaryCrossed => "Filesystem boundary crossed",
            AnalyzeError::Enumeration => "can not list directory",
        }
    }
}

/// What analysing one snapshot entry yields. An unreadable entry, a directory
/// on a foreign volume, and an unlistable directory fail with their error;
/// a file becomes a leaf with its resolved size; a directory becomes a node
/// whose children are the entries that analysed successfully — sorted by
/// size, largest first — and whose size is exactly their sum.
pub open spec fn analyze_spec(e: FsEntry, apparent: bool, root_dev: u64) -> Result<
    DiskItemView,
    AnalyzeError,
>
    decreases e,
{
    match e.node {
        FsNode::Unreadable => Err(AnalyzeError::Probe),
        FsNode::File { meta } => Ok(
            DiskItemView {
                name: e.name@,
                disk_size: resolve_size_spec(meta, apparent) as u64,
                children: None,
            },
        ),
        FsNode::Dir { volume_id, entries } => {
            if volume_id != root_dev {
                Err(AnalyzeError::BoundaryCrossed)
            } else {
                match entries {
                    None => Err(AnalyzeError::Enumeration),
                    Some(es) => {
                        let kids = sort_by_size(ok_children(es@, apparent, root_dev));
                        Ok(
                            DiskItemView {
                                name: e.name@,
                                disk_size: sum_sizes(kids) as u64,
                                children: Some(kids),
                            },
                        )
                    },
                }
            }
        },
    }
}

/// The result nodes of the entries that analyse successfully, in the
/// entries' own order.
pub open spec fn ok_children(s: Seq<FsEntry>, apparent: bool, root_dev: u64) -> Seq<DiskItemView>
    decreases s,
{
    if s.len() == 0 {
        Seq::empty()
    } else {
        let rest = ok_children(s.drop_last(), apparent, root_dev);
        match analyze_spec(s.last(), apparent, root_dev) {
            Ok(v) => rest.push(v),
            Err(_) => rest,
        }
    }
}

/// Extending a prefix of entries by one appends its node when it analyses
/// successfully and changes nothing when it fails.
pub proof fn lemma_ok_children_snoc(s: Seq<FsEntry>, apparent: bool, root_dev: u64, i: int)
    requires
        0 <= i < s.len(),
    ensures
        (match analyze_spec(s[i], apparent, root_dev) {
            Ok(v) => ok_children(s.subrange(0, i + 1), apparent, root_dev) == ok_children(
                s.subrange(0, i),
                apparent,
                root_dev,
            ).push(v),
            Err(_) => ok_children(s.subrange(0, i + 1), apparent, root_dev) == ok_children(
                s.subrange(0, i),
                apparent,
                root_dev,
            ),
        }),
{
    assert(s.subrange(0, i + 1).drop_last() =~= s.subrange(0, i));
    assert(s.subrange(0, i + 1).last() == s[i]);
}

/// A successful analysis never reports more than the entry's raw total.
pub proof fn lemma_analyze_size_bound(e: FsEntry, apparent: bool, root_dev: u64)
    requires
        raw_total(e, apparent) <= u64::MAX,
    ensures
        (match analyze_spec(e, apparent, root_dev) {
            Ok(v) => v.disk_size <= raw_total(e, apparent),
            Err(_) => true,
        }),
    decreases e,
{
    match e.node {
        FsNode::Dir { volume_id, entries } => match entries {
            Some(es) => {
                if volume_id == root_dev {
                    lemma_ok_children_sum_bound(es@, apparent, root_dev);
                    lemma_sort_by_size_props(ok_children(es@, apparent, root_dev));
                    lemma_sum_sizes_nonneg(ok_children(es@, apparent, root_dev));
                }
            },
            None => {},
        },
        _ => {},
    }
}

/// The sizes of the surviving children sum to no more than the entries' raw
/// total: dropped entries only shrink the sum.
pub proof fn lemma_ok_children_sum_bound(s: Seq<FsEntry>, apparent: bool, root_dev: u64)
    requires
        raw_total_seq(s, apparent) <= u64::MAX,
    ensures
        sum_sizes(ok_children(s, apparent, root_dev)) <= raw_total_seq(s, apparent),
    decreases s,
{
    if s.len() > 0 {
        lemma_raw_total_nonneg(s.last(), apparent);
        lemma_raw_total_seq_nonneg(s.drop_last(), apparent);
        lemma_ok_children_sum_bound(s.drop_last(), apparent, root_dev);
        lemma_analyze_size_bound(s.last(), apparent, root_dev);
        match analyze_spec(s.last(), apparent, root_dev) {
            Ok(v) => {
                let rest = ok_children(s.drop_last(), apparent, root_dev);
                assert(rest.push(v).drop_last() =~= rest);
            },
            Err(_) => {},
        }
    }
}

/// Analyses the immediate entries of a directory, in parallel, one result
/// per entry in the entries' order.
///
/// Relies on rayon: on a vector, `par_iter().map(..).collect::<Vec<_>>()`
/// yields exactly the mapped results in the input's order (the iterator is
/// indexed, and collecting an indexed iterator writes each result at its
/// input's index). The closure only calls the verified
/// `DiskItem::from_analyze`, whose contract relates each result to its entry.
#[verifier::external_body]
fn analyze_entries_par(entries: &Vec<FsEntry>, apparent: bool, root_dev: u64) -> (results: Vec<
    Result<DiskItem, AnalyzeError>,
>)
    requires
        forall|i: int|
            0 <= i < entries@.len() ==> raw_total(#[trigger] entries@[i], apparent) <= u64::MAX,
    ensures
        results@.len() == entries@.len(),
        forall|i: int|
            0 <= i < results@.len() ==> (match #[trigger] results@[i] {
                Ok(item) => analyze_spec(entries@[i], apparent, root_dev) == Ok::<
                    DiskItemView,
                    AnalyzeError,
                >(item@),
                Err(err) => analyze_spec(entries@[i], apparent, root_dev) == Err::<
                    DiskItemView,
                    AnalyzeError,
                >(err),
            }),
{
    entries.par_iter().map(|entry| DiskItem::from_analyze(entry, apparent, root_dev)).collect()
}

impl DiskItem {
    /// Analyses one snapshot entry for a scan rooted on volume `root_dev`.
    /// A file becomes a childless leaf with the size the size policy
    /// resolves. A directory on the scan's volume becomes a node whose
    /// children are the entries that analysed successfully — each child
    /// analysed independently and in parallel — sorted by `disk_size`,
    /// largest first, with `disk_size` exactly their sum. Unreadable
    /// entries, directories on other volumes, and unlistable directories
    /// fail with their error, which the caller one level up absorbs by
    /// leaving the entry out.
    #[verifier::loop_isolation(false)]
    pub fn from_analyze(entry: &FsEntry, apparent: bool, root_dev: u64) -> (result: Result<
        DiskItem,
        AnalyzeError,
    >)
        requires
            raw_total(*entry, apparent) <= u64::MAX,
        ensures
            (match result {
                Ok(item) => analyze_spec(*entry, apparent, root_dev) == Ok::<
                    DiskItemView,
                    AnalyzeError,
                >(item@),
                Err(err) => analyze_spec(*entry, apparent, root_dev) == Err::<
                    DiskItemView,
                    AnalyzeError,
                >(err),
            }),
    {
        let name = entry.name.clone();
        match &entry.node {
            FsNode::Unreadable => Err(AnalyzeError::Probe),
            FsNode::File { meta } => {
                let size = resolve_size(meta, apparent);
                Ok(DiskItem { name, disk_size: size, children: None })
            },
            FsNode::Dir { volume_id, entries } => {
                if *volume_id != root_dev {
                    Err(AnalyzeError::BoundaryCrossed)
                } else {
                    match entries {
                        None => Err(AnalyzeError::Enumeration),
                        Some(es) => {
                            proof {
                                assert forall|i: int|
                                    0 <= i < es@.len() implies raw_total(
                                    #[trigger] es@[i],
                                    apparent,
                                ) <= u64::MAX by {
                                    lemma_raw_total_seq_element(es@, apparent, i);
                                }
                            }
                            let mut results = analyze_entries_par(es, apparent, root_dev);
                            let ghost n: int = es@.len() as int;
                            let mut kept: Vec<DiskItem> = Vec::new();
                            proof {
                                assert(es@.subrange(0, 0) =~= Seq::<FsEntry>::empty());
                            }
                            while results.len() > 0
                                invariant
                                    results@.len() <= n,
                                    forall|j: int|
                                        0 <= j < results@.len() ==> (match #[trigger] results@[j] {
                                            Ok(item) => analyze_spec(
                                                es@[n - results@.len() + j],
                                                apparent,
                                                root_dev,
                                            ) == Ok::<DiskItemView, AnalyzeError>(item@),
                                            Err(err) => analyze_spec(
                                                es@[n - results@.len() + j],
                                                apparent,
                                                root_dev,
                                            ) == Err::<DiskItemView, AnalyzeError>(err),
                                        }),
                                    items_view(kept@) == ok_children(
                                        es@.subrange(0, n - results@.len()),
                                        apparent,
                                        root_dev,
                                    ),
                                decreases results@.len(),
                            {
                                let ghost k: int = n - results@.len();
                                let ghost kept_before = kept@;
                                let next = results.remove(0);
                                proof {
                                    lemma_ok_children_snoc(es@, apparent, root_dev, k);
                                }
                                match next {
                                    Ok(item) => {
                                        kept.push(item);
                                        proof {
                                            assert(kept@.drop_last() =~= kept_before);
                                            assert(kept@.last() == item);
                                        }
                                    },
                                    Err(_) => {},
                                }
                                proof {
                                    assert(es@.subrange(0, k + 1) =~= es@.subrange(
                                        0,
                                        n - results@.len(),
                                    ));
                                }
                            }
                            proof {
                                assert(es@.subrange(0, n) =~= es@);
                            }
                            let sorted = sort_items_by_size(kept);
                            proof {
                                let ok = ok_children(es@, apparent, root_dev);
                                lemma_sort_by_size_props(ok);
                                lemma_ok_children_sum_bound(es@, apparent, root_dev);
                                lemma_sum_sizes_nonneg(ok);
                            }
                            let total = sum_item_sizes(&sorted);
                            Ok(DiskItem { name, disk_size: total, children: Some(sorted) })
                        },
                    }
                }
            },
        }
    }
}

} // verus!

use crate::probe::{resolve_size_spec, FileMeta};
use vstd::prelude::*;

verus! {

/// One entry of a scanned filesystem subtree, as the platform probe and the
/// directory enumeration reported it: the entry's name and what probing it
/// found. The caller collects a snapshot of the subtree with plain metadata
/// queries; the analysis consumes it.
#[derive(Debug)]
pub struct FsEntry {
    /// Final path component of the entry, or a sentinel (such as `.`) chosen
    /// by the caller when the path has none.
    pub name: String,
    /// What probing the entry found.
    pub node: FsNode,
}

/// What a metadata probe of one path found.
#[derive(Debug)]
pub enum FsNode {
    /// Anything that is not a directory, with its size information.
    File { meta: FileMeta },
    /// A directory: the identity of the volume it resides on and, when the
    /// listing succeeded, its immediate entries. `None` records a directory
    /// whose listing itself failed.
    Dir { volume_id: u64, entries: Option<Vec<FsEntry>> },
    /// The entry could not be probed (it vanished between listing and
    /// probing, permission was denied, or an I/O error occurred).
    Unreadable,
}

/// Total of the resolved sizes of every file anywhere under the entry,
/// ignoring volume boundaries. Every sum the analysis forms stays within
/// this bound, so it is the one machine limit a caller must respect.
pub open spec fn raw_total(e: FsEntry, apparent: bool) -> int
    decreases e,
{
    match e.node {
        FsNode::File { meta } => resolve_size_spec(meta, apparent),
        FsNode::Dir { volume_id, entries } => match entries {
            Some(es) => raw_total_seq(es@, apparent),
            None => 0,
        },
        FsNode::Unreadable => 0,
    }
}

/// Total of `raw_total` over a sequence of entries.
pub open spec fn raw_total_seq(s: Seq<FsEntry>, apparent: bool) -> int
    decreases s,
{
    if s.len() == 0 {
        0
    } else {
        raw_total_seq(s.drop_last(), apparent) + raw_total(s.last(), apparent)
    }
}

pub proof fn lemma_raw_total_nonneg(e: FsEntry, apparent: bool)
    ensures
        0 <= raw_total(e, apparent),
    decreases e,
{
    match e.node {
        FsNode::Dir { volume_id, entries } => match entries {
            Some(es) => lemma_raw_total_seq_nonneg(es@, apparent),
            None => {},
        },
        _ => {},
    }
}

pub proof fn lemma_raw_total_seq_nonneg(s: Seq<FsEntry>, apparent: bool)
    ensures
        0 <= raw_total_seq(s, apparent),
    decreases s,
{
    if s.len() > 0 {
        lemma_raw_total_seq_nonneg(s.drop_last(), apparent);
        lemma_raw_total_nonneg(s.last(), apparent);
    }
}

/// One entry's own total never exceeds the total of a sequence it belongs to.
pub proof fn lemma_raw_total_seq_element(s: Seq<FsEntry>, apparent: bool, i: int)
    requires
        0 <= i < s.len(),
    ensures
        raw_total(s[i], apparent) <= raw_total_seq(s, apparent),
    decreases s,
{
    if i == s.len() - 1 {
        lemma_raw_total_seq_nonneg(s.drop_last(), apparent);
    } else {
        lemma_raw_total_seq_element(s.drop_last(), apparent, i);
        assert(s.drop_last()[i] == s[i]);
        lemma_raw_total_nonneg(s.last(), apparent);
    }
}

/// Extending a prefix by one entry adds that entry's total to the prefix total.
pub proof fn lemma_raw_total_seq_snoc(s: Seq<FsEntry>, apparent: bool, i: int)
    requires
        0 <= i < s.len(),
    ensures
        raw_total_seq(s.subrange(0, i + 1), apparent) == raw_total_seq(s.subrange(0, i), apparent)
            + raw_total(s[i], apparent),
{
    assert(s.subrange(0, i + 1).drop_last() =~= s.subrange(0, i));
    assert(s.subrange(0, i + 1).last() == s[i]);
}

/// Computes the scan bound for a snapshot: the total of all resolved file
/// sizes under the entry, boundaries ignored. Returns `None` exactly when
/// that total does not fit in 64 bits.
#[verifier::loop_isolation(false)]
pub fn tree_total(entry: &FsEntry, apparent: bool) -> (total: Option<u64>)
    ensures
        match total {
            Some(t) => t == raw_total(*entry, apparent),
            None => raw_total(*entry, apparent) > u64::MAX,
        },
    decreases *entry,
{
    match &entry.node {
        FsNode::File { meta } => {
            if apparent {
                meta.blocks.checked_mul(512)
            } else {
                Some(meta.logical_size)
            }
        },
        FsNode::Unreadable => Some(0),
        FsNode::Dir { volume_id: _, entries } => match entries {
            None => Some(0),
            Some(es) => {
                let mut total: u64 = 0;
                let mut overflowed = false;
                let mut i: usize = 0;
                while i < es.len()
                    invariant
                        0 <= i <= es@.len(),
                        !overflowed ==> total == raw_total_seq(es@.subrange(0, i as int), apparent),
                        overflowed ==> raw_total_seq(es@.subrange(0, i as int), apparent)
                            > u64::MAX,
                    decreases es@.len() - i,
                {
                    proof {
                        lemma_raw_total_seq_snoc(es@, apparent, i as int);
                        lemma_raw_total_seq_nonneg(es@.subrange(0, i as int), apparent);
                        lemma_raw_total_nonneg(es@[i as int], apparent);
                        assert(decreases_to!(*entry => entry.node));
                        assert(entry.node is Dir);
                        assert(entry.node->Dir_entries is Some);
                        assert(decreases_to!(entry.node => entry.node->Dir_entries));
                        assert(decreases_to!(entry.node->Dir_entries => entry.node->Dir_entries->0));
                        assert(entry.node->Dir_entries->0 == *es);
                        assert(decreases_to!(*es => es@));
                        assert(decreases_to!(es@ => es@[i as int]));
                    }
                    match tree_total(&es[i], apparent) {
                        None => {
                            overflowed = true;
                        },
                        Some(t) => {
                            if !overflowed {
                                match total.checked_add(t) {
                                    None => {
                                        overflowed = true;
                                    },
                                    Some(sum) => {
                                        total = sum;
                                    },
                                }
                            }
                        },
                    }
                    i = i + 1;
                }
                proof {
                    assert(es@.subrange(0, es@.len() as int) =~= es@);
                }
                if overflowed {
                    None
                } else {
                    Some(total)
                }
            },
        },
    }
}

} // verus!

use vstd::prelude::*;

verus! {

/// One node of the result tree: the entry's name, its resolved size in bytes,
/// and, for a directory, the child nodes.
#[derive(Debug, PartialEq)]
pub struct DiskItem {
    /// Final path component of the entry, or a sentinel (such as `.`) chosen
    /// by the caller when the path has none.
    pub name: String,
    /// For a file: the size the size policy resolved. For a directory: the
    /// exact sum of the children's `disk_size`.
    pub disk_size: u64,
    /// `None` for a file; for a directory the surviving children, sorted by
    /// `disk_size` in non-increasing order. An empty vector means a directory
    /// with no countable contents, which is distinct from a file leaf.
    pub children: Option<Vec<DiskItem>>,
}

/// Mathematical model of a result tree node.
#[verifier::ext_equal]
pub struct DiskItemView {
    pub name: Seq<char>,
    pub disk_size: u64,
    pub children: Option<Seq<DiskItemView>>,
}

/// Model of one result node: the name as a character sequence, the size, and
/// the modelled children.
pub open spec fn item_view(item: DiskItem) -> DiskItemView
    decreases item,
{
    DiskItemView {
        name: item.name@,
        disk_size: item.disk_size,
        children: match item.children {
            None => None,
            Some(v) => Some(items_view(v@)),
        },
    }
}

/// Model of a sequence of result nodes, elementwise.
pub open spec fn items_view(s: Seq<DiskItem>) -> Seq<DiskItemView>
    decreases s,
{
    if s.len() == 0 {
        Seq::empty()
    } else {
        items_view(s.drop_last()).push(item_view(s.last()))
    }
}

impl View for DiskItem {
    type V = DiskItemView;

    open spec fn view(&self) -> DiskItemView {
        item_view(*self)
    }
}

/// `items_view` maps `item_view` over the sequence, index by index.
pub proof fn lemma_items_view(s: Seq<DiskItem>)
    ensures
        items_view(s).len() == s.len(),
        forall|i: int| 0 <= i < s.len() ==> items_view(s)[i] == item_view(#[trigger] s[i]),
    decreases s,
{
    if s.len() > 0 {
        lemma_items_view(s.drop_last());
        assert forall|i: int| 0 <= i < s.len() implies items_view(s)[i] == item_view(
            #[trigger] s[i],
        ) by {
            if i < s.len() - 1 {
                assert(s.drop_last()[i] == s[i]);
                assert(items_view(s)[i] == items_view(s.drop_last())[i]);
            }
        }
    }
}

/// Sum of the `disk_size` fields over a sequence of modelled nodes.
pub open spec fn sum_sizes(s: Seq<DiskItemView>) -> int
    decreases s,
{
    if s.len() == 0 {
        0
    } else {
        sum_sizes(s.drop_last()) + s.last().disk_size
    }
}

/// The nodes are ordered by `disk_size`, largest first.
pub open spec fn sorted_by_size_desc(s: Seq<DiskItemView>) -> bool {
    forall|i: int, j: int|
        #![trigger s[i], s[j]]
        0 <= i <= j < s.len() ==> s[i].disk_size >= s[j].disk_size
}

impl DiskItemView {
    /// The shape every analysis result has: each directory node's size is
    /// exactly the sum of its children's sizes, and the children are sorted
    /// by size in non-increasing order — recursively, at every level.
    pub open spec fn wf(self) -> bool
        decreases self,
    {
        match self.children {
            None => true,
            Some(cs) => {
                &&& self.disk_size == sum_sizes(cs)
                &&& sorted_by_size_desc(cs)
                &&& forall|i: int| 0 <= i < cs.len() ==> (#[trigger] cs[i]).wf()
            },
        }
    }
}

pub proof fn lemma_sum_sizes_nonneg(s: Seq<DiskItemView>)
    ensures
        0 <= sum_sizes(s),
    decreases s,
{
    if s.len() > 0 {
        lemma_sum_sizes_nonneg(s.drop_last());
    }
}

pub proof fn lemma_sum_sizes_concat(s1: Seq<DiskItemView>, s2: Seq<DiskItemView>)
    ensures
        sum_sizes(s1 + s2) == sum_sizes(s1) + sum_sizes(s2),
    decreases s2,
{
    if s2.len() == 0 {
        assert(s1 + s2 =~= s1);
    } else {
        lemma_sum_sizes_concat(s1, s2.drop_last());
        assert((s1 + s2).drop_last() =~= s1 + s2.drop_last());
        assert((s1 + s2).last() == s2.last());
    }
}

/// Extending a prefix by one node adds that node's size to the prefix sum.
pub proof fn lemma_sum_sizes_snoc(s: Seq<DiskItemView>, i: int)
    requires
        0 <= i < s.len(),
    ensures
        sum_sizes(s.subrange(0, i + 1)) == sum_sizes(s.subrange(0, i)) + s[i].disk_size,
{
    assert(s.subrange(0, i + 1).drop_last() =~= s.subrange(0, i));
    assert(s.subrange(0, i + 1).last() == s[i]);
}

/// A prefix never sums to more than the whole sequence.
pub proof fn lemma_sum_sizes_prefix(s: Seq<DiskItemView>, i: int)
    requires
        0 <= i <= s.len(),
    ensures
        sum_sizes(s.subrange(0, i)) <= sum_sizes(s),
{
    assert(s =~= s.subrange(0, i) + s.subrange(i, s.len() as int));
    lemma_sum_sizes_concat(s.subrange(0, i), s.subrange(i, s.len() as int));
    lemma_sum_sizes_nonneg(s.subrange(i, s.len() as int));
}

/// Sums the sizes of the given nodes. The caller's scan-wide bound rules out
/// overflow.
pub(crate) fn sum_item_sizes(items: &Vec<DiskItem>) -> (total: u64)
    requires
        sum_sizes(items_view(items@)) <= u64::MAX,
    ensures
        total == sum_sizes(items_view(items@)),
{
    let ghost vi = items_view(items@);
    proof {
        lemma_items_view(items@);
    }
    let mut total: u64 = 0;
    let mut i: usize = 0;
    while i < items.len()
        invariant
            0 <= i <= items@.len(),
            vi == items_view(items@),
            vi.len() == items@.len(),
            forall|j: int| 0 <= j < items@.len() ==> vi[j] == item_view(#[trigger] items@[j]),
            total == sum_sizes(vi.subrange(0, i as int)),
            sum_sizes(vi) <= u64::MAX,
        decreases items@.len() - i,
    {
        proof {
            lemma_sum_sizes_snoc(vi, i as int);
            lemma_sum_sizes_prefix(vi, i as int + 1);
            lemma_sum_sizes_nonneg(vi.subrange(0, i as int));
        }
        total = total + items[i].disk_size;
        i = i + 1;
    }
    proof {
        assert(vi.subrange(0, vi.len() as int) =~= vi);
    }
    total
}

} // verus!

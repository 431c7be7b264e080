use crate::item::{
    item_view, items_view, lemma_items_view, lemma_sum_sizes_concat, sorted_by_size_desc,
    sum_sizes, DiskItem, DiskItemView,
};
use vstd::prelude::*;

verus! {

/// Where stable insertion places a node: right after the nodes at least as
/// large as it.
pub open spec fn insert_pos(s: Seq<DiskItemView>, x: DiskItemView) -> int
    decreases s,
{
    if s.len() == 0 {
        0
    } else if s.first().disk_size >= x.disk_size {
        1 + insert_pos(s.drop_first(), x)
    } else {
        0
    }
}

/// Stable insertion of a node: it lands after every node at least as large,
/// and before the first strictly smaller one.
pub open spec fn insert_desc(s: Seq<DiskItemView>, x: DiskItemView) -> Seq<DiskItemView>
    decreases s,
{
    if s.len() == 0 {
        seq![x]
    } else if s.first().disk_size >= x.disk_size {
        seq![s.first()] + insert_desc(s.drop_first(), x)
    } else {
        seq![x] + s
    }
}

/// Stable sort of the nodes by `disk_size`, largest first: nodes of equal
/// size keep their original relative order.
pub open spec fn sort_by_size(s: Seq<DiskItemView>) -> Seq<DiskItemView>
    decreases s,
{
    if s.len() == 0 {
        Seq::empty()
    } else {
        insert_desc(sort_by_size(s.drop_last()), s.last())
    }
}

/// The insertion position splits the sequence into a prefix of nodes at least
/// as large as the inserted one and a remainder starting strictly smaller.
pub proof fn lemma_insert_pos_facts(s: Seq<DiskItemView>, x: DiskItemView)
    ensures
        0 <= insert_pos(s, x) <= s.len(),
        forall|i: int|
            0 <= i < insert_pos(s, x) ==> (#[trigger] s[i]).disk_size >= x.disk_size,
        insert_pos(s, x) < s.len() ==> s[insert_pos(s, x)].disk_size < x.disk_size,
    decreases s,
{
    if s.len() > 0 && s.first().disk_size >= x.disk_size {
        lemma_insert_pos_facts(s.drop_first(), x);
        let p = insert_pos(s, x);
        assert forall|i: int| 0 <= i < p implies (#[trigger] s[i]).disk_size >= x.disk_size by {
            if i > 0 {
                assert(s.drop_first()[i - 1] == s[i]);
            }
        }
        if p < s.len() {
            assert(s.drop_first()[p - 1] == s[p]);
        }
    }
}

/// No other position satisfies the splitting facts: they pin `insert_pos`.
pub proof fn lemma_insert_pos_unique(s: Seq<DiskItemView>, x: DiskItemView, p: int)
    requires
        0 <= p <= s.len(),
        forall|i: int| 0 <= i < p ==> (#[trigger] s[i]).disk_size >= x.disk_size,
        p < s.len() ==> s[p].disk_size < x.disk_size,
    ensures
        insert_pos(s, x) == p,
{
    lemma_insert_pos_facts(s, x);
    let q = insert_pos(s, x);
    if q < p {
        assert(s[q].disk_size >= x.disk_size);
        assert(false);
    }
    if p < q {
        assert(s[p].disk_size >= x.disk_size);
        assert(false);
    }
}

/// Stable insertion is insertion at `insert_pos`.
pub proof fn lemma_insert_desc_char(s: Seq<DiskItemView>, x: DiskItemView)
    ensures
        insert_desc(s, x) == s.insert(insert_pos(s, x), x),
    decreases s,
{
    let p = insert_pos(s, x);
    lemma_insert_pos_facts(s, x);
    if s.len() == 0 {
        assert(insert_desc(s, x) =~= s.insert(0, x));
    } else if s.first().disk_size >= x.disk_size {
        lemma_insert_desc_char(s.drop_first(), x);
        lemma_insert_pos_facts(s.drop_first(), x);
        assert(seq![s.first()] + s.drop_first().insert(p - 1, x) =~= s.insert(p, x));
    } else {
        assert(seq![x] + s =~= s.insert(0, x));
    }
}

/// How insertion rearranges the indices.
pub proof fn lemma_insert_desc_index(s: Seq<DiskItemView>, x: DiskItemView)
    ensures
        insert_desc(s, x).len() == s.len() + 1,
        forall|i: int| 0 <= i < insert_pos(s, x) ==> insert_desc(s, x)[i] == s[i],
        insert_desc(s, x)[insert_pos(s, x)] == x,
        forall|i: int|
            insert_pos(s, x) < i <= s.len() ==> insert_desc(s, x)[i] == s[i - 1],
{
    lemma_insert_pos_facts(s, x);
    lemma_insert_desc_char(s, x);
}

/// Insertion adds exactly the inserted node's size to the sum.
pub proof fn lemma_insert_desc_sum(s: Seq<DiskItemView>, x: DiskItemView)
    ensures
        sum_sizes(insert_desc(s, x)) == sum_sizes(s) + x.disk_size,
{
    lemma_insert_pos_facts(s, x);
    lemma_insert_desc_char(s, x);
    let p = insert_pos(s, x);
    let prefix = s.subrange(0, p);
    let rest = s.subrange(p, s.len() as int);
    assert(insert_desc(s, x) =~= (prefix.push(x)) + rest);
    lemma_sum_sizes_concat(prefix.push(x), rest);
    assert(prefix.push(x).drop_last() =~= prefix);
    lemma_sum_sizes_concat(prefix, rest);
    assert(prefix + rest =~= s);
}

/// Insertion into a sorted sequence keeps it sorted.
pub proof fn lemma_insert_desc_sorted(s: Seq<DiskItemView>, x: DiskItemView)
    requires
        sorted_by_size_desc(s),
    ensures
        sorted_by_size_desc(insert_desc(s, x)),
{
    lemma_insert_pos_facts(s, x);
    lemma_insert_desc_index(s, x);
    let p = insert_pos(s, x);
    let r = insert_desc(s, x);
    assert forall|i: int, j: int|
        #![trigger r[i], r[j]]
        0 <= i <= j < r.len() implies r[i].disk_size >= r[j].disk_size by {
        if i < p {
            assert(r[i] == s[i]);
        }
        if j < p {
            assert(r[j] == s[j]);
        }
        if p < i {
            assert(r[i] == s[i - 1]);
        }
        if p < j {
            assert(r[j] == s[j - 1]);
        }
        if j == p && i < p {
            assert(s[i].disk_size >= x.disk_size);
        }
        if i == p && p < j {
            assert(s[p].disk_size < x.disk_size);
            assert(s[p].disk_size >= s[j - 1].disk_size);
        }
    }
}

/// Insertion neither loses a node nor invents one.
pub proof fn lemma_insert_desc_contains(s: Seq<DiskItemView>, x: DiskItemView)
    ensures
        forall|y: DiskItemView|
            #[trigger] insert_desc(s, x).contains(y) <==> (s.contains(y) || y == x),
{
    lemma_insert_pos_facts(s, x);
    lemma_insert_desc_index(s, x);
    let p = insert_pos(s, x);
    let r = insert_desc(s, x);
    assert forall|y: DiskItemView| #[trigger] r.contains(y) <==> (s.contains(y) || y == x) by {
        if r.contains(y) {
            let i = choose|i: int| 0 <= i < r.len() && r[i] == y;
            if i < p {
                assert(s[i] == y);
            } else if i > p {
                assert(s[i - 1] == y);
            }
        }
        if s.contains(y) {
            let i = choose|i: int| 0 <= i < s.len() && s[i] == y;
            if i < p {
                assert(r[i] == y);
            } else {
                assert(r[i + 1] == y);
            }
        }
        if y == x {
            assert(r[p] == y);
        }
    }
}

/// What the stable sort guarantees: same length, same nodes, same total size,
/// and the result is ordered by size, largest first.
pub proof fn lemma_sort_by_size_props(s: Seq<DiskItemView>)
    ensures
        sort_by_size(s).len() == s.len(),
        sum_sizes(sort_by_size(s)) == sum_sizes(s),
        sorted_by_size_desc(sort_by_size(s)),
        forall|y: DiskItemView| #[trigger] sort_by_size(s).contains(y) <==> s.contains(y),
    decreases s,
{
    if s.len() == 0 {
    } else {
        let butlast = s.drop_last();
        lemma_sort_by_size_props(butlast);
        lemma_insert_desc_index(sort_by_size(butlast), s.last());
        lemma_insert_desc_sum(sort_by_size(butlast), s.last());
        lemma_insert_desc_sorted(sort_by_size(butlast), s.last());
        lemma_insert_desc_contains(sort_by_size(butlast), s.last());
        assert forall|y: DiskItemView| #[trigger] sort_by_size(s).contains(y) <==> s.contains(
            y,
        ) by {
            if s.contains(y) {
                let i = choose|i: int| 0 <= i < s.len() && s[i] == y;
                if i < s.len() - 1 {
                    assert(butlast[i] == y);
                    assert(butlast.contains(y));
                } else {
                    assert(y == s.last());
                }
            }
            if butlast.contains(y) {
                let i = choose|i: int| 0 <= i < butlast.len() && butlast[i] == y;
                assert(s[i] == y);
            }
            if y == s.last() {
                assert(s[s.len() - 1] == y);
            }
        }
    }
}

/// Sorts the nodes by `disk_size`, largest first; nodes of equal size keep
/// their original relative order.
pub fn sort_items_by_size(items: Vec<DiskItem>) -> (sorted: Vec<DiskItem>)
    ensures
        items_view(sorted@) == sort_by_size(items_view(items@)),
{
    let ghost orig = items@;
    let mut rest = items;
    let mut out: Vec<DiskItem> = Vec::new();
    proof {
        assert(rest@ =~= orig.subrange(orig.len() - rest@.len(), orig.len() as int));
        assert(orig.subrange(0, 0) =~= Seq::<DiskItem>::empty());
    }
    while rest.len() > 0
        invariant
            rest@.len() <= orig.len(),
            rest@ == orig.subrange(orig.len() - rest@.len(), orig.len() as int),
            items_view(out@) == sort_by_size(
                items_view(orig.subrange(0, orig.len() - rest@.len())),
            ),
        decreases rest@.len(),
    {
        let ghost k = orig.len() - rest@.len();
        let ghost out_before = out@;
        let ghost so = items_view(out@);
        let x = rest.remove(0);
        proof {
            assert(x == orig[k]);
            assert(rest@ =~= orig.subrange(orig.len() - rest@.len(), orig.len() as int));
            lemma_items_view(out_before);
        }
        let mut p: usize = 0;
        while p < out.len() && out[p].disk_size >= x.disk_size
            invariant
                out@ == out_before,
                0 <= p <= out@.len(),
                forall|i: int| 0 <= i < p ==> (#[trigger] out@[i]).disk_size >= x.disk_size,
            decreases out@.len() - p,
        {
            p = p + 1;
        }
        proof {
            let ivx = item_view(x);
            assert(so.len() == out_before.len());
            assert forall|i: int| 0 <= i < p implies (#[trigger] so[i]).disk_size
                >= ivx.disk_size by {
                assert(so[i] == item_view(out_before[i]));
            }
            if (p as int) < out_before.len() {
                assert(so[p as int] == item_view(out_before[p as int]));
            }
            lemma_insert_pos_unique(so, ivx, p as int);
            lemma_insert_desc_char(so, ivx);
        }
        out.insert(p, x);
        proof {
            let ivx = item_view(x);
            assert(out@ =~= out_before.insert(p as int, x));
            lemma_items_view(out@);
            lemma_items_view(out_before);
            assert(items_view(out@).len() == so.insert(p as int, ivx).len());
            assert forall|i: int| 0 <= i < items_view(out@).len() implies items_view(out@)[i]
                == so.insert(p as int, ivx)[i] by {
                assert(items_view(out@)[i] == item_view(out@[i]));
                if i < p as int {
                    assert(out@[i] == out_before[i]);
                    assert(so[i] == item_view(out_before[i]));
                    assert(so.insert(p as int, ivx)[i] == so[i]);
                } else if i == p as int {
                    assert(out@[i] == x);
                    assert(so.insert(p as int, ivx)[i] == ivx);
                } else {
                    assert(out@[i] == out_before[i - 1]);
                    assert(so[i - 1] == item_view(out_before[i - 1]));
                    assert(so.insert(p as int, ivx)[i] == so[i - 1]);
                }
            }
            assert(items_view(out@) =~= so.insert(p as int, ivx));
            // One more node of the original prefix is now placed.
            let prefix1 = orig.subrange(0, k + 1);
            assert(prefix1.drop_last() =~= orig.subrange(0, k));
            assert(prefix1.last() == orig[k]);
            assert(items_view(prefix1).drop_last() =~= items_view(orig.subrange(0, k)));
            assert(items_view(prefix1).last() == ivx);
            assert(sort_by_size(items_view(prefix1)) == insert_desc(so, ivx));
            assert(items_view(out@) == sort_by_size(items_view(orig.subrange(0, k + 1))));
        }
    }
    proof {
        assert(orig.subrange(0, orig.len() as int) =~= orig);
    }
    out
}

} // verus!

//! The per-slot ordering rule: bundled transactions execute strictly
//! before non-bundled ones, and within equal bundled status the
//! submission index `tx_index` decides, ascending. The sort is stable, so
//! two events that agree on both keys keep their original relative order.

use crate::types::InternalTrade;
use vstd::prelude::*;

verus! {

/// The ordering comparator: `a` may execute no later than `b`.
pub open spec fn spec_trade_le(a: InternalTrade, b: InternalTrade) -> bool {
    if a.is_bundled != b.is_bundled {
        a.is_bundled
    } else {
        a.tx_index <= b.tx_index
    }
}

/// A batch is sorted when every pair of positions respects the
/// comparator.
pub open spec fn batch_sorted(s: Seq<InternalTrade>) -> bool {
    forall|i: int, j: int|
        0 <= i < j < s.len() ==> spec_trade_le(
            #[trigger] s[i],
            #[trigger] s[j],
        )
}

/// Insert `x` into the already-sorted `s`, after every element that
/// compares less-or-equal to it; placing `x` after its equals is what
/// makes the sort stable.
pub open spec fn insert_ordered(s: Seq<InternalTrade>, x: InternalTrade) -> Seq<InternalTrade>
    decreases s.len(),
{
    if s.len() == 0 {
        seq![x]
    } else if spec_trade_le(s.last(), x) {
        s.push(x)
    } else {
        insert_ordered(s.drop_last(), x).push(s.last())
    }
}

/// The unique order a flush executes: a stable insertion sort of the
/// batch under the bundled-first, then ascending-`tx_index` comparator.
pub open spec fn spec_sort(s: Seq<InternalTrade>) -> Seq<InternalTrade>
    decreases s.len(),
{
    if s.len() == 0 {
        Seq::empty()
    } else {
        insert_ordered(spec_sort(s.drop_last()), s.last())
    }
}

/// The executable comparator.
pub fn trade_le(a: &InternalTrade, b: &InternalTrade) -> (r: bool)
    ensures
        r == spec_trade_le(*a, *b),
{
    if a.is_bundled != b.is_bundled {
        a.is_bundled
    } else {
        a.tx_index <= b.tx_index
    }
}

/// The comparator is total: of any two events, one may go first.
pub proof fn lemma_trade_le_total(a: InternalTrade, b: InternalTrade)
    ensures
        spec_trade_le(a, b) || spec_trade_le(b, a),
{
}

/// The comparator is transitive.
pub proof fn lemma_trade_le_trans(a: InternalTrade, b: InternalTrade, c: InternalTrade)
    requires
        spec_trade_le(a, b),
        spec_trade_le(b, c),
    ensures
        spec_trade_le(a, c),
{
}

/// Where the scan of the executable sort stops is exactly where
/// `insert_ordered` places the element.
proof fn lemma_insert_ordered_at(s: Seq<InternalTrade>, x: InternalTrade, pos: int)
    requires
        0 <= pos <= s.len(),
        forall|j: int| pos <= j < s.len() ==> !spec_trade_le(#[trigger] s[j], x),
        pos > 0 ==> spec_trade_le(s[pos - 1], x),
    ensures
        insert_ordered(s, x) == s.subrange(0, pos).push(x) + s.subrange(pos, s.len() as int),
    decreases s.len(),
{
    if pos == s.len() {
        if s.len() == 0 {
            assert(insert_ordered(s, x) =~= s.subrange(0, pos).push(x) + s.subrange(
                pos,
                s.len() as int,
            ));
        } else {
            assert(spec_trade_le(s.last(), x));
            assert(s.push(x) =~= s.subrange(0, pos).push(x) + s.subrange(pos, s.len() as int));
        }
    } else {
        assert(!spec_trade_le(s[s.len() - 1], x));
        let d = s.drop_last();
        assert(forall|j: int| pos <= j < d.len() ==> !spec_trade_le(#[trigger] d[j], x));
        assert(pos > 0 ==> spec_trade_le(d[pos - 1], x));
        lemma_insert_ordered_at(d, x, pos);
        assert(insert_ordered(s, x) == insert_ordered(d, x).push(s.last()));
        assert((d.subrange(0, pos).push(x) + d.subrange(pos, d.len() as int)).push(s.last())
            =~= s.subrange(0, pos).push(x) + s.subrange(pos, s.len() as int));
    }
}

/// Inserting into a sorted batch keeps it sorted, adds exactly the new
/// element, and introduces no other elements.
proof fn lemma_insert_ordered_props(s: Seq<InternalTrade>, x: InternalTrade)
    requires
        batch_sorted(s),
    ensures
        batch_sorted(insert_ordered(s, x)),
        insert_ordered(s, x).to_multiset() == s.to_multiset().insert(x),
        insert_ordered(s, x).len() == s.len() + 1,
        forall|i: int|
            0 <= i < insert_ordered(s, x).len() ==> s.contains(#[trigger] insert_ordered(s, x)[i])
                || insert_ordered(s, x)[i] == x,
    decreases s.len(),
{
    broadcast use vstd::seq_lib::group_to_multiset_ensures;

    let r = insert_ordered(s, x);
    if s.len() == 0 {
        assert(r =~= Seq::empty().push(x));
        assert(r.to_multiset() =~= s.to_multiset().insert(x));
    } else if spec_trade_le(s.last(), x) {
        assert forall|i: int, j: int| 0 <= i < j < r.len() implies spec_trade_le(r[i], r[j]) by {
            if j == r.len() - 1 {
                lemma_trade_le_trans(s[i], s[s.len() - 1], x);
            }
        }
    } else {
        let d = s.drop_last();
        assert(forall|i: int, j: int|
            0 <= i < j < d.len() ==> spec_trade_le(#[trigger] d[i], #[trigger] d[j]));
        lemma_insert_ordered_props(d, x);
        let t = insert_ordered(d, x);
        assert(r == t.push(s.last()));
        lemma_trade_le_total(s.last(), x);
        assert forall|i: int, j: int| 0 <= i < j < r.len() implies spec_trade_le(r[i], r[j]) by {
            if j == r.len() - 1 {
                if t[i] == x {
                    assert(spec_trade_le(x, s.last()));
                } else {
                    let w = choose|w: int| 0 <= w < d.len() && d[w] == t[i];
                    assert(spec_trade_le(d[w], s.last()));
                }
            }
        }
        assert(d.push(s.last()) =~= s);
        assert(d.to_multiset().insert(s.last()) =~= s.to_multiset());
        assert(r.to_multiset() =~= s.to_multiset().insert(x));
        assert forall|i: int| 0 <= i < r.len() implies s.contains(r[i]) || r[i] == x by {
            if i < t.len() {
                if t[i] != x {
                    let w = choose|w: int| 0 <= w < d.len() && d[w] == t[i];
                    assert(s[w] == t[i]);
                }
            } else {
                assert(s[s.len() - 1] == r[i]);
            }
        }
    }
}

/// The sorted batch is a permutation of the input and respects the
/// comparator at every pair of positions.
pub proof fn lemma_spec_sort_props(s: Seq<InternalTrade>)
    ensures
        batch_sorted(spec_sort(s)),
        spec_sort(s).to_multiset() == s.to_multiset(),
        spec_sort(s).len() == s.len(),
    decreases s.len(),
{
    broadcast use vstd::seq_lib::group_to_multiset_ensures;

    if s.len() > 0 {
        lemma_spec_sort_props(s.drop_last());
        lemma_insert_ordered_props(spec_sort(s.drop_last()), s.last());
        assert(s.drop_last().push(s.last()) =~= s);
        assert(s.drop_last().to_multiset().insert(s.last()) =~= s.to_multiset());
    }
}

/// Sorting is idempotent: a batch that is already sorted comes back
/// unchanged, so running the sort twice gives the order of the first
/// run.
pub proof fn lemma_spec_sort_of_sorted(s: Seq<InternalTrade>)
    requires
        batch_sorted(s),
    ensures
        spec_sort(s) == s,
    decreases s.len(),
{
    if s.len() == 0 {
        assert(spec_sort(s) =~= s);
    } else {
        let d = s.drop_last();
        assert(forall|i: int, j: int|
            0 <= i < j < d.len() ==> spec_trade_le(#[trigger] d[i], #[trigger] d[j]));
        lemma_spec_sort_of_sorted(d);
        if s.len() == 1 {
            assert(insert_ordered(d, s.last()) =~= s);
        } else {
            assert(spec_trade_le(d.last(), s.last()));
            assert(d.push(s.last()) =~= s);
        }
    }
}

/// What sortedness means in terms of the two keys: every bundled event
/// precedes every non-bundled one, and `tx_index` ascends within each
/// group.
pub proof fn lemma_sorted_batch_structure(s: Seq<InternalTrade>)
    requires
        batch_sorted(s),
    ensures
        forall|i: int, j: int|
            0 <= i < j < s.len() && !(#[trigger] s[i]).is_bundled ==> !(#[trigger] s[j]).is_bundled,
        forall|i: int, j: int|
            0 <= i < j < s.len() && (#[trigger] s[i]).is_bundled == (#[trigger] s[j]).is_bundled
                ==> s[i].tx_index <= s[j].tx_index,
{
}

/// Order a batch for execution. The result is exactly the stable
/// insertion sort `spec_sort` of the input, so it is a sorted
/// permutation, and re-sorting an already sorted batch returns it
/// unchanged.
pub fn sort_batch(batch: Vec<InternalTrade>) -> (r: Vec<InternalTrade>)
    ensures
        r@ == spec_sort(batch@),
        batch_sorted(r@),
        r@.to_multiset() == batch@.to_multiset(),
        r@.len() == batch@.len(),
        batch_sorted(batch@) ==> r@ == batch@,
{
    let ghost orig = batch@;
    let mut rest = batch;
    let mut out: Vec<InternalTrade> = Vec::new();
    let mut taken: usize = 0;
    let n: usize = rest.len();
    proof {
        assert(orig.len() == n);
    }
    while rest.len() > 0
        invariant
            orig.len() <= usize::MAX,
            taken + rest@.len() == orig.len(),
            out@ == spec_sort(orig.subrange(0, taken as int)),
            rest@ == orig.subrange(taken as int, orig.len() as int),
        decreases rest@.len(),
    {
        let x = rest.remove(0);
        proof {
            assert(x == orig[taken as int]);
            assert(rest@ =~= orig.subrange(taken as int + 1, orig.len() as int));
            lemma_spec_sort_props(orig.subrange(0, taken as int));
        }
        let mut pos: usize = out.len();
        while pos > 0 && !trade_le(&out[pos - 1], &x)
            invariant
                pos <= out@.len(),
                forall|j: int| pos <= j < out@.len() ==> !spec_trade_le(#[trigger] out@[j], x),
            decreases pos,
        {
            pos -= 1;
        }
        proof {
            lemma_insert_ordered_at(out@, x, pos as int);
            let p = orig.subrange(0, taken as int + 1);
            assert(p.drop_last() =~= orig.subrange(0, taken as int));
            assert(p.last() == orig[taken as int]);
            assert(spec_sort(p) == insert_ordered(out@, x));
        }
        out.insert(pos, x);
        taken = taken + 1;
    }
    proof {
        assert(orig.subrange(0, orig.len() as int) =~= orig);
        lemma_spec_sort_props(orig);
        if batch_sorted(orig) {
            lemma_spec_sort_of_sorted(orig);
        }
    }
    out
}

} // verus!

//! Sorting deviations for the jitter percentile.

use vstd::prelude::*;
use vstd::relations::{sorted_by, total_ordering};

verus! {

/// Ascending order on 32-bit values.
pub open spec fn ascending(a: u32, b: u32) -> bool {
    a <= b
}

/// `s` in ascending order.
pub open spec fn sorted_values(s: Seq<u32>) -> Seq<u32> {
    s.sort_by(|a: u32, b: u32| ascending(a, b))
}

proof fn lemma_ascending_total()
    ensures
        total_ordering(|a: u32, b: u32| ascending(a, b)),
{
}

/// A sorted copy of `v`.
pub fn sorted_copy(v: &Vec<u32>) -> (r: Vec<u32>)
    ensures
        r@ == sorted_values(v@),
        r@.len() == v@.len(),
{
    let ghost leq = |a: u32, b: u32| ascending(a, b);
    let mut out: Vec<u32> = Vec::new();
    let mut i: usize = 0;
    assert(out@ =~= v@.subrange(0, 0));
    while i < v.len()
        invariant
            i <= v@.len(),
            leq == (|a: u32, b: u32| ascending(a, b)),
            sorted_by(out@, leq),
            out@.to_multiset() == v@.subrange(0, i as int).to_multiset(),
        decreases v@.len() - i,
    {
        let x = v[i];
        let mut pos: usize = 0;
        while pos < out.len() && out[pos] <= x
            invariant
                pos <= out@.len(),
                forall|j: int| 0 <= j < pos ==> out@[j] <= x,
            decreases out@.len() - pos,
        {
            pos = pos + 1;
        }
        let ghost before = out@;
        proof {
            assert forall|j: int| pos <= j < before.len() implies x < before[j] by {
                assert(x < before[pos as int]);
                if j > pos {
                    assert(leq(before[pos as int], before[j]));
                }
            }
        }
        out.insert(pos, x);
        proof {
            broadcast use vstd::seq_lib::group_to_multiset_ensures;
            assert(out@.remove(pos as int) =~= before);
            assert(out@.to_multiset().remove(x) == before.to_multiset());
            assert(out@.to_multiset().count(x) > 0) by {
                assert(out@[pos as int] == x);
                assert(out@.contains(x));
            }
            assert(out@.to_multiset() =~= before.to_multiset().insert(x));
            assert(v@.subrange(0, i + 1) =~= v@.subrange(0, i as int).push(x));
            assert forall|a: int, b: int| 0 <= a < b < out@.len() implies #[trigger] leq(
                out@[a],
                out@[b],
            ) by {
                if a < pos && b < pos {
                    assert(leq(before[a], before[b]));
                } else if a < pos && b > pos {
                    assert(leq(before[a], before[b - 1]));
                } else if a > pos {
                    assert(leq(before[a - 1], before[b - 1]));
                }
            }
        }
        i = i + 1;
    }
    proof {
        assert(v@.subrange(0, v@.len() as int) =~= v@);
        lemma_ascending_total();
        v@.lemma_sort_by_ensures(leq);
        vstd::seq_lib::lemma_sorted_unique(out@, v@.sort_by(leq), leq);
        broadcast use vstd::seq_lib::group_to_multiset_ensures;
        assert(out@.len() == out@.to_multiset().len());
        assert(v@.len() == v@.to_multiset().len());
    }
    out
}

} // verus!

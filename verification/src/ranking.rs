//! Ordering word counts for display: most frequent first.

use vstd::prelude::*;

verus! {

broadcast use {vstd::seq_lib::group_to_multiset_ensures, vstd::multiset::group_multiset_axioms};

/// The pairs ordered by count, largest first: a permutation of the input
/// whose counts never increase along it.
pub fn sort_by_count_desc(pairs: Vec<(String, u32)>) -> (sorted: Vec<(String, u32)>)
    ensures
        sorted@.len() == pairs@.len(),
        sorted@.to_multiset() == pairs@.to_multiset(),
        forall|i: int, j: int| #![trigger sorted@[i], sorted@[j]]
            0 <= i < j < sorted@.len() ==> sorted@[i].1 >= sorted@[j].1,
{
    let mut rest = pairs;
    let mut out: Vec<(String, u32)> = Vec::new();
    proof {
        assert(out@.to_multiset().add(rest@.to_multiset()) =~= pairs@.to_multiset());
    }
    while rest.len() > 0
        invariant
            out@.len() + rest@.len() == pairs@.len(),
            out@.to_multiset().add(rest@.to_multiset()) == pairs@.to_multiset(),
            forall|i: int, j: int| #![trigger out@[i], out@[j]]
                0 <= i < j < out@.len() ==> out@[i].1 >= out@[j].1,
            forall|i: int, j: int| #![trigger out@[i], rest@[j]]
                0 <= i < out@.len() && 0 <= j < rest@.len() ==> out@[i].1 >= rest@[j].1,
        decreases rest@.len(),
    {
        let mut m: usize = 0;
        let mut q: usize = 1;
        while q < rest.len()
            invariant
                rest@.len() > 0,
                m < q <= rest@.len(),
                forall|k: int| 0 <= k < q ==> rest@[m as int].1 >= #[trigger] rest@[k].1,
            decreases rest@.len() - q,
        {
            if rest[q].1 > rest[m].1 {
                m = q;
            }
            q = q + 1;
        }
        let ghost old_out = out@;
        let ghost old_rest = rest@;
        let item = rest.remove(m);
        out.push(item);
        proof {
            old_rest.to_multiset_ensures();
            assert(rest@.to_multiset() =~= old_rest.to_multiset().remove(item));
            assert(out@.to_multiset() =~= old_out.to_multiset().insert(item));
            assert(old_rest.to_multiset().count(item) > 0) by {
                assert(old_rest.contains(item));
            }
            assert(out@.to_multiset().add(rest@.to_multiset()) =~= old_out.to_multiset().add(
                old_rest.to_multiset(),
            ));
            assert forall|i: int, j: int| #![trigger out@[i], rest@[j]]
                0 <= i < out@.len() && 0 <= j < rest@.len() implies out@[i].1 >= rest@[j].1 by {
                assert(item.1 >= old_rest[if j < m as int {
                    j
                } else {
                    j + 1
                }].1);
            }
        }
    }
    out
}

} // verus!

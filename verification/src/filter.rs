//! Window filtering of sample indices.
//!
//! Each frame the viewer keeps only the samples whose frequency (or
//! attenuation) lies inside the currently selected window. The comparison
//! itself happens where the values live; this module turns the resulting
//! in-window mask into the list of selected indices, in order. That list is
//! what maps a plotted point number back to the index of its frequency step.

use vstd::prelude::*;

verus! {

/// The indices at which `s` is true, in increasing order.
pub open spec fn true_indices(s: Seq<bool>) -> Seq<int>
    decreases s.len(),
{
    if s.len() == 0 {
        Seq::empty()
    } else if s.last() {
        true_indices(s.drop_last()).push(s.len() - 1)
    } else {
        true_indices(s.drop_last())
    }
}

/// The list of indices at which the in-window mask holds, in increasing order.
pub fn indices_where(mask: &Vec<bool>) -> (r: Vec<usize>)
    ensures
        r@.map_values(|k: usize| k as int) == true_indices(mask@),
{
    let mut r: Vec<usize> = Vec::new();
    let mut i: usize = 0;
    while i < mask.len()
        invariant
            i <= mask@.len(),
            r@.map_values(|k: usize| k as int) == true_indices(mask@.take(i as int)),
        decreases mask@.len() - i,
    {
        proof {
            assert(mask@.take(i + 1).drop_last() =~= mask@.take(i as int));
            assert(mask@.take(i + 1).last() == mask@[i as int]);
        }
        if mask[i] {
            r.push(i);
            proof {
                assert(r@.map_values(|k: usize| k as int) =~= true_indices(mask@.take(i + 1)));
            }
        } else {
            proof {
                assert(r@.map_values(|k: usize| k as int) =~= true_indices(mask@.take(i + 1)));
            }
        }
        i = i + 1;
    }
    proof {
        assert(mask@.take(mask@.len() as int) =~= mask@);
    }
    r
}

/// The selected indices are exactly the in-window ones: each listed index is
/// in bounds and true in the mask, the list is strictly increasing, and every
/// true index of the mask appears in it.
pub proof fn lemma_true_indices_characterize(s: Seq<bool>)
    ensures
        forall|j: int|
            0 <= j < true_indices(s).len() ==> 0 <= #[trigger] true_indices(s)[j] < s.len()
                && s[true_indices(s)[j]],
        forall|j1: int, j2: int|
            0 <= j1 < j2 < true_indices(s).len() ==> #[trigger] true_indices(s)[j1]
                < #[trigger] true_indices(s)[j2],
        forall|i: int| 0 <= i < s.len() && s[i] ==> true_indices(s).contains(i),
    decreases s.len(),
{
    if s.len() == 0 {
    } else {
        let pre = s.drop_last();
        lemma_true_indices_characterize(pre);
        assert forall|i: int| 0 <= i < s.len() && s[i] implies true_indices(s).contains(i) by {
            if i < s.len() - 1 {
                assert(pre[i] == s[i]);
                assert(true_indices(pre).contains(i));
                let j = choose|j: int|
                    0 <= j < true_indices(pre).len() && true_indices(pre)[j] == i;
                assert(true_indices(s)[j] == i);
            } else {
                assert(s.last());
                assert(true_indices(s).last() == i);
            }
        }
    }
}

} // verus!

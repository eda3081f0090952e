//! Integer core of a Monte-Carlo path tracer: the scatter outcome type, the
//! Perlin lattice permutations, image texel lookup, the bounding-volume
//! hierarchy layout and the depth cap of the radiance estimator.

use vstd::prelude::*;

pub mod random;
pub mod perlin;
pub mod texture;
pub mod bvh;
pub mod material;
pub mod integrator;

verus! {

broadcast use vstd::seq_lib::group_to_multiset_ensures;

/// Exchanging two entries of a sequence keeps its multiset of values.
pub(crate) proof fn lemma_swap_keeps_multiset<A>(s: Seq<A>, i: int, j: int)
    requires
        0 <= i < s.len(),
        0 <= j < s.len(),
    ensures
        s.update(i, s[j]).update(j, s[i]).to_multiset() =~= s.to_multiset(),
{
    broadcast use vstd::multiset::group_multiset_axioms;

    let t = s.update(i, s[j]);
    assert(t[j] == s[j]);
    assert(t.update(j, s[i]).to_multiset() =~= t.to_multiset().insert(s[i]).remove(s[j]));
    assert(t.to_multiset() =~= s.to_multiset().insert(s[j]).remove(s[i]));
}

} // verus!

use vstd::prelude::*;
use crate::random::random_index;
use crate::lemma_swap_keeps_multiset;

verus! {

broadcast use vstd::seq_lib::group_to_multiset_ensures;

/// Number of lattice cells along each axis of the noise table.
pub const PERM_SIZE: usize = 256;

/// Shuffles the first `n` entries of `p` in place (Fisher-Yates, from the top
/// down): the entries are rearranged, none is lost or added, and those at
/// `n` and beyond stay where they are.
pub fn permute(p: &mut [u32], n: u32)
    requires
        n as int <= old(p)@.len(),
    ensures
        final(p)@.len() == old(p)@.len(),
        final(p)@.to_multiset() == old(p)@.to_multiset(),
        forall|k: int| 0 <= k < final(p)@.len() ==> old(p)@.contains(#[trigger] final(p)@[k]),
        forall|k: int| n <= k < final(p)@.len() ==> #[trigger] final(p)@[k] == old(p)@[k],
{
    if n == 0 {
        return;
    }
    let mut i: u32 = n - 1;
    while i > 0
        invariant
            i < n,
            n as int <= old(p)@.len(),
            p@.len() == old(p)@.len(),
            p@.to_multiset() == old(p)@.to_multiset(),
            forall|k: int| 0 <= k < p@.len() ==> old(p)@.contains(#[trigger] p@[k]),
            forall|k: int| n <= k < p@.len() ==> #[trigger] p@[k] == old(p)@[k],
        decreases i,
    {
        let target = random_index(i + 1);
        let ghost before = p@;
        let temp = p[i as usize];
        p[i as usize] = p[target as usize];
        p[target as usize] = temp;
        proof {
            lemma_swap_keeps_multiset(before, i as int, target as int);
            assert(p@ =~= before.update(i as int, before[target as int]).update(
                target as int,
                before[i as int],
            ));
            assert forall|k: int| 0 <= k < p@.len() implies old(p)@.contains(#[trigger] p@[k]) by {
                if k == i as int {
                    assert(p@[k] == before[target as int]);
                } else if k == target as int {
                    assert(p@[k] == before[i as int]);
                } else {
                    assert(p@[k] == before[k]);
                }
            }
        }
        i = i - 1;
    }
}

/// The identity table `0, 1, ..., PERM_SIZE - 1`.
pub open spec fn identity_perm() -> Seq<u32> {
    Seq::new(PERM_SIZE as nat, |k: int| k as u32)
}

/// A random permutation of `0..PERM_SIZE`: every value below `PERM_SIZE`
/// occurs exactly once.
pub fn perlin_generate_perm() -> (r: [u32; 256])
    ensures
        r@.len() == PERM_SIZE,
        r@.to_multiset() == identity_perm().to_multiset(),
        forall|k: int| 0 <= k < PERM_SIZE ==> #[trigger] r@[k] < PERM_SIZE,
        r@.no_duplicates(),
{
    let mut p: [u32; 256] = [0; 256];
    let mut i: u32 = 0;
    while i < 256
        invariant
            i <= 256,
            p@.len() == PERM_SIZE,
            forall|k: int| 0 <= k < i ==> #[trigger] p@[k] == k as u32,
        decreases 256 - i,
    {
        p[i as usize] = i;
        i = i + 1;
    }
    assert(p@ =~= identity_perm());
    permute(&mut p, 256);
    proof {
        assert forall|k: int| 0 <= k < PERM_SIZE implies #[trigger] p@[k] < PERM_SIZE by {
            let v = p@[k];
            assert(identity_perm().contains(v));
            let w = choose|w: int| 0 <= w < identity_perm().len() && identity_perm()[w] == v;
            assert(identity_perm()[w] == w as u32);
        }
        assert(identity_perm().no_duplicates());
        identity_perm().lemma_multiset_has_no_duplicates();
        p@.lemma_multiset_has_no_duplicates_conv();
    }
    p
}

/// The three permutation tables that hash an integer lattice point to one of
/// the `PERM_SIZE` gradient slots of a noise table.
#[derive(Clone, Debug)]
pub struct PerlinLattice {
    pub perm_x: [u32; 256],
    pub perm_y: [u32; 256],
    pub perm_z: [u32; 256],
}

/// Every entry of `t` names a slot of the table.
pub open spec fn perm_in_range(t: Seq<u32>) -> bool {
    t.len() == PERM_SIZE && forall|k: int| 0 <= k < PERM_SIZE ==> #[trigger] t[k] < PERM_SIZE
}

impl PerlinLattice {
    pub open spec fn wf(&self) -> bool {
        perm_in_range(self.perm_x@) && perm_in_range(self.perm_y@) && perm_in_range(self.perm_z@)
    }

    /// The slot of lattice point `(i, j, k)`: each coordinate is taken modulo
    /// `PERM_SIZE`, looked up in its axis table, and the three entries are
    /// combined by exclusive or.
    pub open spec fn slot(&self, i: int, j: int, k: int) -> int {
        (self.perm_x@[i % 256] ^ self.perm_y@[j % 256] ^ self.perm_z@[k % 256]) as int
    }

    /// Three independent random permutations of `0..PERM_SIZE`.
    pub fn new() -> (r: PerlinLattice)
        ensures
            r.wf(),
            r.perm_x@.to_multiset() == identity_perm().to_multiset(),
            r.perm_y@.to_multiset() == identity_perm().to_multiset(),
            r.perm_z@.to_multiset() == identity_perm().to_multiset(),
    {
        PerlinLattice {
            perm_x: perlin_generate_perm(),
            perm_y: perlin_generate_perm(),
            perm_z: perlin_generate_perm(),
        }
    }

    /// The slots of the eight corners of the unit cell whose lowest corner is
    /// `(i, j, k)`. Corner `c` is offset by `c / 4` along x, `(c / 2) % 2`
    /// along y and `c % 2` along z; coordinates wrap around the table.
    pub fn cell_corners(&self, i: usize, j: usize, k: usize) -> (r: [usize; 8])
        requires
            self.wf(),
        ensures
            forall|c: int|
                0 <= c < 8 ==> #[trigger] r@[c] == self.slot(
                    i + c / 4,
                    j + (c / 2) % 2,
                    k + c % 2,
                ),
            forall|c: int| 0 <= c < 8 ==> #[trigger] r@[c] < PERM_SIZE,
    {
        let mut r: [usize; 8] = [0; 8];
        let mut c: usize = 0;
        while c < 8
            invariant
                c <= 8,
                self.wf(),
                r@.len() == 8,
                forall|d: int|
                    0 <= d < c ==> #[trigger] r@[d] == self.slot(
                        i + d / 4,
                        j + (d / 2) % 2,
                        k + d % 2,
                    ),
                forall|d: int| 0 <= d < c ==> #[trigger] r@[d] < PERM_SIZE,
            decreases 8 - c,
        {
            let xi = (i % 256 + c / 4) % 256;
            let yj = (j % 256 + (c / 2) % 2) % 256;
            let zk = (k % 256 + c % 2) % 256;
            let a = self.perm_x[xi];
            let b = self.perm_y[yj];
            let e = self.perm_z[zk];
            assert(a < 256 && b < 256 && e < 256 ==> a ^ b ^ e < 256) by (bit_vector);
            proof {
                vstd::arithmetic::div_mod::lemma_add_mod_noop(i as int, (c / 4) as int, 256);
                vstd::arithmetic::div_mod::lemma_add_mod_noop(j as int, ((c / 2) % 2) as int, 256);
                vstd::arithmetic::div_mod::lemma_add_mod_noop(k as int, (c % 2) as int, 256);
                vstd::arithmetic::div_mod::lemma_mod_twice((c / 4) as int, 256);
                vstd::arithmetic::div_mod::lemma_mod_twice(((c / 2) % 2) as int, 256);
                vstd::arithmetic::div_mod::lemma_mod_twice((c % 2) as int, 256);
            }
            r[c] = (a ^ b ^ e) as usize;
            c = c + 1;
        }
        r
    }
}

} // verus!

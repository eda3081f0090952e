use vstd::prelude::*;
use crate::random::random_index;
use crate::lemma_swap_keeps_multiset;

verus! {

broadcast use vstd::seq_lib::group_to_multiset_ensures;

/// Number of coordinate axes a node can split along.
pub const AXES: u32 = 3;

/// Sort key of a coordinate, from the IEEE-754 bits of a single-precision
/// value: non-negative values get the sign bit set, negative values have all
/// bits flipped, so that unsigned order of keys follows the order of the values.
pub open spec fn spec_order_key(bits: u32) -> u32 {
    if bits & 0x8000_0000u32 != 0 {
        !bits
    } else {
        bits | 0x8000_0000u32
    }
}

pub fn order_key(bits: u32) -> (r: u32)
    ensures
        r == spec_order_key(bits),
{
    if bits & 0x8000_0000u32 != 0 {
        !bits
    } else {
        bits | 0x8000_0000u32
    }
}

/// The value that single-precision bits `bits` encode in sign-magnitude form:
/// IEEE-754 orders all values that are not NaN as these integers, with the two
/// zeros equal.
pub open spec fn sign_magnitude(bits: u32) -> int {
    if bits & 0x8000_0000u32 != 0 {
        -((bits & 0x7fff_ffffu32) as int)
    } else {
        (bits & 0x7fff_ffffu32) as int
    }
}

/// Sort keys keep the order of the values they come from: a smaller value
/// always has a smaller key, so sorting by key sorts by coordinate.
pub proof fn lemma_order_key_monotone(a: u32, b: u32)
    requires
        sign_magnitude(a) < sign_magnitude(b),
    ensures
        spec_order_key(a) < spec_order_key(b),
{
    if a & 0x8000_0000u32 != 0 && b & 0x8000_0000u32 != 0 {
        assert(a & 0x8000_0000u32 != 0 && b & 0x8000_0000u32 != 0 && (a & 0x7fff_ffffu32) > (b
            & 0x7fff_ffffu32) ==> !a < !b) by (bit_vector);
    } else if a & 0x8000_0000u32 != 0 {
        assert(a & 0x8000_0000u32 != 0 && b & 0x8000_0000u32 == 0 ==> !a < (b | 0x8000_0000u32))
            by (bit_vector);
    } else if b & 0x8000_0000u32 == 0 {
        assert(a & 0x8000_0000u32 == 0 && b & 0x8000_0000u32 == 0 && (a & 0x7fff_ffffu32) < (b
            & 0x7fff_ffffu32) ==> (a | 0x8000_0000u32) < (b | 0x8000_0000u32)) by (bit_vector);
    }
}

/// A child of a hierarchy node: one primitive, named by its index in the
/// scene's list, or a further node.
#[derive(Debug)]
pub enum BvhChild {
    Leaf(usize),
    Node(Box<BvhTree>),
}

/// Shape of a bounding-volume hierarchy over a list of primitives. Every node
/// has exactly two children; `axis` is the coordinate its items were sorted on
/// before they were split.
#[derive(Debug)]
pub struct BvhTree {
    pub axis: u32,
    pub left: BvhChild,
    pub right: BvhChild,
}

/// Sort key of primitive `item` along `axis`.
pub open spec fn key_of(keys: Seq<[u32; 3]>, item: usize, axis: u32) -> u32 {
    keys[item as int]@[axis as int]
}

/// `s` is in non-decreasing key order along `axis`.
pub open spec fn sorted_on(keys: Seq<[u32; 3]>, s: Seq<usize>, axis: u32) -> bool {
    forall|a: int, b: int|
        0 <= a < b < s.len() ==> key_of(keys, #[trigger] s[a], axis) <= key_of(
            keys,
            #[trigger] s[b],
            axis,
        )
}

/// Every item of `l` has a key no greater than every item of `r` along `axis`.
pub open spec fn ordered_halves(keys: Seq<[u32; 3]>, l: Seq<usize>, r: Seq<usize>, axis: u32) -> bool {
    forall|a: int, b: int|
        0 <= a < l.len() && 0 <= b < r.len() ==> key_of(keys, #[trigger] l[a], axis) <= key_of(
            keys,
            #[trigger] r[b],
            axis,
        )
}

/// Every item names an entry of `keys`.
pub open spec fn items_in(keys: Seq<[u32; 3]>, s: Seq<usize>) -> bool {
    forall|k: int| 0 <= k < s.len() ==> #[trigger] s[k] < keys.len()
}

impl BvhTree {
    /// `self` is the hierarchy that the construction rule gives for the
    /// primitives `s`, taken in any order: one primitive fills both children;
    /// two are put one per side in key order; more are sorted along the node's
    /// axis, and the lower half (rounded down) and the upper half become the
    /// two subtrees.
    pub open spec fn built_from(self, keys: Seq<[u32; 3]>, s: Seq<usize>) -> bool
        decreases self,
    {
        &&& self.axis < AXES
        &&& if s.len() == 1 {
            self.left == BvhChild::Leaf(s[0]) && self.right == BvhChild::Leaf(s[0])
        } else if s.len() == 2 {
            match (self.left, self.right) {
                (BvhChild::Leaf(a), BvhChild::Leaf(b)) => {
                    &&& seq![a, b].to_multiset() == s.to_multiset()
                    &&& key_of(keys, a, self.axis) <= key_of(keys, b, self.axis)
                },
                _ => false,
            }
        } else if s.len() > 2 {
            match (self.left, self.right) {
                (BvhChild::Node(l), BvhChild::Node(r)) => exists|sl: Seq<usize>, sr: Seq<usize>|
                    {
                        &&& sl.len() == s.len() / 2
                        &&& #[trigger] (sl + sr).to_multiset() == s.to_multiset()
                        &&& ordered_halves(keys, sl, sr, self.axis)
                        &&& l.built_from(keys, sl)
                        &&& r.built_from(keys, sr)
                    },
                _ => false,
            }
        } else {
            false
        }
    }
}

/// Sorts `items` by their key along `axis` (insertion sort).
fn sort_on_axis(keys: &Vec<[u32; 3]>, items: &mut Vec<usize>, axis: u32)
    requires
        axis < AXES,
        items_in(keys@, old(items)@),
    ensures
        final(items)@.len() == old(items)@.len(),
        final(items)@.to_multiset() == old(items)@.to_multiset(),
        sorted_on(keys@, final(items)@, axis),
        items_in(keys@, final(items)@),
{
    let n = items.len();
    let mut i: usize = 1;
    while i < n
        invariant
            axis < AXES,
            n == items@.len(),
            items@.len() == old(items)@.len(),
            items@.to_multiset() == old(items)@.to_multiset(),
            items_in(keys@, items@),
            n == 0 || i <= n,
            sorted_on(keys@, items@.subrange(0, if i <= n { i as int } else { n as int }), axis),
        decreases n - i,
    {
        proof {
            let pre = items@.subrange(0, i as int);
            assert forall|a: int, b: int|
                0 <= a < b < i implies key_of(keys@, #[trigger] items@[a], axis) <= key_of(
                keys@,
                #[trigger] items@[b],
                axis,
            ) by {
                assert(pre[a] == items@[a] && pre[b] == items@[b]);
            }
        }
        let mut j: usize = i;
        while j > 0 && keys[items[j - 1]][axis as usize] > keys[items[j]][axis as usize]
            invariant
                axis < AXES,
                0 <= j <= i < n,
                n == items@.len(),
                items@.len() == old(items)@.len(),
                items@.to_multiset() == old(items)@.to_multiset(),
                items_in(keys@, items@),
                forall|a: int, b: int|
                    0 <= a < b <= i && a != j && b != j ==> key_of(keys@, #[trigger] items@[a], axis)
                        <= key_of(keys@, #[trigger] items@[b], axis),
                forall|b: int|
                    j < b <= i ==> key_of(keys@, items@[j as int], axis) <= key_of(
                        keys@,
                        #[trigger] items@[b],
                        axis,
                    ),
            decreases j,
        {
            let ghost before = items@;
            let lower = items[j - 1];
            let upper = items[j];
            items[j - 1] = upper;
            items[j] = lower;
            proof {
                lemma_swap_keeps_multiset(before, j - 1, j as int);
                assert(items@ =~= before.update(j - 1, before[j as int]).update(
                    j as int,
                    before[j - 1],
                ));
            }
            j = j - 1;
        }
        proof {
            assert forall|a: int, b: int|
                0 <= a < b < i + 1 implies key_of(
                keys@,
                #[trigger] items@.subrange(0, i + 1)[a],
                axis,
            ) <= key_of(keys@, #[trigger] items@.subrange(0, i + 1)[b], axis) by {
                if a == j && j > 0 {
                    assert(key_of(keys@, items@[j - 1], axis) <= key_of(keys@, items@[j as int], axis));
                }
                if b == j && j > 0 && a < j - 1 {
                    assert(key_of(keys@, items@[a], axis) <= key_of(keys@, items@[j - 1], axis));
                }
            }
        }
        i = i + 1;
    }
    proof {
        if n > 0 {
            assert(items@.subrange(0, n as int) =~= items@);
        } else {
            assert forall|a: int, b: int| 0 <= a < b < items@.len() implies key_of(
                keys@,
                #[trigger] items@[a],
                axis,
            ) <= key_of(keys@, #[trigger] items@[b], axis) by {}
        }
    }
}

/// The primitives `0, 1, ..., n - 1`.
pub open spec fn all_items(n: nat) -> Seq<usize> {
    Seq::new(n, |k: int| k as usize)
}

impl BvhTree {
    /// Builds the hierarchy over the primitives named by `items`, choosing the
    /// split axis of each node at random.
    fn build_over(keys: &Vec<[u32; 3]>, items: Vec<usize>) -> (r: BvhTree)
        requires
            items@.len() >= 1,
            items_in(keys@, items@),
        ensures
            r.built_from(keys@, items@),
        decreases items@.len(),
    {
        let ghost given = items@;
        let mut items = items;
        let axis = random_index(AXES);
        sort_on_axis(keys, &mut items, axis);
        let n = items.len();
        if n == 1 {
            proof {
                assert(items@.contains(items@[0]));
                assert(given.to_multiset().count(items@[0]) > 0);
                assert(given.contains(items@[0]));
            }
            BvhTree { axis, left: BvhChild::Leaf(items[0]), right: BvhChild::Leaf(items[0]) }
        } else if n == 2 {
            let a = items[0];
            let b = items[1];
            proof {
                assert(items@ =~= seq![a, b]);
            }
            BvhTree { axis, left: BvhChild::Leaf(a), right: BvhChild::Leaf(b) }
        } else {
            let ghost sorted = items@;
            let upper = items.split_off(n / 2);
            let ghost sl = items@;
            let ghost sr = upper@;
            proof {
                assert(sl + sr =~= sorted);
                assert forall|a: int, b: int|
                    0 <= a < sl.len() && 0 <= b < sr.len() implies key_of(
                    keys@,
                    #[trigger] sl[a],
                    axis,
                ) <= key_of(keys@, #[trigger] sr[b], axis) by {
                    assert(sl[a] == sorted[a] && sr[b] == sorted[sl.len() + b]);
                }
                assert forall|k: int| 0 <= k < sr.len() implies #[trigger] sr[k] < keys@.len() by {
                    assert(sr[k] == sorted[sl.len() + k]);
                }
            }
            let l = BvhTree::build_over(keys, items);
            let r = BvhTree::build_over(keys, upper);
            let t = BvhTree {
                axis,
                left: BvhChild::Node(Box::new(l)),
                right: BvhChild::Node(Box::new(r)),
            };
            proof {
                assert((sl + sr).to_multiset() == given.to_multiset());
                assert(ordered_halves(keys@, sl, sr, axis));
            }
            t
        }
    }

    /// Builds a hierarchy over all the primitives of a scene. `keys[i]` holds
    /// the sort keys of primitive `i` along x, y and z: those of the lower
    /// corner of its bounding box (see `order_key`).
    pub fn build(keys: &Vec<[u32; 3]>) -> (r: BvhTree)
        requires
            keys@.len() >= 1,
        ensures
            r.built_from(keys@, all_items(keys@.len())),
    {
        let n = keys.len();
        let mut items: Vec<usize> = Vec::new();
        let mut i: usize = 0;
        while i < n
            invariant
                i <= n,
                n == keys@.len(),
                items@ =~= all_items(i as nat),
            decreases n - i,
        {
            items.push(i);
            i = i + 1;
        }
        BvhTree::build_over(keys, items)
    }
}

impl BvhChild {
    /// The primitives below this child, left to right.
    pub open spec fn leaves(self) -> Seq<usize>
        decreases self,
    {
        match self {
            BvhChild::Leaf(i) => seq![i],
            BvhChild::Node(t) => t.left.leaves() + t.right.leaves(),
        }
    }
}

impl BvhTree {
    /// The primitives at the leaves of the hierarchy, left to right.
    pub open spec fn leaves(self) -> Seq<usize> {
        self.left.leaves() + self.right.leaves()
    }
}

/// A hierarchy built over a set of primitives holds exactly those primitives
/// at its leaves: none is lost, none is added. A traversal that visits every
/// leaf whose boxes the ray meets therefore sees the same candidates as a scan
/// of the whole list.
pub proof fn lemma_leaves_are_items(t: BvhTree, keys: Seq<[u32; 3]>, s: Seq<usize>)
    requires
        t.built_from(keys, s),
    ensures
        forall|x: usize| t.leaves().contains(x) <==> s.contains(x),
    decreases t,
{
    broadcast use vstd::seq_lib::group_seq_properties;
    broadcast use vstd::multiset::group_multiset_axioms;

    if s.len() == 1 {
        assert(t.leaves() =~= seq![s[0], s[0]]);
    } else if s.len() == 2 {
        if let (BvhChild::Leaf(a), BvhChild::Leaf(b)) = (t.left, t.right) {
            assert(t.leaves() =~= seq![a, b]);
        }
        assert forall|x: usize| t.leaves().contains(x) <==> s.contains(x) by {
            assert(t.leaves().to_multiset() == s.to_multiset());
            assert(t.leaves().contains(x) <==> t.leaves().to_multiset().count(x) > 0);
            assert(s.contains(x) <==> s.to_multiset().count(x) > 0);
        }
    } else {
        match (t.left, t.right) {
            (BvhChild::Node(l), BvhChild::Node(r)) => {
                let (sl, sr) = choose|sl: Seq<usize>, sr: Seq<usize>|
                    {
                        &&& sl.len() == s.len() / 2
                        &&& #[trigger] (sl + sr).to_multiset() == s.to_multiset()
                        &&& ordered_halves(keys, sl, sr, t.axis)
                        &&& l.built_from(keys, sl)
                        &&& r.built_from(keys, sr)
                    };
                lemma_leaves_are_items(*l, keys, sl);
                lemma_leaves_are_items(*r, keys, sr);
                assert forall|x: usize| t.leaves().contains(x) <==> s.contains(x) by {
                    assert(t.left.leaves() == l.leaves());
                    assert(t.right.leaves() == r.leaves());
                    assert((sl + sr).contains(x) <==> (sl + sr).to_multiset().count(x) > 0);
                    assert(s.contains(x) <==> s.to_multiset().count(x) > 0);
                }
            },
            _ => {},
        }
    }
}

} // verus!

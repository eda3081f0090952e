use raytrace::bvh::{order_key, BvhChild, BvhTree};

fn leaves(c: &BvhChild, out: &mut Vec<usize>) {
    match c {
        BvhChild::Leaf(i) => out.push(*i),
        BvhChild::Node(t) => {
            leaves(&t.left, out);
            leaves(&t.right, out);
        }
    }
}

fn all_leaves(t: &BvhTree) -> Vec<usize> {
    let mut v = Vec::new();
    leaves(&t.left, &mut v);
    leaves(&t.right, &mut v);
    v
}

fn same_on_all_axes(ks: &[u32]) -> Vec<[u32; 3]> {
    ks.iter().map(|&k| [k, k, k]).collect()
}

#[test]
fn single_primitive_fills_both_children() {
    let t = BvhTree::build(&same_on_all_axes(&[7]));
    assert!(t.axis < 3);
    assert!(matches!(t.left, BvhChild::Leaf(0)));
    assert!(matches!(t.right, BvhChild::Leaf(0)));
}

#[test]
fn two_primitives_one_per_side_in_key_order() {
    let t = BvhTree::build(&same_on_all_axes(&[9, 2]));
    assert!(matches!(t.left, BvhChild::Leaf(1)));
    assert!(matches!(t.right, BvhChild::Leaf(0)));
}

#[test]
fn five_primitives_split_at_the_midpoint() {
    let t = BvhTree::build(&same_on_all_axes(&[50, 10, 40, 20, 30]));
    assert_eq!(all_leaves(&t), vec![1, 3, 4, 4, 2, 0]);
    match (&t.left, &t.right) {
        (BvhChild::Node(l), BvhChild::Node(r)) => {
            assert!(matches!(l.left, BvhChild::Leaf(1)));
            assert!(matches!(l.right, BvhChild::Leaf(3)));
            assert!(matches!(r.left, BvhChild::Node(_)));
            assert!(matches!(r.right, BvhChild::Node(_)));
        }
        _ => panic!("a node over five primitives has two subtrees"),
    }
}

#[test]
fn every_primitive_is_a_leaf() {
    let keys: Vec<[u32; 3]> = (0..40u32).map(|i| [(i * 7) % 13, (i * 5) % 11, 40 - i]).collect();
    let t = BvhTree::build(&keys);
    let mut l = all_leaves(&t);
    l.sort();
    l.dedup();
    assert_eq!(l, (0..40).collect::<Vec<usize>>());
}

#[test]
fn order_key_follows_float_order() {
    let values = [-1.0e9f32, -2.5, -1.0, -0.0, 0.0, 1.0e-20, 0.5, 1.0, 3.0e8];
    for w in values.windows(2) {
        assert!(order_key(w[0].to_bits()) <= order_key(w[1].to_bits()));
    }
    assert!(order_key((-1.0f32).to_bits()) < order_key(1.0f32.to_bits()));
    assert_eq!(order_key(0.0f32.to_bits()), 0x8000_0000);
    assert_eq!(order_key((-0.0f32).to_bits()), 0x7fff_ffff);
    assert_eq!(order_key(1.0f32.to_bits()), 0x3f80_0000 | 0x8000_0000);
}

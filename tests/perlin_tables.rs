use raytrace::perlin::{permute, perlin_generate_perm, PerlinLattice, PERM_SIZE};

fn identity() -> [u32; 256] {
    let mut t = [0u32; 256];
    for (i, v) in t.iter_mut().enumerate() {
        *v = i as u32;
    }
    t
}

#[test]
fn generated_perm_holds_each_slot_once() {
    let p = perlin_generate_perm();
    let mut sorted = p.to_vec();
    sorted.sort();
    let expected: Vec<u32> = (0..PERM_SIZE as u32).collect();
    assert_eq!(sorted, expected);
}

#[test]
fn permute_keeps_values_and_tail() {
    let mut p: Vec<u32> = vec![10, 20, 30, 40, 50, 60, 70];
    permute(&mut p, 4);
    assert_eq!(&p[4..], &[50, 60, 70]);
    let mut head = p[..4].to_vec();
    head.sort();
    assert_eq!(head, vec![10, 20, 30, 40]);
}

#[test]
fn permute_of_zero_or_one_leaves_slice() {
    let mut p: Vec<u32> = vec![3, 1, 2];
    permute(&mut p, 0);
    assert_eq!(p, vec![3, 1, 2]);
    permute(&mut p, 1);
    assert_eq!(p, vec![3, 1, 2]);
}

#[test]
fn new_lattice_tables_are_permutations() {
    let l = PerlinLattice::new();
    for t in [l.perm_x, l.perm_y, l.perm_z] {
        let mut s = t.to_vec();
        s.sort();
        assert_eq!(s, identity().to_vec());
    }
}

#[test]
fn cell_corners_xor_identity_tables() {
    let l = PerlinLattice { perm_x: identity(), perm_y: identity(), perm_z: identity() };
    let c = l.cell_corners(3, 5, 9);
    // corner order: x offset c / 4, y offset (c / 2) % 2, z offset c % 2
    assert_eq!(c, [3 ^ 5 ^ 9, 3 ^ 5 ^ 10, 3 ^ 6 ^ 9, 3 ^ 6 ^ 10, 4 ^ 5 ^ 9, 4 ^ 5 ^ 10, 4 ^ 6 ^ 9, 4 ^ 6 ^ 10]);
}

#[test]
fn cell_corners_wrap_around_the_table() {
    let l = PerlinLattice { perm_x: identity(), perm_y: identity(), perm_z: identity() };
    let c = l.cell_corners(255, 256, usize::MAX);
    // 255 + 1 wraps to 0; 256 is 0; usize::MAX is 255 modulo 256 and wraps to 0
    assert_eq!(c[0], 255 ^ 0 ^ 255);
    assert_eq!(c[1], 255 ^ 0 ^ 0);
    assert_eq!(c[2], 255 ^ 1 ^ 255);
    assert_eq!(c[7], 0 ^ 1 ^ 0);
}

#[test]
fn cell_corners_look_up_each_table() {
    let mut px = identity();
    px.reverse();
    let mut py = [0u32; 256];
    py[7] = 200;
    let pz = [0u32; 256];
    let l = PerlinLattice { perm_x: px, perm_y: py, perm_z: pz };
    let c = l.cell_corners(0, 6, 0);
    assert_eq!(c[0], 255);
    assert_eq!(c[2], 255 ^ 200);
    assert_eq!(c[4], 254);
    assert_eq!(c[6], 254 ^ 200);
}

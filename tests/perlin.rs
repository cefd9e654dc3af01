use rustracer::perlin::{gen_rand_int_list, LatticeHash, POINT_COUNT};

#[test]
fn permutation_of_all_slots() {
    let p = gen_rand_int_list();
    let mut sorted = p.clone();
    sorted.sort();
    assert_eq!(sorted, (0..POINT_COUNT).collect::<Vec<_>>());
}

#[test]
fn permutations_are_shuffled() {
    let identity: Vec<usize> = (0..POINT_COUNT).collect();
    let h = LatticeHash::new();
    assert!(h.x != identity || h.y != identity || h.z != identity);
}

#[test]
fn hash_xors_the_three_tables() {
    let h = LatticeHash::new();
    assert_eq!(h.hash(3, 4, 5), h.x[3] ^ h.y[4] ^ h.z[5]);
    assert_eq!(h.hash(-1, 0, 0), h.x[255] ^ h.y[0] ^ h.z[0]);
    assert_eq!(h.hash(256, 513, -256), h.hash(0, 1, 0));
}

#[test]
fn hash_stays_in_range() {
    let h = LatticeHash::new();
    for i in -300..300 {
        assert!(h.hash(i, i * 7, -i * 3) < POINT_COUNT);
    }
    assert!(h.hash(i32::MIN, i32::MAX, 0) < POINT_COUNT);
}

#[test]
fn fixed_tables_hash() {
    let id: Vec<usize> = (0..POINT_COUNT).collect();
    let rev: Vec<usize> = (0..POINT_COUNT).rev().collect();
    let h = LatticeHash { x: id.clone(), y: rev, z: id };
    // 1 ^ 253 ^ 3 = 255
    assert_eq!(h.hash(1, 2, 3), 255);
    assert_eq!(h.hash(0, 255, 0), 0);
}

use rustracer::bvh::{build_bvh, BvhShape, MinCorner};

fn corner(x: u32, y: u32, z: u32) -> MinCorner {
    MinCorner { x, y, z }
}

fn leaves(t: &BvhShape, out: &mut Vec<usize>) {
    match t {
        BvhShape::Leaf(i) => out.push(*i),
        BvhShape::Pair(a, b) => {
            out.push(*a);
            out.push(*b);
        }
        BvhShape::Split { left, right, .. } => {
            leaves(left, out);
            leaves(right, out);
        }
    }
}

fn check_splits(t: &BvhShape, keys: &[MinCorner]) {
    if let BvhShape::Split { axis, left, right } = t {
        let (mut l, mut r) = (Vec::new(), Vec::new());
        leaves(left, &mut l);
        leaves(right, &mut r);
        assert_eq!(l.len(), (l.len() + r.len()) / 2);
        let lmax = l.iter().map(|&i| keys[i].along(*axis)).max().unwrap();
        let rmin = r.iter().map(|&i| keys[i].along(*axis)).min().unwrap();
        assert!(lmax <= rmin);
        check_splits(left, keys);
        check_splits(right, keys);
    }
}

fn scattered_keys(n: u32) -> Vec<MinCorner> {
    (0..n).map(|i| corner((i * 37) % 101, (i * 59) % 97, (i * 13) % 89)).collect()
}

#[test]
fn single_primitive_is_a_leaf() {
    let keys = vec![corner(4, 5, 6)];
    match BvhShape::new(&keys) {
        Some(BvhShape::Leaf(0)) => {}
        _ => panic!("expected a leaf over primitive 0"),
    }
}

#[test]
fn two_primitives_make_a_pair() {
    let keys = vec![corner(9, 9, 9), corner(1, 1, 1)];
    match BvhShape::new(&keys) {
        Some(BvhShape::Pair(a, b)) => {
            let mut both = vec![a, b];
            both.sort();
            assert_eq!(both, vec![0, 1]);
            // every axis orders primitive 1 first
            assert_eq!((a, b), (1, 0));
        }
        _ => panic!("expected a pair"),
    }
}

#[test]
fn no_primitives_no_hierarchy() {
    assert!(BvhShape::new(&Vec::new()).is_none());
}

#[test]
fn every_primitive_in_exactly_one_leaf() {
    for n in [3u32, 4, 5, 7, 16, 33, 100] {
        let keys = scattered_keys(n);
        let t = BvhShape::new(&keys).unwrap();
        let mut l = Vec::new();
        leaves(&t, &mut l);
        l.sort();
        assert_eq!(l, (0..n as usize).collect::<Vec<_>>());
    }
}

#[test]
fn splits_are_median_and_ordered() {
    for n in [3u32, 6, 10, 41] {
        let keys = scattered_keys(n);
        let t = BvhShape::new(&keys).unwrap();
        assert!(matches!(t, BvhShape::Split { .. }));
        check_splits(&t, &keys);
    }
}

#[test]
fn subset_of_primitives() {
    let keys = scattered_keys(20);
    let ids = vec![3usize, 17, 8, 11, 2];
    let t = build_bvh(&ids, &keys);
    let mut l = Vec::new();
    leaves(&t, &mut l);
    l.sort();
    assert_eq!(l, vec![2, 3, 8, 11, 17]);
    check_splits(&t, &keys);
}

#[test]
fn equal_keys_keep_every_primitive() {
    let keys = vec![corner(5, 5, 5); 9];
    let t = BvhShape::new(&keys).unwrap();
    let mut l = Vec::new();
    leaves(&t, &mut l);
    l.sort();
    assert_eq!(l, (0..9).collect::<Vec<_>>());
}

#[test]
fn three_primitives_split_one_and_two() {
    let keys = vec![corner(2, 2, 2), corner(0, 0, 0), corner(1, 1, 1)];
    match BvhShape::new(&keys).unwrap() {
        BvhShape::Split { left, right, .. } => {
            assert!(matches!(*left, BvhShape::Leaf(1)));
            assert!(matches!(*right, BvhShape::Pair(2, 0)));
        }
        _ => panic!("expected a split"),
    }
}

#[test]
fn corner_along_axes() {
    let c = corner(1, 2, 3);
    assert_eq!((c.along(0), c.along(1), c.along(2)), (1, 2, 3));
}

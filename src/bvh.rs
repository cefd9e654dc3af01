//! Construction of a bounding volume hierarchy by randomized median splits.
//!
//! Each primitive is known here only by its index and by the minimum corner of
//! its bounding box, given as one order-preserving integer key per axis. The
//! result is the shape of the tree over those indices; the application hangs
//! its primitives and boxes on it.
use vstd::prelude::*;
use crate::trusted::random_axis;

verus! {

broadcast use vstd::seq_lib::group_to_multiset_ensures;

/// The minimum corner of a bounding box, one order key per axis: a smaller key
/// stands for a smaller coordinate.
#[derive(Clone, Copy, Debug, PartialEq, Eq)]
pub struct MinCorner {
    pub x: u32,
    pub y: u32,
    pub z: u32,
}

impl MinCorner {
    /// The key along `axis` (0 for x, 1 for y, 2 for z).
    pub open spec fn coord(self, axis: int) -> u32 {
        if axis == 0 {
            self.x
        } else if axis == 1 {
            self.y
        } else {
            self.z
        }
    }

    pub fn along(&self, axis: usize) -> (r: u32)
        requires
            axis < 3,
        ensures
            r == self.coord(axis as int),
    {
        if axis == 0 {
            self.x
        } else if axis == 1 {
            self.y
        } else {
            self.z
        }
    }
}

/// The shape of a hierarchy over primitive indices. A single primitive is a
/// leaf (both children of its node are that primitive); two primitives are a
/// pair; more are split along `axis` into a lower half and an upper half.
pub enum BvhShape {
    Leaf(usize),
    Pair(usize, usize),
    Split { axis: usize, left: Box<BvhShape>, right: Box<BvhShape> },
}

/// The primitives of a hierarchy, from left to right.
pub open spec fn leaves(t: BvhShape) -> Seq<usize>
    decreases t,
{
    match t {
        BvhShape::Leaf(i) => seq![i],
        BvhShape::Pair(a, b) => seq![a, b],
        BvhShape::Split { left, right, .. } => leaves(*left) + leaves(*right),
    }
}

/// The key of primitive `id` along `axis`.
pub open spec fn key(keys: Seq<MinCorner>, id: usize, axis: int) -> u32 {
    keys[id as int].coord(axis)
}

/// `ids` is ordered by key along `axis`.
pub open spec fn sorted_along(ids: Seq<usize>, keys: Seq<MinCorner>, axis: int) -> bool {
    forall|i: int, j: int|
        0 <= i < j < ids.len() ==> key(keys, #[trigger] ids[i], axis) <= key(keys, #[trigger] ids[j], axis)
}

/// Every index in `ids` names a primitive of `keys`.
pub open spec fn indices_in(ids: Seq<usize>, keys: Seq<MinCorner>) -> bool {
    forall|i: int| 0 <= i < ids.len() ==> #[trigger] ids[i] < keys.len()
}

/// Every split divides its primitives at the median: the left child holds the
/// lower half (rounded down), none of whose keys along the split axis exceeds
/// a key of the right child.
pub open spec fn median_split(t: BvhShape, keys: Seq<MinCorner>) -> bool
    decreases t,
{
    match t {
        BvhShape::Leaf(_) => true,
        BvhShape::Pair(_, _) => true,
        BvhShape::Split { axis, left, right } => {
            let n = leaves(*left).len() + leaves(*right).len();
            &&& axis < 3
            &&& n >= 3
            &&& leaves(*left).len() == n / 2
            &&& forall|a: usize, b: usize|
                leaves(*left).contains(a) && leaves(*right).contains(b) ==> key(keys, a, axis as int)
                    <= key(keys, b, axis as int)
            &&& median_split(*left, keys)
            &&& median_split(*right, keys)
        },
    }
}

/// Orders `ids` by key along `axis`, keeping the order of equal keys.
fn sort_along(ids: &Vec<usize>, keys: &Vec<MinCorner>, axis: usize) -> (r: Vec<usize>)
    requires
        axis < 3,
        indices_in(ids@, keys@),
    ensures
        r@.to_multiset() == ids@.to_multiset(),
        r@.len() == ids@.len(),
        sorted_along(r@, keys@, axis as int),
        indices_in(r@, keys@),
{
    let mut out: Vec<usize> = Vec::new();
    let mut n: usize = 0;
    while n < ids.len()
        invariant
            axis < 3,
            n <= ids.len(),
            indices_in(ids@, keys@),
            out@.to_multiset() == ids@.subrange(0, n as int).to_multiset(),
            sorted_along(out@, keys@, axis as int),
            indices_in(out@, keys@),
        decreases ids.len() - n,
    {
        let id = ids[n];
        let k = keys[id].along(axis);
        let mut pos: usize = out.len();
        while pos > 0 && keys[out[pos - 1]].along(axis) > k
            invariant
                axis < 3,
                pos <= out.len(),
                indices_in(out@, keys@),
                forall|q: int| pos <= q < out.len() ==> key(keys@, #[trigger] out@[q], axis as int) > k,
            decreases pos,
        {
            pos = pos - 1;
        }
        proof {
            assert forall|q: int| 0 <= q < pos implies key(keys@, #[trigger] out@[q], axis as int) <= k by {
                if q < pos - 1 {
                    assert(key(keys@, out@[q], axis as int) <= key(keys@, out@[pos - 1], axis as int));
                }
            }
            assert(ids@.subrange(0, n + 1) =~= ids@.subrange(0, n as int).push(id));
        }
        let ghost prev = out@;
        out.insert(pos, id);
        proof {
            assert forall|i: int, j: int| 0 <= i < j < out@.len() implies key(
                keys@,
                #[trigger] out@[i],
                axis as int,
            ) <= key(keys@, #[trigger] out@[j], axis as int) by {
                if j < pos {
                } else if j == pos {
                } else if i < pos {
                    assert(out@[j] == prev[j - 1]);
                } else if i == pos {
                    assert(out@[j] == prev[j - 1]);
                } else {
                    assert(out@[i] == prev[i - 1] && out@[j] == prev[j - 1]);
                }
            }
        }
        n = n + 1;
    }
    assert(ids@.subrange(0, ids.len() as int) =~= ids@);
    assert(out@.to_multiset().len() == ids@.to_multiset().len());
    out
}

/// Builds the hierarchy over the primitives `ids`: draws a random axis, orders
/// the primitives by key along it, and splits them at the median into two
/// halves built recursively; one primitive makes a leaf and two a pair.
pub fn build_bvh(ids: &Vec<usize>, keys: &Vec<MinCorner>) -> (r: BvhShape)
    requires
        ids.len() >= 1,
        indices_in(ids@, keys@),
    ensures
        leaves(r).to_multiset() == ids@.to_multiset(),
        median_split(r, keys@),
        ids.len() == 1 <==> r is Leaf,
        ids.len() == 2 <==> r is Pair,
    decreases ids.len(),
{
    let axis = random_axis();
    let mut lower = sort_along(ids, keys, axis);
    let n = lower.len();
    if n == 1 {
        assert(lower@ =~= seq![lower@[0]]);
        return BvhShape::Leaf(lower[0]);
    }
    if n == 2 {
        assert(lower@ =~= seq![lower@[0], lower@[1]]);
        return BvhShape::Pair(lower[0], lower[1]);
    }
    let ghost sorted = lower@;
    let upper = lower.split_off(n / 2);
    assert(sorted =~= lower@ + upper@);
    let left = build_bvh(&lower, keys);
    let right = build_bvh(&upper, keys);
    proof {
        vstd::seq_lib::lemma_multiset_commutative(leaves(left), leaves(right));
        vstd::seq_lib::lemma_multiset_commutative(lower@, upper@);
        assert(leaves(left).len() == leaves(left).to_multiset().len());
        assert(leaves(right).len() == leaves(right).to_multiset().len());
        assert(leaves(left).len() == n / 2);
        assert(leaves(right).len() == n - n / 2);
        assert forall|a: usize, b: usize|
            leaves(left).contains(a) && leaves(right).contains(b) implies key(keys@, a, axis as int)
            <= key(keys@, b, axis as int) by {
            assert(leaves(left).to_multiset().count(a) > 0);
            assert(lower@.contains(a));
            assert(leaves(right).to_multiset().count(b) > 0);
            assert(upper@.contains(b));
            let i = choose|i: int| 0 <= i < lower@.len() && lower@[i] == a;
            let j = choose|j: int| 0 <= j < upper@.len() && upper@[j] == b;
            assert(sorted[i] == a);
            assert(sorted[(n / 2) as int + j] == b);
        }
    }
    BvhShape::Split { axis, left: Box::new(left), right: Box::new(right) }
}

/// The indices `0 .. n`.
pub open spec fn all_indices(n: nat) -> Seq<usize> {
    Seq::new(n, |i: int| i as usize)
}

impl BvhShape {
    /// The hierarchy over all primitives `0 .. keys.len()`, each in exactly
    /// one leaf; `None` when there are no primitives.
    pub fn new(keys: &Vec<MinCorner>) -> (r: Option<BvhShape>)
        ensures
            r is None <==> keys@.len() == 0,
            r matches Some(t) ==> leaves(t).to_multiset() == all_indices(keys@.len()).to_multiset()
                && median_split(t, keys@),
    {
        if keys.len() == 0 {
            return None;
        }
        let mut ids: Vec<usize> = Vec::new();
        let mut i: usize = 0;
        while i < keys.len()
            invariant
                i <= keys.len(),
                ids@ == all_indices(i as nat),
            decreases keys.len() - i,
        {
            ids.push(i);
            i = i + 1;
            assert(ids@ =~= all_indices(i as nat));
        }
        Some(build_bvh(&ids, keys))
    }
}

} // verus!

//! The hashing behind Perlin noise: three random permutations of `0 .. 256`
//! that map an integer lattice point to one of 256 gradient slots.
use vstd::prelude::*;
use crate::trusted::shuffle;

verus! {

broadcast use vstd::seq_lib::group_to_multiset_ensures;

/// The number of gradient slots, and the length of each permutation.
pub const POINT_COUNT: usize = 256;

/// The sequence `0, 1, .., n - 1`.
pub open spec fn iota(n: nat) -> Seq<usize> {
    Seq::new(n, |i: int| i as usize)
}

/// `p` is a permutation of `0 .. POINT_COUNT`.
pub open spec fn is_permutation(p: Seq<usize>) -> bool {
    &&& p.len() == POINT_COUNT
    &&& p.to_multiset() == iota(POINT_COUNT as nat).to_multiset()
    &&& forall|i: int| 0 <= i < p.len() ==> #[trigger] p[i] < POINT_COUNT
}

/// The slot of lattice coordinate `c` within a permutation: `c` modulo 256,
/// taken from its low eight bits.
pub open spec fn slot(c: i32) -> int {
    (c & 255i32) as int
}

/// A fresh random permutation of `0 .. POINT_COUNT`.
pub fn gen_rand_int_list() -> (r: Vec<usize>)
    ensures
        is_permutation(r@),
{
    let mut p: Vec<usize> = Vec::new();
    let mut i: usize = 0;
    while i < POINT_COUNT
        invariant
            i <= POINT_COUNT,
            p@ == iota(i as nat),
        decreases POINT_COUNT - i,
    {
        p.push(i);
        i = i + 1;
        assert(p@ =~= iota(i as nat));
    }
    let ghost ordered = p@;
    shuffle(&mut p);
    proof {
        assert(p@.len() == p@.to_multiset().len());
        assert(ordered.len() == ordered.to_multiset().len());
        assert forall|i: int| 0 <= i < p@.len() implies #[trigger] p@[i] < POINT_COUNT by {
            assert(p@.contains(p@[i]));
            assert(p@.to_multiset().count(p@[i]) > 0);
            assert(ordered.contains(p@[i]));
        }
    }
    p
}

/// Three independent permutations, one per axis, hashing a lattice point
/// `(i, j, k)` to the slot `x[i] ^ y[j] ^ z[k]`.
pub struct LatticeHash {
    pub x: Vec<usize>,
    pub y: Vec<usize>,
    pub z: Vec<usize>,
}

impl LatticeHash {
    pub open spec fn wf(&self) -> bool {
        is_permutation(self.x@) && is_permutation(self.y@) && is_permutation(self.z@)
    }

    /// Draws the three permutations.
    pub fn new() -> (r: LatticeHash)
        ensures
            r.wf(),
    {
        LatticeHash { x: gen_rand_int_list(), y: gen_rand_int_list(), z: gen_rand_int_list() }
    }

    /// The gradient slot of lattice point `(i, j, k)`; each coordinate is taken
    /// modulo 256.
    pub fn hash(&self, i: i32, j: i32, k: i32) -> (r: usize)
        requires
            self.wf(),
        ensures
            r < POINT_COUNT,
            r == self.x@[slot(i)] ^ self.y@[slot(j)] ^ self.z@[slot(k)],
    {
        assert(0 <= (i & 255i32) < 256 && 0 <= (j & 255i32) < 256 && 0 <= (k & 255i32) < 256)
            by (bit_vector);
        let a = self.x[(i & 255) as usize];
        let b = self.y[(j & 255) as usize];
        let c = self.z[(k & 255) as usize];
        assert(a < 256 && b < 256 && c < 256 ==> a ^ b ^ c < 256) by (bit_vector);
        a ^ b ^ c
    }
}

} // verus!

//! The calls this library makes into outside crates, each behind a contract
//! that the crate's source supports.
use vstd::prelude::*;
use rand::Rng;
use rand::seq::SliceRandom;

verus! {

/// Relies on `rand::Rng::gen_range` with the range `0..3`, drawn from
/// `rand::thread_rng`: the value lies in the range (the range is not empty, so
/// the call does not panic).
#[verifier::external_body]
pub(crate) fn random_axis() -> (r: usize)
    ensures
        r < 3,
{
    rand::thread_rng().gen_range(0..3)
}

/// Relies on `rand::seq::SliceRandom::shuffle` with `rand::thread_rng`: a
/// Fisher-Yates shuffle, which only swaps elements of the slice, so the result
/// holds the same elements in some order.
#[verifier::external_body]
pub(crate) fn shuffle(v: &mut Vec<usize>)
    ensures
        final(v)@.to_multiset() == old(v)@.to_multiset(),
{
    v.shuffle(&mut rand::thread_rng());
}

/// Relies on `num_cpus::get`: the number of CPUs available to this process.
/// Nothing more is promised; on Linux it reads cgroup quotas and the
/// scheduler's affinity mask.
#[verifier::external_body]
pub(crate) fn thread_count() -> (r: usize) {
    num_cpus::get()
}

} // verus!

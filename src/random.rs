//! The random draws of the game and of the optimizer.
use vstd::prelude::*;

verus! {

/// Relies on `rand::Rng::gen_range` on the thread-local generator: the value
/// lies in the half-open range `lo..hi`, which must not be empty.
#[verifier::external_body]
pub(crate) fn random_range(lo: usize, hi: usize) -> (r: usize)
    requires
        lo < hi,
    ensures
        lo <= r < hi,
{
    rand::Rng::gen_range(&mut rand::thread_rng(), lo..hi)
}

/// Relies on `rand::seq::SliceRandom::shuffle` on the thread-local
/// generator: the elements are permuted in place by swaps.
#[verifier::external_body]
pub(crate) fn shuffle<T>(v: &mut Vec<T>)
    ensures
        final(v)@.len() == old(v)@.len(),
        final(v)@.to_multiset() == old(v)@.to_multiset(),
{
    rand::seq::SliceRandom::shuffle(v.as_mut_slice(), &mut rand::thread_rng())
}

/// `rand::random`: a value of the standard distribution; nothing is known
/// of it but its type.
pub assume_specification<Val>[ rand::random::<Val> ]() -> (r: Val)
    where
        rand::distributions::Standard: rand::distributions::Distribution<Val>,
;

} // verus!

//! Trusted boundary to the `rand` crate: the standard generator and
//! the sampling operations the word-set builder relies on.
//!
//! Randomness gives no functional guarantees, so every contract here
//! states only what holds of every possible outcome.

use vstd::prelude::*;

use crate::wordset::sum_weights;

verus! {

/// The standard random number generator of the `rand` crate, held
/// opaque; callers construct one with `rand::SeedableRng`.
#[verifier::external_type_specification]
#[verifier::external_body]
pub struct ExStdRng(rand::rngs::StdRng);

/// Relies on `rand::Rng::gen_range` over `lo..hi`: some value of the
/// non-empty half-open range.  The range must not be empty, or the
/// call panics.
#[verifier::external_body]
pub(crate) fn rng_range(rng: &mut rand::rngs::StdRng, lo: usize, hi: usize) -> (r: usize)
    requires
        lo < hi,
    ensures
        lo <= r < hi,
{
    rand::Rng::gen_range(rng, lo..hi)
}

/// Relies on `rand::seq::SliceRandom::shuffle`: the slice is permuted
/// in place, so it holds the same elements afterwards.
#[verifier::external_body]
pub(crate) fn shuffle_vec<T>(rng: &mut rand::rngs::StdRng, v: &mut Vec<T>)
    ensures
        final(v)@.to_multiset() == old(v)@.to_multiset(),
{
    rand::seq::SliceRandom::shuffle(v.as_mut_slice(), rng);
}

/// Relies on `rand::seq::SliceRandom::choose`: `None` exactly on an
/// empty slice, otherwise some element of the slice.
#[verifier::external_body]
pub(crate) fn choose_char(rng: &mut rand::rngs::StdRng, v: &Vec<char>) -> (r: Option<char>)
    ensures
        match r {
            Some(c) => v@.contains(c),
            None => v@.len() == 0,
        },
{
    rand::seq::SliceRandom::choose(v.as_slice(), rng).copied()
}

/// Relies on `rand::seq::SliceRandom::choose_weighted` with each
/// entry's second component as its weight: the call fails exactly on
/// an empty list or all-zero weights, and a returned entry is one of
/// the list with a positive weight.  The crate adds the weights up,
/// so their sum must fit in `u64`.
#[verifier::external_body]
pub(crate) fn choose_weighted(rng: &mut rand::rngs::StdRng, cands: &Vec<(usize, u64)>) -> (r:
    Option<(usize, u64)>)
    requires
        sum_weights(cands@) <= u64::MAX,
    ensures
        match r {
            Some(p) => cands@.contains(p) && p.1 > 0,
            None => cands@.len() == 0 || forall|i: int|
                0 <= i < cands@.len() ==> cands@[i].1 == 0,
        },
{
    let picked = rand::seq::SliceRandom::choose_weighted(cands.as_slice(), rng, |p| p.1);
    match picked {
        Ok(p) => Some(*p),
        Err(_) => None,
    }
}

} // verus!

//! Random draws, taken from the thread-local cryptographic generator.
//!
//! Of a draw nothing is proved: each function that makes one states what
//! the generator's documentation promises of every outcome, and no more.

use rand::Rng;
use rand::RngCore;
use vstd::prelude::*;

verus! {

/// `Rng::gen_range` on `0..bound`: a number below `bound`. The range must not
/// be empty, as `gen_range` panics on an empty range.
#[verifier::external_body]
pub(crate) fn random_below(bound: u128) -> (r: u128)
    requires
        bound > 0,
    ensures
        r < bound,
{
    rand::thread_rng().gen_range(0..bound)
}

/// Returns a random number below `bound`, which fits 64 bits.
pub(crate) fn random_u64_below(bound: u64) -> (r: u64)
    requires
        bound > 0,
    ensures
        r < bound,
{
    random_below(bound as u128) as u64
}

/// `RngCore::fill_bytes`: `N` random bytes. Nothing is promised of them.
#[verifier::external_body]
pub(crate) fn random_bytes<const N: usize>() -> (r: [u8; N]) {
    let mut bytes = [0u8; N];
    rand::thread_rng().fill_bytes(&mut bytes);
    bytes
}

/// `rand::seq::index::sample`: exactly `amount` distinct indices below
/// `length`, in no particular order. `amount` must not exceed `length`, as
/// `sample` panics when it does; and `length` is kept within 32 bits, where
/// every way that `sample` takes is free of checks that could fail.
#[verifier::external_body]
pub(crate) fn sample_indices(length: usize, amount: usize) -> (r: Vec<usize>)
    requires
        amount <= length <= u32::MAX,
    ensures
        r@.len() == amount,
        forall|i: int| 0 <= i < r@.len() ==> r@[i] < length,
        forall|i: int, j: int| 0 <= i < j < r@.len() ==> r@[i] != r@[j],
{
    rand::seq::index::sample(&mut rand::thread_rng(), length, amount).into_vec()
}

} // verus!

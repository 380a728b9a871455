//! The seeded random number generator (`rand_chacha::ChaCha8Rng` driven
//! through `rand`). Draws depend on the generator's hidden state, so each
//! contract states only what holds of every outcome.

use vstd::prelude::*;
use rand::Rng;
use rand::SeedableRng;
use rand::seq::SliceRandom;
use rand_chacha::ChaCha8Rng;

verus! {

#[verifier::external_type_specification]
#[verifier::external_body]
pub struct ExChaCha8Rng(ChaCha8Rng);

/// `ChaCha8Rng::seed_from_u64`: a generator seeded from a `u64`.
#[verifier::external_body]
pub(crate) fn rng_from_seed(seed: u64) -> (r: ChaCha8Rng) {
    ChaCha8Rng::seed_from_u64(seed)
}

/// `Rng::gen::<u32>()`: the next 32 bits of the stream.
#[verifier::external_body]
pub(crate) fn gen_u32(rng: &mut ChaCha8Rng) -> (r: u32) {
    rng.gen::<u32>()
}

/// `Rng::gen::<u64>()`: the next 64 bits of the stream.
#[verifier::external_body]
pub(crate) fn gen_u64(rng: &mut ChaCha8Rng) -> (r: u64) {
    rng.gen::<u64>()
}

/// `Rng::gen::<bool>()`: a fair coin.
#[verifier::external_body]
pub(crate) fn gen_bool(rng: &mut ChaCha8Rng) -> (r: bool) {
    rng.gen::<bool>()
}

/// `Rng::gen_range(lo..hi)` on `usize`: a value in the range (which must
/// not be empty).
#[verifier::external_body]
pub(crate) fn gen_range_usize(rng: &mut ChaCha8Rng, lo: usize, hi: usize) -> (r: usize)
    requires
        lo < hi,
    ensures
        lo <= r < hi,
{
    rng.gen_range(lo..hi)
}

/// `Rng::gen_range(lo..hi)` on `i32`: a value in the range (which must not
/// be empty).
#[verifier::external_body]
pub(crate) fn gen_range_i32(rng: &mut ChaCha8Rng, lo: i32, hi: i32) -> (r: i32)
    requires
        lo < hi,
    ensures
        lo <= r < hi,
{
    rng.gen_range(lo..hi)
}

/// `Rng::gen_range(lo..=hi)` on `i32`: a value in the range (which must
/// not be empty).
#[verifier::external_body]
pub(crate) fn gen_range_i32_inclusive(rng: &mut ChaCha8Rng, lo: i32, hi: i32) -> (r: i32)
    requires
        lo <= hi,
    ensures
        lo <= r <= hi,
{
    rng.gen_range(lo..=hi)
}

/// `Rng::gen_range(lo..hi)` on `u8`: a value in the range (which must not
/// be empty).
#[verifier::external_body]
pub(crate) fn gen_range_u8(rng: &mut ChaCha8Rng, lo: u8, hi: u8) -> (r: u8)
    requires
        lo < hi,
    ensures
        lo <= r < hi,
{
    rng.gen_range(lo..hi)
}

/// `Rng::gen_range(lo..hi)` on `u32`: a value in the range (which must not
/// be empty).
#[verifier::external_body]
pub(crate) fn gen_range_u32(rng: &mut ChaCha8Rng, lo: u32, hi: u32) -> (r: u32)
    requires
        lo < hi,
    ensures
        lo <= r < hi,
{
    rng.gen_range(lo..hi)
}

/// `SliceRandom::shuffle`: the same elements in some order.
#[verifier::external_body]
pub(crate) fn shuffle<T>(rng: &mut ChaCha8Rng, v: &mut Vec<T>)
    ensures
        final(v)@.to_multiset() == old(v)@.to_multiset(),
        final(v)@.len() == old(v)@.len(),
{
    v.as_mut_slice().shuffle(rng);
}

/// `rand::seq::index::sample(rng, length, amount)`: `amount` distinct
/// indices below `length`, in some order (it panics when `amount` exceeds
/// `length`).
#[verifier::external_body]
pub(crate) fn sample_indices(rng: &mut ChaCha8Rng, length: usize, amount: usize) -> (r: Vec<usize>)
    requires
        amount <= length,
    ensures
        r@.len() == amount,
        forall|i: int| 0 <= i < r@.len() ==> #[trigger] r@[i] < length,
        forall|i: int, j: int| 0 <= i < j < r@.len() ==> r@[i] != r@[j],
{
    rand::seq::index::sample(rng, length, amount).into_vec()
}

/// A draw of 24 random bits, as `Rng::gen::<f32>()` makes one: it takes the
/// next 32 bits of the stream and keeps the top 24, the float being that
/// number times 2^-24.
pub fn gen_unit_bits(rng: &mut ChaCha8Rng) -> (r: u32)
    ensures
        r < 0x100_0000,
{
    let x = gen_u32(rng);
    let r = x >> 8;
    assert(x >> 8 < 0x100_0000) by (bit_vector);
    r
}

/// An event of the given chance, drawn as `rng.gen::<f32>() < p` is: the
/// chance is a threshold in units of 2^-24, the number of 24-bit draws that
/// fall below `p` (so `p * 2^24`, rounded up).
pub fn chance(rng: &mut ChaCha8Rng, threshold: u32) -> (r: bool)
    ensures
        threshold == 0 ==> !r,
        threshold >= 0x100_0000 ==> r,
{
    gen_unit_bits(rng) < threshold
}

} // verus!

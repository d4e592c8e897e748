//! The pluggable pseudo-random source that state generation and
//! perturbation draw from, and the generation of a uniformly random
//! starting assignment.
//!
//! The generator's future output is named: `rng_stream(r, j)` stands for
//! the j-th word a generator in state `r` will yield. The word stream is a
//! function of the state alone, so contracts over it express determinism:
//! two generators of equal state yield equal streams, and a seeded
//! generator's stream is a function of its seed.

use vstd::prelude::*;
use vstd::arithmetic::div_mod::lemma_fundamental_div_mod_converse;

verus! {

#[verifier::external_type_specification]
#[verifier::external_body]
/// The small, seedable pseudo-random generator of the `rand` crate.
/// Nothing is assumed of the values it yields, only that they are a
/// function of its state.
pub struct ExSmallRng(rand::rngs::SmallRng);

/// The j-th word that a generator in this state will yield. The
/// generator's stepping is deterministic, so this is well defined.
pub uninterp spec fn rng_stream(r: rand::rngs::SmallRng, j: int) -> u32;

/// The word stream determined by a seed.
pub uninterp spec fn seed_stream(seed: u64, j: int) -> u32;

/// Relies on rand's `SeedableRng::from_entropy`: a generator seeded from
/// operating-system entropy. Nothing is stated of its stream.
#[verifier::external_body]
pub fn rng_from_entropy() -> rand::rngs::SmallRng {
    <rand::rngs::SmallRng as rand::SeedableRng>::from_entropy()
}

/// Relies on rand's `SeedableRng::seed_from_u64`: the generator state is a
/// function of the seed alone, so its word stream is too — the same seed
/// reproduces the same run.
#[verifier::external_body]
pub fn rng_from_seed(seed: u64) -> (r: rand::rngs::SmallRng)
    ensures
        forall|j: int| j >= 0 ==> #[trigger] rng_stream(r, j) == seed_stream(seed, j),
{
    <rand::rngs::SmallRng as rand::SeedableRng>::seed_from_u64(seed)
}

/// Relies on rand's `RngCore::next_u32`: the generator computes the next
/// word from its state alone and steps deterministically, so the call
/// yields the head of the state's word stream and leaves the rest.
#[verifier::external_body]
pub fn rng_next_u32(rng: &mut rand::rngs::SmallRng) -> (w: u32)
    ensures
        w == rng_stream(*old(rng), 0),
        forall|j: int|
            j >= 0 ==> #[trigger] rng_stream(*final (rng), j) == rng_stream(*old(rng), j + 1),
{
    rand::RngCore::next_u32(rng)
}

/// Relies on rand's `Rng::gen_range`, which panics on an empty range and
/// otherwise returns a value within it. It consumes an unspecified prefix
/// of the word stream, so nothing is stated of the stream afterwards.
#[verifier::external_body]
pub fn rng_below(rng: &mut rand::rngs::SmallRng, bound: usize) -> (r: usize)
    requires
        bound > 0,
    ensures
        r < bound,
{
    rand::Rng::gen_range(rng, 0..bound)
}

/// Bits of one word of the random stream.
pub const WORD_BITS: usize = 32;

/// Bit `i` of the boolean stream of a generator in state `r`: bit `i % 32`
/// of word `i / 32`, least significant bit first.
pub open spec fn stream_bit(r: rand::rngs::SmallRng, i: int) -> bool {
    (rng_stream(r, i / 32) >> ((i % 32) as u32)) & 1u32 == 1u32
}

proof fn lemma_shr_step(word: u32, b: u32)
    requires
        b < 32,
    ensures
        (word >> b) >> 1u32 == word >> (b + 1),
{
    assert((word >> b) >> 1u32 == word >> (b + 1)) by (bit_vector)
        requires
            b < 32,
    ;
}

/// A random starting assignment of length `n`: entry `i` is bit `i % 32`
/// of the `i / 32`-th word drawn from the stream, least significant bit
/// first, and exactly `n / 32 + 1` words are consumed. The result is a
/// function of the generator's state alone, so a run is reproducible
/// under a fixed seed.
pub fn generate(n: usize, rng: &mut rand::rngs::SmallRng) -> (a: Vec<bool>)
    ensures
        a@.len() == n,
        forall|i: int| 0 <= i < n ==> a@[i] == stream_bit(*old(rng), i),
        forall|j: int|
            j >= 0 ==> #[trigger] rng_stream(*final (rng), j) == rng_stream(
                *old(rng),
                j + n as int / 32 + 1,
            ),
{
    let ghost r0 = *rng;
    let ghost mut w: int = 0;
    let mut ret: Vec<bool> = Vec::new();
    loop
        invariant
            r0 == *old(rng),
            ret@.len() <= n,
            w >= 0,
            ret@.len() == 32 * w,
            forall|i: int| 0 <= i < ret@.len() ==> ret@[i] == stream_bit(r0, i),
            forall|j: int| j >= 0 ==> #[trigger] rng_stream(*rng, j) == rng_stream(r0, j + w),
        decreases n - ret@.len(),
    {
        let ghost pre = *rng;
        let word = rng_next_u32(rng);
        proof {
            assert(rng_stream(pre, 0) == rng_stream(r0, w));
            assert(word == rng_stream(r0, w));
            assert forall|j: int| j >= 0 implies #[trigger] rng_stream(*rng, j) == rng_stream(
                r0,
                j + w + 1,
            ) by {
                assert(rng_stream(*rng, j) == rng_stream(pre, j + 1));
                assert(rng_stream(pre, j + 1) == rng_stream(r0, j + 1 + w));
            }
        }
        let ghost len0 = ret@.len();
        let mut value = word;
        proof {
            assert(word >> 0u32 == word) by (bit_vector);
        }
        let mut b: usize = 0;
        while b < WORD_BITS
            invariant
                r0 == *old(rng),
                b <= 32,
                len0 == 32 * w,
                0 <= w,
                ret@.len() == len0 + b,
                len0 + b <= n,
                word == rng_stream(r0, w),
                b < 32 ==> value == word >> (b as u32),
                forall|i: int| 0 <= i < ret@.len() ==> ret@[i] == stream_bit(r0, i),
                forall|j: int|
                    j >= 0 ==> #[trigger] rng_stream(*rng, j) == rng_stream(r0, j + w + 1),
            decreases WORD_BITS - b,
        {
            if ret.len() == n {
                proof {
                    lemma_fundamental_div_mod_converse(n as int, 32, w, b as int);
                }
                return ret;
            }
            ret.push((value & 1) == 1);
            proof {
                lemma_fundamental_div_mod_converse(len0 + b, 32, w, b as int);
                assert(ret@[len0 + b] == ((word >> (b as u32)) & 1u32 == 1u32));
                assert(stream_bit(r0, len0 + b) == ((word >> (b as u32)) & 1u32 == 1u32));
            }
            proof {
                lemma_shr_step(word, b as u32);
            }
            value = value >> 1u32;
            b = b + 1;
        }
        proof {
            w = w + 1;
        }
    }
}

} // verus!

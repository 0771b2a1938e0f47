//! SeaHash: a fast, non-cryptographic 64-bit hash of a byte buffer.
//!
//! The buffer is cut into words of eight bytes, read little-endian and mixed in
//! rotation into four lanes; the lanes, the buffer's length and one last round of
//! diffusion give the hash. [`model`] defines that value mathematically,
//! [`reference`] computes it one word at a time, and [`buffer`] computes the same
//! value four words at a time. Every function here is proved to return exactly
//! what [`model`] says and never to panic; [`laws`] states what follows for the
//! two engines taken together.

use vstd::prelude::*;

pub mod buffer;
pub mod laws;
pub mod model;
pub mod reference;

verus! {

/// The diffusion function at the core of the hash: multiply by
/// [`model::MULTIPLIER`] with wrap-around, keep the upper 32 bits, and do both
/// once more.
pub fn diffuse(x: u64) -> (r: u64)
    ensures
        r == model::diffused(x),
{
    let once: u64 = x.wrapping_mul(model::MULTIPLIER) >> 32;
    let twice: u64 = once.wrapping_mul(model::MULTIPLIER) >> 32;
    proof {
        model::lemma_scatter_is_wrapping_mul(x);
        model::lemma_scatter_is_wrapping_mul(once);
    }
    twice
}

} // verus!

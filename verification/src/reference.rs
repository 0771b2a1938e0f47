//! The plain engine: one word at a time, with a cursor that walks the lanes.
//!
//! It is slow and simple on purpose: it follows the definition step by step, and
//! the fast engine is measured against it.

use vstd::prelude::*;
use vstd::slice::slice_subrange;
use crate::diffuse;
use crate::model::{absorbed, hash_value, le_value, lemma_le_value_fits, word_count, Lanes};
use crate::model::{DEFAULT_SEED, LANE_B, LANE_C, LANE_D};

verus! {

/// Reads up to eight bytes as an integer in little-endian.
pub fn read_int(bytes: &[u8]) -> (x: u64)
    requires
        bytes@.len() <= 8,
    ensures
        x == le_value(bytes@),
{
    // Start at 0.
    let mut x: u64 = 0;
    let mut i: usize = bytes.len();
    while i > 0
        invariant
            i <= bytes@.len() <= 8,
            x == le_value(bytes@.skip(i as int)),
        decreases i,
    {
        i = i - 1;
        let byte: u8 = bytes[i];
        proof {
            let rest = bytes@.skip(i + 1);
            assert(bytes@.skip(i as int).skip(1) =~= rest);
            lemma_le_value_fits(rest);
            assert((x << 8) | (byte as u64) == 256 * x + byte) by (bit_vector)
                requires
                    x < 0x100_0000_0000_0000,
            ;
        }
        // Shift up a byte, and set the lower byte.
        x = (x << 8) | (byte as u64);
    }
    assert(bytes@.skip(0) =~= bytes@);
    x
}

/// A hash state.
pub struct State {
    /// The state vector.
    vec: [u64; 4],
    /// The component of the state vector which is currently being modified.
    cur: usize,
}

impl View for State {
    type V = Lanes;

    closed spec fn view(&self) -> Lanes {
        Lanes { vec: self.vec@, cur: self.cur as int }
    }
}

impl State {
    /// The cursor is on one of the four lanes.
    #[verifier::type_invariant]
    spec fn wf(self) -> bool {
        self.cur < 4
    }

    /// Writes a 64-bit integer to the state.
    pub fn write_u64(&mut self, x: u64)
        ensures
            final(self)@ == old(self)@.write(x),
    {
        proof {
            use_type_invariant(&*self);
        }
        // Mix it into the lane by XORing it, and diffuse the lane to remove
        // deterministic behavior and commutativity.
        let mixed: u64 = diffuse(self.vec[self.cur] ^ x);
        self.vec[self.cur] = mixed;

        // Move the cursor on, and wrap around.
        self.cur = (self.cur + 1) % 4;
    }

    /// Calculates the final hash of an input of `total` bytes.
    pub fn finish(self, total: usize) -> (h: u64)
        ensures
            h == self@.finish(total as nat),
    {
        diffuse(self.vec[0] ^ self.vec[1] ^ self.vec[2] ^ self.vec[3] ^ total as u64)
    }

    /// The state before any input, for the given seed.
    pub fn with_seed(seed: u64) -> (state: State)
        ensures
            state@ == Lanes::seeded(seed),
    {
        State { vec: [seed, LANE_B, LANE_C, LANE_D], cur: 0 }
    }
}

/// Hashes `buf` with the default seed, one word at a time.
pub fn hash(buf: &[u8]) -> (h: u64)
    ensures
        h == hash_value(buf@, DEFAULT_SEED),
{
    hash_seeded(buf, DEFAULT_SEED)
}

/// Hashes `buf` with a seed of the caller's choice, one word at a time.
pub fn hash_seeded(buf: &[u8], seed: u64) -> (h: u64)
    ensures
        h == hash_value(buf@, seed),
{
    // Initialize the state.
    let mut state = State::with_seed(seed);

    // Walk the buffer in chunks of 8 bytes. The last chunk may be shorter.
    let len: usize = buf.len();
    let mut at: usize = 0;
    let ghost mut n: nat = 0;
    while at < len
        invariant
            len == buf@.len(),
            at <= len,
            at < len ==> at == 8 * n,
            at == len ==> n == word_count(buf@.len()),
            state@ == absorbed(buf@, seed, n),
        decreases len - at,
    {
        let stop: usize = if len - at >= 8 {
            at + 8
        } else {
            len
        };
        // Read the chunk into an integer and write it into the state.
        state.write_u64(read_int(slice_subrange(buf, at, stop)));
        proof {
            n = n + 1;
        }
        at = stop;
    }

    // Finish the hash state and return the final value.
    state.finish(len)
}

} // verus!

//! The mathematical definition of the hash.
//!
//! The constants apart, everything here is ghost code: the diffusion function,
//! the little-endian value of a byte sequence, the four-lane state and the fold
//! that absorbs a buffer word by word, with the facts about them that the two
//! engines rest on.

use vstd::prelude::*;

verus! {

/// The seed of the unseeded entry points, and so the first lane's usual start.
pub const DEFAULT_SEED: u64 = 0x16f11fe89b0d677c;

/// Where the second lane starts.
pub const LANE_B: u64 = 0xb480a793d8e6c86c;

/// Where the third lane starts.
pub const LANE_C: u64 = 0x6fe2e5aaf078ebc9;

/// Where the fourth lane starts.
pub const LANE_D: u64 = 0x14f994a4c5259381;

/// The odd constant that the diffusion multiplies by.
pub const MULTIPLIER: u64 = 0x7ed0e9fa0d94a33;

/// `j(x)`: the product with [`MULTIPLIER`], modulo 2^64.
pub open spec fn scatter(x: u64) -> u64 {
    ((MULTIPLIER as nat * x as nat) % 0x1_0000_0000_0000_0000nat) as u64
}

/// `h(x)`: the upper 32 bits of `x`, moved to the bottom.
pub open spec fn upper_half(x: u64) -> u64 {
    x >> 32
}

/// `g(x) = h(j(h(j(x))))`: the diffusion function.
pub open spec fn diffused(x: u64) -> u64 {
    upper_half(scatter(upper_half(scatter(x))))
}

/// [`scatter`] is what `u64::wrapping_mul` by [`MULTIPLIER`] computes.
pub proof fn lemma_scatter_is_wrapping_mul(x: u64)
    ensures
        scatter(x) == vstd::wrapping::u64_specs::wrapping_mul(x, MULTIPLIER),
{
    assert(MULTIPLIER as nat * x as nat == x as nat * MULTIPLIER as nat) by (nonlinear_arith);
}

/// The number a byte sequence stands for when read little-endian: the first byte
/// counts least.
pub open spec fn le_value(bytes: Seq<u8>) -> nat
    decreases bytes.len(),
{
    if bytes.len() == 0 {
        0
    } else {
        bytes[0] as nat + 256 * le_value(bytes.skip(1))
    }
}

/// Byte `i` of `bytes`, or zero past the end.
pub open spec fn byte_or_zero(bytes: Seq<u8>, i: int) -> nat {
    if 0 <= i < bytes.len() {
        bytes[i] as nat
    } else {
        0
    }
}

/// The little-endian value of the bytes from index `from` on, by index.
spec fn value_from(bytes: Seq<u8>, from: int) -> nat
    decreases bytes.len() - from,
{
    if 0 <= from < bytes.len() {
        bytes[from] as nat + 256 * value_from(bytes, from + 1)
    } else {
        0
    }
}

/// Reading from index `from` on is reading what is left when the first `from`
/// bytes are skipped.
proof fn lemma_value_from_is_le_value(bytes: Seq<u8>, from: int)
    requires
        0 <= from <= bytes.len(),
    ensures
        value_from(bytes, from) == le_value(bytes.skip(from)),
    decreases bytes.len() - from,
{
    if from < bytes.len() {
        lemma_value_from_is_le_value(bytes, from + 1);
        assert(bytes.skip(from).skip(1) =~= bytes.skip(from + 1));
    }
}

/// The little-endian value of up to eight bytes, written out place by place.
pub proof fn lemma_le_value_by_place(bytes: Seq<u8>)
    requires
        bytes.len() <= 8,
    ensures
        le_value(bytes) == byte_or_zero(bytes, 0) + 0x100 * byte_or_zero(bytes, 1) + 0x1_0000
            * byte_or_zero(bytes, 2) + 0x100_0000 * byte_or_zero(bytes, 3) + 0x1_0000_0000
            * byte_or_zero(bytes, 4) + 0x100_0000_0000 * byte_or_zero(bytes, 5)
            + 0x1_0000_0000_0000 * byte_or_zero(bytes, 6) + 0x100_0000_0000_0000 * byte_or_zero(
            bytes,
            7,
        ),
{
    lemma_value_from_is_le_value(bytes, 0);
    assert(bytes.skip(0) =~= bytes);
    reveal_with_fuel(value_from, 9);
}

/// Up to eight bytes fit a 64-bit integer, and up to seven leave its top byte
/// clear.
pub proof fn lemma_le_value_fits(bytes: Seq<u8>)
    ensures
        bytes.len() <= 8 ==> le_value(bytes) <= u64::MAX,
        bytes.len() <= 7 ==> le_value(bytes) < 0x100_0000_0000_0000,
{
    if bytes.len() <= 8 {
        lemma_le_value_by_place(bytes);
    }
}

/// `n` zero bytes.
pub open spec fn zeros(n: nat) -> Seq<u8> {
    Seq::new(n, |i: int| 0u8)
}

/// Zero bytes on the high end do not change a little-endian value: a short word
/// reads as if it were padded to eight bytes.
pub proof fn lemma_le_value_zero_padded(bytes: Seq<u8>, n: nat)
    ensures
        le_value(bytes + zeros(n)) == le_value(bytes),
    decreases bytes.len(), n,
{
    let padded = bytes + zeros(n);
    if bytes.len() > 0 {
        assert(padded.skip(1) =~= bytes.skip(1) + zeros(n));
        lemma_le_value_zero_padded(bytes.skip(1), n);
    } else if n > 0 {
        assert(padded.skip(1) =~= bytes + zeros((n - 1) as nat));
        lemma_le_value_zero_padded(bytes, (n - 1) as nat);
    } else {
        assert(padded =~= bytes);
    }
}

/// How many words a buffer of `len` bytes is cut into: `len / 8`, rounded up.
pub open spec fn word_count(len: nat) -> nat {
    (len + 7) / 8
}

/// The bytes of word `k` of `buf`: eight of them from `8 * k` on, or as many as
/// the buffer still has.
pub open spec fn word_bytes(buf: Seq<u8>, k: int) -> Seq<u8> {
    buf.subrange(8 * k, if 8 * k + 8 <= buf.len() { 8 * k + 8 } else { buf.len() as int })
}

/// Word `k` of `buf` as a number. A short last word needs no padding: zero
/// bytes on the high end would not change its value.
pub open spec fn word(buf: Seq<u8>, k: int) -> u64 {
    le_value(word_bytes(buf, k)) as u64
}

/// The state of a hash in progress: four lanes, and the index of the lane that
/// takes the next word.
pub struct Lanes {
    pub vec: Seq<u64>,
    pub cur: int,
}

impl Lanes {
    /// Four lanes, and a cursor on one of them.
    pub open spec fn wf(self) -> bool {
        self.vec.len() == 4 && 0 <= self.cur < 4
    }

    /// The state before any input: the seed in the first lane, fixed constants in
    /// the others, the cursor on the first lane.
    pub open spec fn seeded(seed: u64) -> Lanes {
        Lanes { vec: seq![seed, LANE_B, LANE_C, LANE_D], cur: 0 }
    }

    /// The state after one more word: the lane under the cursor takes
    /// `diffused(lane ^ x)`, and the cursor moves on, from the last lane back to
    /// the first.
    pub open spec fn write(self, x: u64) -> Lanes {
        Lanes {
            vec: self.vec.update(self.cur, diffused(self.vec[self.cur] ^ x)),
            cur: (self.cur + 1) % 4,
        }
    }

    /// What goes into the last diffusion: the four lanes and the length of the
    /// input, combined by XOR.
    pub open spec fn combined(self, total: nat) -> u64 {
        self.vec[0] ^ self.vec[1] ^ self.vec[2] ^ self.vec[3] ^ (total as u64)
    }

    /// The hash that this state gives for an input of `total` bytes.
    pub open spec fn finish(self, total: nat) -> u64 {
        diffused(self.combined(total))
    }
}

/// The state after the first `n` words of `buf`, starting from `seed`.
pub open spec fn absorbed(buf: Seq<u8>, seed: u64, n: nat) -> Lanes
    decreases n,
{
    if n == 0 {
        Lanes::seeded(seed)
    } else {
        absorbed(buf, seed, (n - 1) as nat).write(word(buf, n - 1))
    }
}

/// The hash of `buf` under `seed`.
pub open spec fn hash_value(buf: Seq<u8>, seed: u64) -> u64 {
    absorbed(buf, seed, word_count(buf.len())).finish(buf.len())
}

/// The four lanes start at four different values, none of them zero, when the
/// seed is the default one.
pub proof fn lemma_initial_lanes_distinct()
    ensures
        Lanes::seeded(DEFAULT_SEED).wf(),
        forall|i: int| 0 <= i < 4 ==> Lanes::seeded(DEFAULT_SEED).vec[i] != 0,
        forall|i: int, j: int|
            0 <= i < j < 4 ==> Lanes::seeded(DEFAULT_SEED).vec[i] != Lanes::seeded(
                DEFAULT_SEED,
            ).vec[j],
{
}

/// Absorbing keeps the state well-formed, and leaves the cursor on lane `n % 4`.
pub proof fn lemma_absorbed_wf(buf: Seq<u8>, seed: u64, n: nat)
    ensures
        absorbed(buf, seed, n).wf(),
        absorbed(buf, seed, n).cur == n % 4,
    decreases n,
{
    if n > 0 {
        lemma_absorbed_wf(buf, seed, (n - 1) as nat);
    }
}

} // verus!

//! The fast engine: four lanes, each updated on its own, 32 bytes per round.

use vstd::prelude::*;
use vstd::slice::slice_subrange;
use crate::diffuse;
use crate::model::{absorbed, diffused, hash_value, le_value, lemma_le_value_by_place, word, word_count};
use crate::model::{DEFAULT_SEED, LANE_B, LANE_C, LANE_D};

verus! {

/// Joining eight bytes with shifts and ORs adds them up place by place.
proof fn lemma_join_bytes(b0: u8, b1: u8, b2: u8, b3: u8, b4: u8, b5: u8, b6: u8, b7: u8)
    ensures
        (b0 as u64 | (b1 as u64) << 8 | (b2 as u64) << 16 | (b3 as u64) << 24 | (b4 as u64) << 32
            | (b5 as u64) << 40 | (b6 as u64) << 48 | (b7 as u64) << 56) == b0 + 0x100 * b1
            + 0x1_0000 * b2 + 0x100_0000 * b3 + 0x1_0000_0000 * b4 + 0x100_0000_0000 * b5
            + 0x1_0000_0000_0000 * b6 + 0x100_0000_0000_0000 * b7,
{
    assert((b0 as u64 | (b1 as u64) << 8 | (b2 as u64) << 16 | (b3 as u64) << 24 | (b4 as u64)
        << 32 | (b5 as u64) << 40 | (b6 as u64) << 48 | (b7 as u64) << 56) == b0 + 0x100 * b1
        + 0x1_0000 * b2 + 0x100_0000 * b3 + 0x1_0000_0000 * b4 + 0x100_0000_0000 * b5
        + 0x1_0000_0000_0000 * b6 + 0x100_0000_0000_0000 * b7) by (bit_vector);
}

/// Reads the eight bytes of `buf` from `at` on as a little-endian integer.
pub fn read_u64(buf: &[u8], at: usize) -> (r: u64)
    requires
        at + 8 <= buf@.len(),
    ensures
        r == le_value(buf@.subrange(at as int, at + 8)),
{
    let b0: u8 = buf[at];
    let b1: u8 = buf[at + 1];
    let b2: u8 = buf[at + 2];
    let b3: u8 = buf[at + 3];
    let b4: u8 = buf[at + 4];
    let b5: u8 = buf[at + 5];
    let b6: u8 = buf[at + 6];
    let b7: u8 = buf[at + 7];
    proof {
        lemma_le_value_by_place(buf@.subrange(at as int, at + 8));
        lemma_join_bytes(b0, b1, b2, b3, b4, b5, b6, b7);
    }
    b0 as u64 | (b1 as u64) << 8 | (b2 as u64) << 16 | (b3 as u64) << 24 | (b4 as u64) << 32 | (
    b5 as u64) << 40 | (b6 as u64) << 48 | (b7 as u64) << 56
}

/// Reads a buffer of fewer than eight bytes as a little-endian integer, touching
/// exactly the bytes that are there. An empty buffer reads as zero, and so does
/// one of eight bytes or more, which this function is not meant for.
pub fn read_int(buf: &[u8]) -> (r: u64)
    ensures
        buf@.len() < 8 ==> r == le_value(buf@),
        buf@.len() >= 8 ==> r == 0,
{
    proof {
        if buf@.len() < 8 {
            lemma_le_value_by_place(buf@);
        }
    }
    match buf.len() {
        1 => buf[0] as u64,
        2 => {
            let b0: u8 = buf[0];
            let b1: u8 = buf[1];
            assert((b0 as u64 | (b1 as u64) << 8) == b0 + 0x100 * b1) by (bit_vector);
            b0 as u64 | (b1 as u64) << 8
        },
        3 => {
            let b0: u8 = buf[0];
            let b1: u8 = buf[1];
            let b2: u8 = buf[2];
            assert((b0 as u64 | (b1 as u64) << 8 | (b2 as u64) << 16) == b0 + 0x100 * b1 + 0x1_0000
                * b2) by (bit_vector);
            b0 as u64 | (b1 as u64) << 8 | (b2 as u64) << 16
        },
        4 => {
            let b0: u8 = buf[0];
            let b1: u8 = buf[1];
            let b2: u8 = buf[2];
            let b3: u8 = buf[3];
            assert((b0 as u64 | (b1 as u64) << 8 | (b2 as u64) << 16 | (b3 as u64) << 24) == b0
                + 0x100 * b1 + 0x1_0000 * b2 + 0x100_0000 * b3) by (bit_vector);
            b0 as u64 | (b1 as u64) << 8 | (b2 as u64) << 16 | (b3 as u64) << 24
        },
        5 => {
            let b0: u8 = buf[0];
            let b1: u8 = buf[1];
            let b2: u8 = buf[2];
            let b3: u8 = buf[3];
            let b4: u8 = buf[4];
            assert((b0 as u64 | (b1 as u64) << 8 | (b2 as u64) << 16 | (b3 as u64) << 24 | (
            b4 as u64) << 32) == b0 + 0x100 * b1 + 0x1_0000 * b2 + 0x100_0000 * b3 + 0x1_0000_0000
                * b4) by (bit_vector);
            b0 as u64 | (b1 as u64) << 8 | (b2 as u64) << 16 | (b3 as u64) << 24 | (b4 as u64)
                << 32
        },
        6 => {
            let b0: u8 = buf[0];
            let b1: u8 = buf[1];
            let b2: u8 = buf[2];
            let b3: u8 = buf[3];
            let b4: u8 = buf[4];
            let b5: u8 = buf[5];
            assert((b0 as u64 | (b1 as u64) << 8 | (b2 as u64) << 16 | (b3 as u64) << 24 | (
            b4 as u64) << 32 | (b5 as u64) << 40) == b0 + 0x100 * b1 + 0x1_0000 * b2 + 0x100_0000
                * b3 + 0x1_0000_0000 * b4 + 0x100_0000_0000 * b5) by (bit_vector);
            b0 as u64 | (b1 as u64) << 8 | (b2 as u64) << 16 | (b3 as u64) << 24 | (b4 as u64)
                << 32 | (b5 as u64) << 40
        },
        7 => {
            let b0: u8 = buf[0];
            let b1: u8 = buf[1];
            let b2: u8 = buf[2];
            let b3: u8 = buf[3];
            let b4: u8 = buf[4];
            let b5: u8 = buf[5];
            let b6: u8 = buf[6];
            assert((b0 as u64 | (b1 as u64) << 8 | (b2 as u64) << 16 | (b3 as u64) << 24 | (
            b4 as u64) << 32 | (b5 as u64) << 40 | (b6 as u64) << 48) == b0 + 0x100 * b1 + 0x1_0000
                * b2 + 0x100_0000 * b3 + 0x1_0000_0000 * b4 + 0x100_0000_0000 * b5
                + 0x1_0000_0000_0000 * b6) by (bit_vector);
            b0 as u64 | (b1 as u64) << 8 | (b2 as u64) << 16 | (b3 as u64) << 24 | (b4 as u64)
                << 32 | (b5 as u64) << 40 | (b6 as u64) << 48
        },
        _ => 0,
    }
}

/// After the first `n` words of `buf` the lanes hold `a`, `b`, `c`, `d`, and the
/// cursor is on lane `cur`.
#[verifier::opaque]
spec fn lanes_after(
    buf: Seq<u8>,
    seed: u64,
    n: nat,
    a: u64,
    b: u64,
    c: u64,
    d: u64,
    cur: int,
) -> bool {
    let st = absorbed(buf, seed, n);
    &&& st.vec.len() == 4
    &&& st.vec[0] == a
    &&& st.vec[1] == b
    &&& st.vec[2] == c
    &&& st.vec[3] == d
    &&& st.cur == cur
}

/// Before any word the lanes hold the seed and the three constants, and the
/// cursor is on the first lane.
proof fn lemma_lanes_at_start(buf: Seq<u8>, seed: u64)
    ensures
        lanes_after(buf, seed, 0, seed, LANE_B, LANE_C, LANE_D, 0),
{
    reveal(lanes_after);
}

/// Word `n`, with the value `w`, goes into the lane under the cursor and into no
/// other, and the cursor moves on by one lane.
proof fn lemma_next_word(
    buf: Seq<u8>,
    seed: u64,
    n: nat,
    a: u64,
    b: u64,
    c: u64,
    d: u64,
    cur: int,
    w: u64,
)
    requires
        lanes_after(buf, seed, n, a, b, c, d, cur),
        0 <= cur < 4,
        w == word(buf, n as int),
    ensures
        cur == 0 ==> lanes_after(buf, seed, n + 1, diffused(a ^ w), b, c, d, 1),
        cur == 1 ==> lanes_after(buf, seed, n + 1, a, diffused(b ^ w), c, d, 2),
        cur == 2 ==> lanes_after(buf, seed, n + 1, a, b, diffused(c ^ w), d, 3),
        cur == 3 ==> lanes_after(buf, seed, n + 1, a, b, c, diffused(d ^ w), 0),
{
    reveal(lanes_after);
    let before = absorbed(buf, seed, n);
    assert(absorbed(buf, seed, n + 1) == before.write(w));
}

/// The eight bytes from `8 * n` on are word `n` of the buffer, and go into the
/// lane under the cursor.
proof fn lemma_whole_word(
    buf: Seq<u8>,
    seed: u64,
    n: nat,
    a: u64,
    b: u64,
    c: u64,
    d: u64,
    cur: int,
    w: u64,
)
    requires
        lanes_after(buf, seed, n, a, b, c, d, cur),
        0 <= cur < 4,
        8 * n + 8 <= buf.len(),
        w == le_value(buf.subrange(8 * n as int, 8 * n + 8 as int)),
    ensures
        cur == 0 ==> lanes_after(buf, seed, n + 1, diffused(a ^ w), b, c, d, 1),
        cur == 1 ==> lanes_after(buf, seed, n + 1, a, diffused(b ^ w), c, d, 2),
        cur == 2 ==> lanes_after(buf, seed, n + 1, a, b, diffused(c ^ w), d, 3),
        cur == 3 ==> lanes_after(buf, seed, n + 1, a, b, c, diffused(d ^ w), 0),
{
    lemma_next_word(buf, seed, n, a, b, c, d, cur, w);
}

/// The fewer than eight bytes from `8 * n` up to the end of the buffer are word
/// `n`, its last, and go into the lane under the cursor.
proof fn lemma_last_word(
    buf: Seq<u8>,
    seed: u64,
    n: nat,
    a: u64,
    b: u64,
    c: u64,
    d: u64,
    cur: int,
    w: u64,
)
    requires
        lanes_after(buf, seed, n, a, b, c, d, cur),
        0 <= cur < 4,
        8 * n < buf.len() < 8 * n + 8,
        w == le_value(buf.subrange(8 * n as int, buf.len() as int)),
    ensures
        cur == 0 ==> lanes_after(buf, seed, n + 1, diffused(a ^ w), b, c, d, 1),
        cur == 1 ==> lanes_after(buf, seed, n + 1, a, diffused(b ^ w), c, d, 2),
        cur == 2 ==> lanes_after(buf, seed, n + 1, a, b, diffused(c ^ w), d, 3),
        cur == 3 ==> lanes_after(buf, seed, n + 1, a, b, c, diffused(d ^ w), 0),
{
    lemma_next_word(buf, seed, n, a, b, c, d, cur, w);
}

/// Once every word is in, the hash is the diffusion of the lanes and the length,
/// and the lanes may be combined pairwise.
proof fn lemma_hash_from_lanes(
    buf: Seq<u8>,
    seed: u64,
    n: nat,
    a: u64,
    b: u64,
    c: u64,
    d: u64,
    cur: int,
)
    requires
        lanes_after(buf, seed, n, a, b, c, d, cur),
        buf.len() <= 8 * n < buf.len() + 8,
    ensures
        hash_value(buf, seed) == diffused(((a ^ b) ^ (c ^ d)) ^ (buf.len() as u64)),
{
    reveal(lanes_after);
    assert(n == word_count(buf.len()));
    assert(((a ^ b) ^ c) ^ d == (a ^ b) ^ (c ^ d)) by (bit_vector);
}

/// Hashes `buf` with the default seed.
pub fn hash(buf: &[u8]) -> (h: u64)
    ensures
        h == hash_value(buf@, DEFAULT_SEED),
{
    hash_seeded(buf, DEFAULT_SEED)
}

/// Hashes `buf` with a seed of the caller's choice.
///
/// The four lanes are kept in four variables. As long as 32 bytes are left, one
/// round mixes four whole words into the lanes `a`, `b`, `c`, `d`, in that order.
/// The up to 31 bytes that remain go on in the same rotation: whole words first,
/// then one short word of 1 to 7 bytes, if there is one. The result is the value
/// that the word-by-word definition gives.
pub fn hash_seeded(buf: &[u8], seed: u64) -> (h: u64)
    ensures
        h == hash_value(buf@, seed),
{
    let mut a: u64 = seed;
    let mut b: u64 = LANE_B;
    let mut c: u64 = LANE_C;
    let mut d: u64 = LANE_D;

    let len: usize = buf.len();
    let mut at: usize = 0;
    let ghost mut n: nat = 0;
    proof {
        lemma_lanes_at_start(buf@, seed);
    }
    // The main segment: as many rounds of 32 bytes as the buffer holds.
    while len - at >= 32
        invariant
            len == buf@.len(),
            at <= len,
            at == 8 * n,
            lanes_after(buf@, seed, n, a, b, c, d, 0),
        decreases len - at,
    {
        let wa: u64 = read_u64(buf, at);
        let wb: u64 = read_u64(buf, at + 8);
        let wc: u64 = read_u64(buf, at + 16);
        let wd: u64 = read_u64(buf, at + 24);
        proof {
            lemma_whole_word(buf@, seed, n, a, b, c, d, 0, wa);
            lemma_whole_word(buf@, seed, n + 1, diffused(a ^ wa), b, c, d, 1, wb);
            lemma_whole_word(buf@, seed, n + 2, diffused(a ^ wa), diffused(b ^ wb), c, d, 2, wc);
            lemma_whole_word(
                buf@,
                seed,
                n + 3,
                diffused(a ^ wa),
                diffused(b ^ wb),
                diffused(c ^ wc),
                d,
                3,
                wd,
            );
            n = n + 4;
        }
        a = diffuse(a ^ wa);
        b = diffuse(b ^ wb);
        c = diffuse(c ^ wc);
        d = diffuse(d ^ wd);
        at = at + 32;
    }

    // The bytes that the loop above could not take.
    let excessive: usize = len - at;
    let ghost mut cur: int = 0;
    match excessive {
        0 => {},
        1..=7 => {
            // The last, short word.
            let wa: u64 = read_int(slice_subrange(buf, at, len));
            proof {
                lemma_last_word(buf@, seed, n, a, b, c, d, 0, wa);
                n = n + 1;
                cur = 1;
            }
            a = diffuse(a ^ wa);
        },
        8 => {
            let wa: u64 = read_u64(buf, at);
            proof {
                lemma_whole_word(buf@, seed, n, a, b, c, d, 0, wa);
                n = n + 1;
                cur = 1;
            }
            a = diffuse(a ^ wa);
        },
        9..=15 => {
            let wa: u64 = read_u64(buf, at);
            // The last, short word.
            let wb: u64 = read_int(slice_subrange(buf, at + 8, len));
            proof {
                lemma_whole_word(buf@, seed, n, a, b, c, d, 0, wa);
                lemma_last_word(buf@, seed, n + 1, diffused(a ^ wa), b, c, d, 1, wb);
                n = n + 2;
                cur = 2;
            }
            a = diffuse(a ^ wa);
            b = diffuse(b ^ wb);
        },
        16 => {
            let wa: u64 = read_u64(buf, at);
            let wb: u64 = read_u64(buf, at + 8);
            proof {
                lemma_whole_word(buf@, seed, n, a, b, c, d, 0, wa);
                lemma_whole_word(buf@, seed, n + 1, diffused(a ^ wa), b, c, d, 1, wb);
                n = n + 2;
                cur = 2;
            }
            a = diffuse(a ^ wa);
            b = diffuse(b ^ wb);
        },
        17..=23 => {
            let wa: u64 = read_u64(buf, at);
            let wb: u64 = read_u64(buf, at + 8);
            // The last, short word.
            let wc: u64 = read_int(slice_subrange(buf, at + 16, len));
            proof {
                lemma_whole_word(buf@, seed, n, a, b, c, d, 0, wa);
                lemma_whole_word(buf@, seed, n + 1, diffused(a ^ wa), b, c, d, 1, wb);
                lemma_last_word(
                    buf@,
                    seed,
                    n + 2,
                    diffused(a ^ wa),
                    diffused(b ^ wb),
                    c,
                    d,
                    2,
                    wc,
                );
                n = n + 3;
                cur = 3;
            }
            a = diffuse(a ^ wa);
            b = diffuse(b ^ wb);
            c = diffuse(c ^ wc);
        },
        24 => {
            let wa: u64 = read_u64(buf, at);
            let wb: u64 = read_u64(buf, at + 8);
            let wc: u64 = read_u64(buf, at + 16);
            proof {
                lemma_whole_word(buf@, seed, n, a, b, c, d, 0, wa);
                lemma_whole_word(buf@, seed, n + 1, diffused(a ^ wa), b, c, d, 1, wb);
                lemma_whole_word(
                    buf@,
                    seed,
                    n + 2,
                    diffused(a ^ wa),
                    diffused(b ^ wb),
                    c,
                    d,
                    2,
                    wc,
                );
                n = n + 3;
                cur = 3;
            }
            a = diffuse(a ^ wa);
            b = diffuse(b ^ wb);
            c = diffuse(c ^ wc);
        },
        _ => {
            let wa: u64 = read_u64(buf, at);
            let wb: u64 = read_u64(buf, at + 8);
            let wc: u64 = read_u64(buf, at + 16);
            // The last, short word.
            let wd: u64 = read_int(slice_subrange(buf, at + 24, len));
            proof {
                lemma_whole_word(buf@, seed, n, a, b, c, d, 0, wa);
                lemma_whole_word(buf@, seed, n + 1, diffused(a ^ wa), b, c, d, 1, wb);
                lemma_whole_word(
                    buf@,
                    seed,
                    n + 2,
                    diffused(a ^ wa),
                    diffused(b ^ wb),
                    c,
                    d,
                    2,
                    wc,
                );
                lemma_last_word(
                    buf@,
                    seed,
                    n + 3,
                    diffused(a ^ wa),
                    diffused(b ^ wb),
                    diffused(c ^ wc),
                    d,
                    3,
                    wd,
                );
                n = n + 4;
                cur = 0;
            }
            a = diffuse(a ^ wa);
            b = diffuse(b ^ wb);
            c = diffuse(c ^ wc);
            d = diffuse(d ^ wd);
        },
    }
    proof {
        lemma_hash_from_lanes(buf@, seed, n, a, b, c, d, cur);
    }

    // The lanes start out mutually distinct, so the order of the words matters
    // although XOR commutes.
    a = a ^ b;
    c = c ^ d;
    a = a ^ c;
    // The length goes in too: zero bytes at the end would else leave no trace.
    a = a ^ len as u64;

    diffuse(a)
}

} // verus!

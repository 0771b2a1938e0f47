//! What holds of the hash as a whole, and of the two engines taken together.

use vstd::prelude::*;
use crate::model::{absorbed, lemma_absorbed_wf, lemma_le_value_zero_padded};
use crate::model::{word, word_bytes, word_count, zeros, DEFAULT_SEED};

verus! {

/// The two engines agree: for one buffer and one seed, whatever the fast engine
/// may return is what the plain engine may return.
pub proof fn lemma_engines_agree(buf: &[u8], seed: u64, fast: u64, plain: u64)
    requires
        call_ensures(crate::buffer::hash_seeded, (buf, seed), fast),
        call_ensures(crate::reference::hash_seeded, (buf, seed), plain),
    ensures
        fast == plain,
{
}

/// The two unseeded entry points agree as well.
pub proof fn lemma_unseeded_engines_agree(buf: &[u8], fast: u64, plain: u64)
    requires
        call_ensures(crate::buffer::hash, (buf,), fast),
        call_ensures(crate::reference::hash, (buf,), plain),
    ensures
        fast == plain,
{
}

/// The fast engine's result is a function of the bytes and the seed alone: two
/// calls on buffers that hold the same bytes, with the same seed, return the same
/// value.
pub proof fn lemma_buffer_hash_deterministic(
    buf1: &[u8],
    buf2: &[u8],
    seed: u64,
    h1: u64,
    h2: u64,
)
    requires
        buf1@ == buf2@,
        call_ensures(crate::buffer::hash_seeded, (buf1, seed), h1),
        call_ensures(crate::buffer::hash_seeded, (buf2, seed), h2),
    ensures
        h1 == h2,
{
}

/// The plain engine's result is a function of the bytes and the seed alone.
pub proof fn lemma_reference_hash_deterministic(
    buf1: &[u8],
    buf2: &[u8],
    seed: u64,
    h1: u64,
    h2: u64,
)
    requires
        buf1@ == buf2@,
        call_ensures(crate::reference::hash_seeded, (buf1, seed), h1),
        call_ensures(crate::reference::hash_seeded, (buf2, seed), h2),
    ensures
        h1 == h2,
{
}

/// Hashing without a seed is hashing with the default seed, in either engine.
pub proof fn lemma_default_seed(buf: &[u8], unseeded: u64, seeded: u64)
    requires
        call_ensures(crate::buffer::hash, (buf,), unseeded) || call_ensures(
            crate::reference::hash,
            (buf,),
            unseeded,
        ),
        call_ensures(crate::buffer::hash_seeded, (buf, DEFAULT_SEED), seeded) || call_ensures(
            crate::reference::hash_seeded,
            (buf, DEFAULT_SEED),
            seeded,
        ),
    ensures
        unseeded == seeded,
{
}

/// The state after `n` words depends on the buffer through those words alone.
pub proof fn lemma_absorbed_by_words(buf1: Seq<u8>, buf2: Seq<u8>, seed: u64, n: nat)
    requires
        forall|k: int| 0 <= k < n ==> word(buf1, k) == word(buf2, k),
    ensures
        absorbed(buf1, seed, n) == absorbed(buf2, seed, n),
    decreases n,
{
    if n > 0 {
        lemma_absorbed_by_words(buf1, buf2, seed, (n - 1) as nat);
    }
}

/// A lane depends on its own words alone: lane `j` after `n` words is the same
/// for two buffers that agree on the words `j`, `j + 4`, `j + 8` and so on below
/// `n`, whatever their other words are.
pub proof fn lemma_lane_by_own_words(buf1: Seq<u8>, buf2: Seq<u8>, seed: u64, n: nat, j: int)
    requires
        0 <= j < 4,
        forall|k: int| 0 <= k < n && k % 4 == j ==> word(buf1, k) == word(buf2, k),
    ensures
        absorbed(buf1, seed, n).vec[j] == absorbed(buf2, seed, n).vec[j],
    decreases n,
{
    if n > 0 {
        let before = (n - 1) as nat;
        lemma_lane_by_own_words(buf1, buf2, seed, before, j);
        lemma_absorbed_wf(buf1, seed, before);
        lemma_absorbed_wf(buf2, seed, before);
    }
}

/// Zero bytes at the end of a buffer leave a trace. As long as they fill up the
/// last word and start no new one, they leave the four lanes as they were; the
/// length, which differs, then makes what goes into the last diffusion differ.
pub proof fn lemma_trailing_zeros_change_combination(buf: Seq<u8>, n: nat, seed: u64)
    requires
        0 < n,
        word_count(buf.len() + n) == word_count(buf.len()),
        buf.len() + n <= u64::MAX,
    ensures
        absorbed(buf + zeros(n), seed, word_count(buf.len())) == absorbed(
            buf,
            seed,
            word_count(buf.len()),
        ),
        absorbed(buf + zeros(n), seed, word_count(buf.len())).combined(buf.len() + n) != absorbed(
            buf,
            seed,
            word_count(buf.len()),
        ).combined(buf.len()),
{
    let longer = buf + zeros(n);
    let words = word_count(buf.len());
    assert forall|k: int| 0 <= k < words implies word(longer, k) == word(buf, k) by {
        if 8 * k + 8 <= buf.len() {
            assert(word_bytes(longer, k) =~= word_bytes(buf, k));
        } else {
            let fill = (word_bytes(longer, k).len() - word_bytes(buf, k).len()) as nat;
            assert(word_bytes(longer, k) =~= word_bytes(buf, k) + zeros(fill));
            lemma_le_value_zero_padded(word_bytes(buf, k), fill);
        }
    }
    lemma_absorbed_by_words(longer, buf, seed, words);
    let st = absorbed(buf, seed, words);
    let x = st.vec[0] ^ st.vec[1] ^ st.vec[2] ^ st.vec[3];
    let short_len = buf.len() as u64;
    let long_len = (buf.len() + n) as u64;
    assert(x ^ short_len != x ^ long_len) by (bit_vector)
        requires
            short_len != long_len,
    ;
}

} // verus!

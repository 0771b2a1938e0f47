use seahash::buffer;
use seahash::diffuse;
use seahash::model::{DEFAULT_SEED, LANE_B, LANE_C, LANE_D, MULTIPLIER};
use seahash::reference;
use seahash::reference::State;

#[test]
fn constants_are_the_published_ones() {
    assert_eq!(DEFAULT_SEED, 0x16f11fe89b0d677c);
    assert_eq!(LANE_B, 0xb480a793d8e6c86c);
    assert_eq!(LANE_C, 0x6fe2e5aaf078ebc9);
    assert_eq!(LANE_D, 0x14f994a4c5259381);
    assert_eq!(MULTIPLIER, 0x7ed0e9fa0d94a33);
}

#[test]
fn diffuse_known_values() {
    assert_eq!(diffuse(0), 0);
    assert_eq!(diffuse(1), 0xca36aa21);
    assert_eq!(diffuse(2), 0x9c5a62e3);
    assert_eq!(diffuse(1 << 32), 0x444b34db);
    assert_eq!(diffuse(0x0123456789abcdef), 0x4d0a8fc9);
    assert_eq!(diffuse(0x16f11fe89b0d677c), 0x824e0d57);
}

#[test]
fn diffuse_wraps_without_panic() {
    assert_eq!(diffuse(u64::MAX), 0xceb59171);
}

#[test]
fn diffuse_is_multiply_shift_twice() {
    let inputs: [u64; 5] = [3, 0xdead_beef, 0x8000_0000_0000_0000, 0xffff_ffff, 12345678901234567];
    for x in inputs {
        let once: u64 = x.wrapping_mul(0x7ed0e9fa0d94a33) >> 32;
        let twice: u64 = once.wrapping_mul(0x7ed0e9fa0d94a33) >> 32;
        assert_eq!(diffuse(x), twice);
    }
}

#[test]
fn reference_read_int_is_little_endian() {
    assert_eq!(reference::read_int(&[]), 0);
    assert_eq!(reference::read_int(&[0x2a]), 0x2a);
    assert_eq!(reference::read_int(&[1, 2]), 0x0201);
    assert_eq!(reference::read_int(&[1, 2, 3, 4, 5]), 0x05_0403_0201);
    assert_eq!(
        reference::read_int(&[0x11, 0x22, 0x33, 0x44, 0x55, 0x66, 0x77, 0x88]),
        0x8877665544332211
    );
    assert_eq!(reference::read_int(&[0xff; 8]), u64::MAX);
}

#[test]
fn short_chunk_reads_as_if_zero_padded() {
    assert_eq!(
        reference::read_int(&[7, 8, 9]),
        reference::read_int(&[7, 8, 9, 0, 0, 0, 0, 0])
    );
    assert_eq!(buffer::read_int(&[7, 8, 9]), buffer::read_u64(&[7, 8, 9, 0, 0, 0, 0, 0], 0));
    assert_eq!(buffer::read_int(&[7, 8, 9]), 0x090807);
}

#[test]
fn buffer_read_int_each_length() {
    let bytes: [u8; 8] = [0x11, 0x22, 0x33, 0x44, 0x55, 0x66, 0x77, 0x88];
    assert_eq!(buffer::read_int(&bytes[..0]), 0);
    assert_eq!(buffer::read_int(&bytes[..1]), 0x11);
    assert_eq!(buffer::read_int(&bytes[..2]), 0x2211);
    assert_eq!(buffer::read_int(&bytes[..3]), 0x332211);
    assert_eq!(buffer::read_int(&bytes[..4]), 0x44332211);
    assert_eq!(buffer::read_int(&bytes[..5]), 0x5544332211);
    assert_eq!(buffer::read_int(&bytes[..6]), 0x665544332211);
    assert_eq!(buffer::read_int(&bytes[..7]), 0x77665544332211);
    for n in 0..8usize {
        assert_eq!(buffer::read_int(&bytes[..n]), reference::read_int(&bytes[..n]));
    }
}

#[test]
fn buffer_read_int_is_zero_from_eight_bytes_on() {
    assert_eq!(buffer::read_int(&[0xff; 8]), 0);
    assert_eq!(buffer::read_int(&[1; 9]), 0);
    assert_eq!(buffer::read_int(&[1; 40]), 0);
}

#[test]
fn read_u64_at_an_offset() {
    let bytes: [u8; 11] = [0xaa, 0xbb, 0xcc, 0x11, 0x22, 0x33, 0x44, 0x55, 0x66, 0x77, 0x88];
    assert_eq!(buffer::read_u64(&bytes, 3), 0x8877665544332211);
    assert_eq!(buffer::read_u64(&bytes, 0), 0x55443322_11ccbbaa);
    assert_eq!(buffer::read_u64(&[0xff; 8], 0), u64::MAX);
}

#[test]
fn state_of_no_input() {
    let state: State = State::with_seed(0x1234);
    let expected: u64 = diffuse(0x1234 ^ LANE_B ^ LANE_C ^ LANE_D);
    assert_eq!(state.finish(0), expected);
    assert_eq!(State::with_seed(DEFAULT_SEED).finish(0), 0x966f325);
}

#[test]
fn state_write_then_finish() {
    let mut state: State = State::with_seed(0x1234);
    state.write_u64(0xdeadbeef);
    assert_eq!(state.finish(4), 0xcada73da);
}

#[test]
fn state_cursor_walks_the_lanes_and_wraps() {
    let words: [u64; 6] = [10, 20, 30, 40, 50, 60];
    let mut state: State = State::with_seed(7);
    for w in words {
        state.write_u64(w);
    }
    let a: u64 = diffuse(diffuse(7 ^ 10) ^ 50);
    let b: u64 = diffuse(diffuse(LANE_B ^ 20) ^ 60);
    let c: u64 = diffuse(LANE_C ^ 30);
    let d: u64 = diffuse(LANE_D ^ 40);
    assert_eq!(state.finish(48), diffuse(a ^ b ^ c ^ d ^ 48));
}

#[test]
fn finish_mixes_the_length_in() {
    let short: u64 = State::with_seed(1).finish(3);
    let long: u64 = State::with_seed(1).finish(5);
    assert_ne!(short, long);
    assert_eq!(short, diffuse(1 ^ LANE_B ^ LANE_C ^ LANE_D ^ 3));
}

#[test]
fn empty_buffer() {
    assert_eq!(buffer::hash(b""), 0x966f325);
    assert_eq!(reference::hash(b""), 0x966f325);
    assert_eq!(buffer::hash_seeded(b"", 0), 0x1338e094);
    assert_eq!(reference::hash_seeded(b"", 0), 0x1338e094);
    assert_eq!(buffer::hash_seeded(b"", u64::MAX), 0xb38fa23d);
}

#[test]
fn known_hashes() {
    assert_eq!(buffer::hash(b"to be or not to be"), 0x7b2f7043);
    assert_eq!(reference::hash(b"to be or not to be"), 0x7b2f7043);
    assert_eq!(buffer::hash(b"love is a wonderful terrible thing"), 0x2b0cb79b);
    assert_eq!(reference::hash(b"love is a wonderful terrible thing"), 0x2b0cb79b);
    assert_eq!(buffer::hash_seeded(b"to be or not to be", 0), 0x54420af6);
    assert_eq!(buffer::hash_seeded(b"to be or not to be", u64::MAX), 0xa45884e4);
    assert_eq!(buffer::hash(&[1, 2, 3, 4]), 0x3cd11f33);
    assert_eq!(buffer::hash(&[1, 2, 3, 4, 0]), 0x707c955);
}

#[test]
fn known_hashes_at_every_tail_length() {
    let expected: [u64; 41] = [
        0x966f325, 0x784f68ad, 0xc6a37f23, 0x8020cad1, 0x8570289d, 0x6f88c667, 0x7babed41,
        0xd9fec22a, 0xbf0bad8d, 0x45252666, 0xfcee5943, 0xf45a5428, 0x36aeb7e9, 0x1af27ca2,
        0xfedae2b6, 0x5ea1941d, 0x1e2ec2f4, 0xe3f2f0c2, 0xb0410874, 0x1ec49dce, 0x85d21ae8,
        0x65c1ed1e, 0x64eb9126, 0xdcd45b8e, 0xb1b2edf3, 0x9cd66318, 0xca4beb59, 0xb58592de,
        0x51079150, 0x4ed46704, 0x5a453848, 0x8df18a8f, 0x76a9a008, 0x5ce85514, 0x54b2fae0,
        0xd5696de, 0x8179486a, 0xa8e4b113, 0xccf3730c, 0xcd44d8f3, 0xce65be36,
    ];
    let mut buf: [u8; 40] = [0; 40];
    for i in 0..40usize {
        buf[i] = i as u8;
    }
    for n in 0..41usize {
        assert_eq!(buffer::hash(&buf[..n]), expected[n]);
        assert_eq!(reference::hash(&buf[..n]), expected[n]);
    }
}

#[test]
fn known_hashes_with_seeds() {
    let mut buf: [u8; 33] = [0; 33];
    for i in 0..33usize {
        buf[i] = i as u8;
    }
    assert_eq!(buffer::hash_seeded(&buf, 1), 0x3e1a0c47);
    assert_eq!(buffer::hash_seeded(&buf, 500), 0xb498af60);
    assert_eq!(buffer::hash_seeded(&buf, 238945723984), 0x59fa823a);
    assert_eq!(buffer::hash_seeded(&buf, u64::MAX), 0x340ebbec);
    assert_eq!(reference::hash_seeded(&buf, 500), 0xb498af60);
}

#[test]
fn known_hash_of_a_long_buffer() {
    let mut buf: [u8; 4096] = [0; 4096];
    for i in 0..4096usize {
        buf[i] = i as u8;
    }
    assert_eq!(buffer::hash(&buf), 0x2a5c2276);
    assert_eq!(reference::hash(&buf), 0x2a5c2276);
}

#[test]
fn trailing_zeros_within_the_last_word_change_the_hash() {
    assert_ne!(buffer::hash(&[0, 0, 0]), buffer::hash(&[0, 0, 0, 0, 0]));
    assert_ne!(reference::hash(&[5, 6]), reference::hash(&[5, 6, 0]));
    assert_ne!(buffer::hash(&[9; 33]), {
        let mut longer: Vec<u8> = vec![9; 33];
        longer.push(0);
        buffer::hash(&longer)
    });
}

#[test]
fn swapping_two_words_changes_the_hash() {
    let mut first: Vec<u8> = vec![1; 8];
    first.extend_from_slice(&[2; 8]);
    let mut second: Vec<u8> = vec![2; 8];
    second.extend_from_slice(&[1; 8]);
    assert_ne!(buffer::hash(&first), buffer::hash(&second));
    assert_ne!(reference::hash(&first), reference::hash(&second));
}

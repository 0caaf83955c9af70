use hex_codec::hex::encode_hex;
use hex_codec::hex::encode_hex_with;
use hex_codec::hex::hex_encode_fallback;
use hex_codec::hex::hex_encode_wide;
use hex_codec::hex::supports_vector_path;

fn scalar(src: &[u8]) -> Vec<u8> {
    let mut dst = vec![0u8; 2 * src.len()];
    hex_encode_fallback(src, dst.as_mut_slice());
    dst
}

fn wide(src: &[u8]) -> Vec<u8> {
    let mut dst = vec![0u8; 2 * src.len()];
    hex_encode_wide(src, dst.as_mut_slice());
    dst
}

fn dispatched(src: &[u8]) -> Vec<u8> {
    let mut dst = vec![0u8; 2 * src.len()];
    encode_hex(src, dst.as_mut_slice());
    dst
}

/// Deterministic pseudo-random bytes for the equivalence tests.
fn pattern(len: usize, seed: u64) -> Vec<u8> {
    let mut state = seed;
    let mut out = Vec::with_capacity(len);
    for _ in 0..len {
        state = state.wrapping_mul(6364136223846793005).wrapping_add(1442695040888963407);
        out.push((state >> 33) as u8);
    }
    out
}

#[test]
fn empty_input_yields_empty_output() {
    assert_eq!(dispatched(&[]), b"".to_vec());
    assert_eq!(scalar(&[]), b"".to_vec());
    assert_eq!(wide(&[]), b"".to_vec());
}

#[test]
fn single_zero_byte() {
    assert_eq!(dispatched(&[0x00]), b"00".to_vec());
}

#[test]
fn single_ff_byte() {
    assert_eq!(dispatched(&[0xFF]), b"ff".to_vec());
}

#[test]
fn two_bytes() {
    assert_eq!(dispatched(&[0x0A, 0x1B]), b"0a1b".to_vec());
}

#[test]
fn sixteen_bytes_exactly_one_chunk() {
    let src: Vec<u8> = (0x00..=0x0F).collect();
    assert_eq!(
        dispatched(&src),
        b"000102030405060708090a0b0c0d0e0f".to_vec()
    );
    assert_eq!(wide(&src), b"000102030405060708090a0b0c0d0e0f".to_vec());
}

#[test]
fn seventeen_bytes_chunk_plus_scalar_tail() {
    let mut src: Vec<u8> = (0x00..=0x0F).collect();
    src.push(0xFF);
    assert_eq!(
        dispatched(&src),
        b"000102030405060708090a0b0c0d0e0fff".to_vec()
    );
    assert_eq!(wide(&src), b"000102030405060708090a0b0c0d0e0fff".to_vec());
}

#[test]
fn fifteen_bytes_scalar_only() {
    let src: Vec<u8> = (0x01..=0x0F).collect();
    let expected = b"0102030405060708090a0b0c0d0e0f".to_vec();
    assert_eq!(scalar(&src), expected);
    assert_eq!(dispatched(&src), expected);
}

#[test]
fn all_byte_values_both_paths() {
    let src: Vec<u8> = (0x00..=0xFF).collect();
    let s = scalar(&src);
    let w = wide(&src);
    assert_eq!(s, w);
    for (i, b) in src.iter().enumerate() {
        let digits = b"0123456789abcdef";
        assert_eq!(s[2 * i], digits[(b >> 4) as usize]);
        assert_eq!(s[2 * i + 1], digits[(b & 0xF) as usize]);
    }
}

#[test]
fn output_length_is_twice_input_length() {
    for len in [0usize, 1, 2, 7, 15, 16, 17, 31, 32, 33, 100] {
        let src = pattern(len, 11);
        // Sentinel-filled output: every position must be overwritten.
        let mut dst = vec![0xEEu8; 2 * len];
        encode_hex(&src, dst.as_mut_slice());
        assert_eq!(dst.len(), 2 * len);
        for &c in &dst {
            assert!(c.is_ascii_hexdigit());
        }
    }
}

#[test]
fn scalar_and_wide_paths_agree() {
    for len in [0usize, 1, 15, 16, 17, 31, 32, 33, 256, 1000] {
        let src = pattern(len, len as u64 + 1);
        let s = scalar(&src);
        let w = wide(&src);
        assert_eq!(s, w, "paths disagree at length {len}");
        assert_eq!(dispatched(&src), s);
    }
}

#[test]
fn encoding_is_deterministic() {
    let src = pattern(123, 42);
    let first = dispatched(&src);
    let second = dispatched(&src);
    assert_eq!(first, second);
    assert_eq!(wide(&src), wide(&src));
}

#[test]
fn gating_off_routes_through_scalar_with_identical_output() {
    for len in [0usize, 5, 16, 33, 200] {
        let src = pattern(len, 7);
        let mut gated_off = vec![0u8; 2 * len];
        encode_hex_with(false, &src, gated_off.as_mut_slice());
        let mut gated_on = vec![0u8; 2 * len];
        encode_hex_with(true, &src, gated_on.as_mut_slice());
        assert_eq!(gated_off, scalar(&src));
        assert_eq!(gated_on, gated_off);
    }
}

#[test]
fn capability_query_is_stable() {
    let first = supports_vector_path();
    let second = supports_vector_path();
    assert_eq!(first, second);
    // The wide-lane back-end is portable bounds-checked code, so it is
    // available on every platform this build runs on.
    assert!(first);
}

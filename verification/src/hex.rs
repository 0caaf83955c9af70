//! Hexadecimal encoding of byte buffers.
//!
//! Two encoders produce the same output for every input: a scalar encoder
//! that walks the bytes one at a time, and a wide-lane encoder that handles
//! sixteen bytes per iteration with branch-free mask-and-blend steps, handing
//! the final partial chunk back to the scalar encoder. A small dispatcher
//! picks the path.

use vstd::prelude::*;

verus! {

/// Low four bits of a byte.
pub open spec fn lo_nibble(b: u8) -> u8 {
    b & 0xf
}

/// High four bits of a byte.
pub open spec fn hi_nibble(b: u8) -> u8 {
    (b >> 4) & 0xf
}

/// ASCII code of the lowercase hex digit for a nibble value below sixteen:
/// `'0'..'9'` for values below ten, `'a'..'f'` for the rest.
pub open spec fn hex_digit(n: u8) -> u8
    recommends
        n < 16,
{
    if n < 10 {
        (n + 0x30) as u8
    } else {
        (n + 0x57) as u8
    }
}

/// The hex encoding of a byte sequence: two digits per byte, the high-nibble
/// digit first. This is the one mapping both encoders are held to.
pub open spec fn hex_bytes(s: Seq<u8>) -> Seq<u8> {
    Seq::new(
        2 * s.len(),
        |i: int|
            if i % 2 == 0 {
                hex_digit(hi_nibble(s[i / 2]))
            } else {
                hex_digit(lo_nibble(s[i / 2]))
            },
    )
}

/// The output is always exactly twice as long as the input.
pub proof fn lemma_hex_bytes_len(s: Seq<u8>)
    ensures
        hex_bytes(s).len() == 2 * s.len(),
{
}

/// An empty input encodes to an empty output.
pub proof fn lemma_hex_bytes_empty()
    ensures
        hex_bytes(Seq::<u8>::empty()) == Seq::<u8>::empty(),
{
    assert(hex_bytes(Seq::<u8>::empty()) =~= Seq::<u8>::empty());
}

/// Encoding is a function of the input alone: any two outputs that satisfy
/// the encoders' postcondition on the same input are equal byte for byte.
pub proof fn lemma_encode_deterministic(s: Seq<u8>, out1: Seq<u8>, out2: Seq<u8>)
    requires
        out1 == hex_bytes(s),
        out2 == hex_bytes(s),
    ensures
        out1 == out2,
{
}

/// The encoding arranged as the wide-lane encoder arranges its work: whole
/// sixteen-byte chunks first, the remainder encoded in one piece.
pub open spec fn hex_bytes_chunked(s: Seq<u8>) -> Seq<u8>
    decreases s.len(),
{
    if s.len() < 16 {
        hex_bytes(s)
    } else {
        hex_bytes(s.take(16)) + hex_bytes_chunked(s.skip(16))
    }
}

/// Division by two after dropping one chunk's worth of output positions.
proof fn lemma_div2_past_chunk(j: int)
    requires
        j >= 32,
    ensures
        (j - 32) / 2 == j / 2 - 16,
        (j - 32) % 2 == j % 2,
{
    assert((j - 32) / 2 == j / 2 - 16 && (j - 32) % 2 == j % 2) by (nonlinear_arith);
}

/// The scalar and wide-lane work plans agree on every input: encoding chunk
/// by chunk yields exactly the encoding of the whole sequence.
pub proof fn lemma_chunked_agrees(s: Seq<u8>)
    ensures
        hex_bytes_chunked(s) == hex_bytes(s),
    decreases s.len(),
{
    if s.len() >= 16 {
        lemma_chunked_agrees(s.skip(16));
        let lhs = hex_bytes(s.take(16)) + hex_bytes(s.skip(16));
        let rhs = hex_bytes(s);
        assert forall|j: int| 0 <= j < rhs.len() implies lhs[j] == rhs[j] by {
            assert(0 <= j / 2 && 2 * (j / 2) <= j <= 2 * (j / 2) + 1) by (nonlinear_arith)
                requires
                    0 <= j,
            ;
            if j < 32 {
                assert(s.take(16)[j / 2] == s[j / 2]);
            } else {
                lemma_div2_past_chunk(j);
                assert(s.skip(16)[(j - 32) / 2] == s[j / 2]);
            }
        }
        assert(lhs =~= rhs);
    }
}

/// The two digits of byte `k` sit at output positions `2k` and `2k + 1`.
proof fn lemma_hex_bytes_index(s: Seq<u8>, k: int)
    requires
        0 <= k < s.len(),
    ensures
        hex_bytes(s)[2 * k] == hex_digit(hi_nibble(s[k])),
        hex_bytes(s)[2 * k + 1] == hex_digit(lo_nibble(s[k])),
{
    assert((2 * k) % 2 == 0 && (2 * k) / 2 == k) by (nonlinear_arith);
    assert((2 * k + 1) % 2 == 1 && (2 * k + 1) / 2 == k) by (nonlinear_arith);
}

/// Maps one nibble value to its ASCII digit.
fn nibble_to_ascii(n: u8) -> (c: u8)
    requires
        n < 16,
    ensures
        c == hex_digit(n),
{
    if n < 10 {
        n + 0x30
    } else {
        n + 0x57
    }
}

/// Scalar encoder over a suffix: writes the digits of `src[start..]` into
/// `dst[2 * start..]`, leaving everything before that offset untouched.
fn scalar_encode_from(src: &[u8], dst: &mut [u8], start: usize)
    requires
        old(dst).len() == 2 * src.len(),
        start <= src.len(),
    ensures
        final(dst)@.len() == old(dst)@.len(),
        forall|j: int| 0 <= j < 2 * start ==> final(dst)@[j] == old(dst)@[j],
        forall|j: int|
            2 * start <= j < final(dst)@.len() ==> final(dst)@[j] == hex_bytes(src@)[j],
{
    let ghost dst0 = dst@;
    let n = src.len();
    let two_n = dst.len();
    let mut k: usize = start;
    while k < n
        invariant
            start <= k <= n,
            n == src@.len(),
            two_n == 2 * n,
            dst@.len() == 2 * n,
            forall|j: int| 0 <= j < 2 * start ==> dst@[j] == dst0[j],
            forall|j: int| 2 * start <= j < 2 * k ==> dst@[j] == hex_bytes(src@)[j],
        decreases n - k,
    {
        let b = src[k];
        proof {
            lemma_hex_bytes_index(src@, k as int);
            assert((b >> 4) & 0xf < 16) by (bit_vector);
            assert(b & 0xf < 16) by (bit_vector);
        }
        let c_hi = nibble_to_ascii((b >> 4) & 0xf);
        let c_lo = nibble_to_ascii(b & 0xf);
        dst[2 * k] = c_hi;
        dst[2 * k + 1] = c_lo;
        k = k + 1;
    }
}

/// Scalar encoder: fills `dst` with the hex digits of `src`, two per byte,
/// the high-nibble digit first. Correct on every platform and every input
/// whose output buffer is exactly twice as long as the input.
pub fn hex_encode_fallback(src: &[u8], dst: &mut [u8])
    requires
        old(dst).len() == 2 * src.len(),
    ensures
        final(dst)@ == hex_bytes(src@),
{
    scalar_encode_from(src, dst, 0);
    assert(dst@ =~= hex_bytes(src@));
}

/// One wide-lane iteration: encodes the sixteen bytes at `src[base..base + 16]`
/// into `dst[2 * base..2 * base + 32]`. The chunk is split into two
/// sixteen-lane nibble groups, each lane is compared against nine to build a
/// letter mask, a mask-selected base offset is added lane by lane (a blend,
/// not a branch on data), and the two character groups are interleaved into
/// the output, high-nibble digit first.
fn encode_chunk(src: &[u8], dst: &mut [u8], base: usize)
    requires
        old(dst).len() == 2 * src.len(),
        base + 16 <= src.len(),
    ensures
        final(dst)@.len() == old(dst)@.len(),
        forall|j: int| 0 <= j < 2 * base ==> final(dst)@[j] == old(dst)@[j],
        forall|j: int| 2 * base <= j < 2 * base + 32 ==> final(dst)@[j] == hex_bytes(src@)[j],
        forall|j: int|
            2 * base + 32 <= j < final(dst)@.len() ==> final(dst)@[j] == old(dst)@[j],
{
    let ghost dst0 = dst@;
    let n = src.len();
    let two_n = dst.len();

    // Load the chunk and split each byte across two nibble lane groups.
    let mut lo: [u8; 16] = [0; 16];
    let mut hi: [u8; 16] = [0; 16];
    let mut j: usize = 0;
    while j < 16
        invariant
            j <= 16,
            n == src@.len(),
            base + 16 <= n,
            forall|t: int| 0 <= t < j ==> lo@[t] == lo_nibble(src@[base + t]) && lo@[t] < 16,
            forall|t: int| 0 <= t < j ==> hi@[t] == hi_nibble(src@[base + t]) && hi@[t] < 16,
        decreases 16 - j,
    {
        let b = src[base + j];
        proof {
            assert(b & 0xf < 16) by (bit_vector);
            assert((b >> 4) & 0xf < 16) by (bit_vector);
        }
        lo[j] = b & 0xf;
        hi[j] = (b >> 4) & 0xf;
        j = j + 1;
    }

    // Per-lane letter masks: true exactly where the nibble maps to 'a'..'f'.
    let mut letter_lo: [bool; 16] = [false; 16];
    let mut letter_hi: [bool; 16] = [false; 16];
    j = 0;
    while j < 16
        invariant
            j <= 16,
            forall|t: int| 0 <= t < 16 ==> lo@[t] == lo_nibble(src@[base + t]) && lo@[t] < 16,
            forall|t: int| 0 <= t < 16 ==> hi@[t] == hi_nibble(src@[base + t]) && hi@[t] < 16,
            forall|t: int| 0 <= t < j ==> letter_lo@[t] == (lo@[t] > 9),
            forall|t: int| 0 <= t < j ==> letter_hi@[t] == (hi@[t] > 9),
        decreases 16 - j,
    {
        letter_lo[j] = lo[j] > 9;
        letter_hi[j] = hi[j] > 9;
        j = j + 1;
    }

    // Blend: add the digit base to every lane, the letter offset where the
    // mask selected it.
    let mut chr_lo: [u8; 16] = [0; 16];
    let mut chr_hi: [u8; 16] = [0; 16];
    j = 0;
    while j < 16
        invariant
            j <= 16,
            forall|t: int| 0 <= t < 16 ==> lo@[t] == lo_nibble(src@[base + t]) && lo@[t] < 16,
            forall|t: int| 0 <= t < 16 ==> hi@[t] == hi_nibble(src@[base + t]) && hi@[t] < 16,
            forall|t: int| 0 <= t < 16 ==> letter_lo@[t] == (lo@[t] > 9),
            forall|t: int| 0 <= t < 16 ==> letter_hi@[t] == (hi@[t] > 9),
            forall|t: int| 0 <= t < j ==> chr_lo@[t] == hex_digit(lo_nibble(src@[base + t])),
            forall|t: int| 0 <= t < j ==> chr_hi@[t] == hex_digit(hi_nibble(src@[base + t])),
        decreases 16 - j,
    {
        let offset_lo: u8 = if letter_lo[j] {
            0x57
        } else {
            0x30
        };
        let offset_hi: u8 = if letter_hi[j] {
            0x57
        } else {
            0x30
        };
        chr_lo[j] = lo[j] + offset_lo;
        chr_hi[j] = hi[j] + offset_hi;
        j = j + 1;
    }

    // Interleave the two character groups into the output window.
    j = 0;
    while j < 16
        invariant
            j <= 16,
            n == src@.len(),
            base + 16 <= n,
            two_n == 2 * n,
            dst@.len() == 2 * n,
            forall|t: int| 0 <= t < 16 ==> chr_lo@[t] == hex_digit(lo_nibble(src@[base + t])),
            forall|t: int| 0 <= t < 16 ==> chr_hi@[t] == hex_digit(hi_nibble(src@[base + t])),
            forall|j2: int| 0 <= j2 < 2 * base ==> dst@[j2] == dst0[j2],
            forall|j2: int| 2 * base <= j2 < 2 * base + 2 * j ==> dst@[j2] == hex_bytes(src@)[j2],
            forall|j2: int| 2 * base + 2 * j <= j2 < dst@.len() ==> dst@[j2] == dst0[j2],
        decreases 16 - j,
    {
        proof {
            lemma_hex_bytes_index(src@, base + j);
        }
        dst[2 * (base + j)] = chr_hi[j];
        dst[2 * (base + j) + 1] = chr_lo[j];
        j = j + 1;
    }
}

/// Wide-lane encoder: observably identical to the scalar encoder, consuming
/// full sixteen-byte chunks while they last and handing the remaining bytes,
/// with the correctly offset rest of the output, to the scalar encoder.
pub fn hex_encode_wide(src: &[u8], dst: &mut [u8])
    requires
        old(dst).len() == 2 * src.len(),
    ensures
        final(dst)@ == hex_bytes(src@),
{
    let n = src.len();
    let two_n = dst.len();
    let mut i: usize = 0;
    while i + 16 <= n
        invariant
            i <= n,
            n == src@.len(),
            two_n == 2 * n,
            dst@.len() == 2 * n,
            forall|j: int| 0 <= j < 2 * i ==> dst@[j] == hex_bytes(src@)[j],
        decreases n - i,
    {
        encode_chunk(src, dst, i);
        i = i + 16;
    }
    scalar_encode_from(src, dst, i);
    assert(dst@ =~= hex_bytes(src@));
}

/// Whether the wide-lane encoder may run on the current platform. The wide
/// path here is bounds-checked portable code with no instruction-set
/// precondition, so it is available everywhere; a back-end gated on a real
/// instruction-set extension would surface its capability check through this
/// predicate instead.
pub open spec fn vector_path_available() -> bool {
    true
}

/// Capability query for the wide-lane path: pure, side-effect free, safe to
/// call repeatedly. When it reports `false` the dispatcher routes every byte
/// through the scalar encoder, with identical output.
pub fn supports_vector_path() -> (b: bool)
    ensures
        b == vector_path_available(),
{
    true
}

/// Dispatcher over an explicit capability flag: takes the wide-lane path only
/// when the flag allows it and a full chunk exists, and the scalar path
/// otherwise. The postcondition does not mention the flag: whichever path
/// runs, `dst` ends up holding exactly the hex digits of `src`, every
/// position written once.
pub fn encode_hex_with(use_wide: bool, src: &[u8], dst: &mut [u8])
    requires
        old(dst).len() == 2 * src.len(),
    ensures
        final(dst)@ == hex_bytes(src@),
{
    if use_wide && src.len() >= 16 {
        hex_encode_wide(src, dst);
    } else {
        hex_encode_fallback(src, dst);
    }
}

/// Encodes `src` into `dst` as lowercase hex, two digits per byte, high
/// nibble first; `dst` must be exactly twice as long as `src`. Checks the
/// platform capability and dispatches to the wide-lane or scalar encoder.
pub fn encode_hex(src: &[u8], dst: &mut [u8])
    requires
        old(dst).len() == 2 * src.len(),
    ensures
        final(dst)@ == hex_bytes(src@),
{
    let wide = supports_vector_path();
    encode_hex_with(wide, src, dst);
}

} // verus!

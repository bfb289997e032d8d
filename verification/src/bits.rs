//! Bit-level views of bytes and nibbles.
//!
//! The boolean state of the cipher holds one value per bit, most significant
//! bit of each byte first.  These spec functions relate such bit sequences
//! to the bytes and nibbles they encode, and the lemmas below carry the
//! facts about composition, decomposition and bitwise XOR that the pipeline
//! proofs rely on.

use vstd::prelude::*;

verus! {

/// Every entry of the sequence is a single bit (0 or 1).
pub open spec fn bits_wf(bs: Seq<u64>) -> bool {
    forall|i: int| 0 <= i < bs.len() ==> #[trigger] bs[i] < 2
}

/// Bit `k` of byte `b`, most significant bit first (`k` in 0..8).
pub open spec fn bitv(b: u8, k: int) -> u64 {
    ((b >> ((7 - k) as u8)) & 1) as u64
}

/// The eight bits of a byte, most significant first.
pub open spec fn byte_bits(b: u8) -> Seq<u64> {
    Seq::new(8, |k: int| bitv(b, k))
}

/// The byte encoded by eight bits, most significant first.
pub open spec fn bits_to_byte(bs: Seq<u64>) -> u8
    recommends
        bs.len() == 8,
        bits_wf(bs),
{
    (128 * bs[0] + 64 * bs[1] + 32 * bs[2] + 16 * bs[3] + 8 * bs[4] + 4 * bs[5] + 2 * bs[6]
        + bs[7]) as u8
}

/// The nibble encoded by four bits, most significant first.
pub open spec fn nibble_of_bits(bs: Seq<u64>) -> u64
    recommends
        bs.len() == 4,
        bits_wf(bs),
{
    (8 * bs[0] + 4 * bs[1] + 2 * bs[2] + bs[3]) as u64
}

/// The four bits of a nibble, most significant first.
pub open spec fn nibble_bits(n: u64) -> Seq<u64> {
    Seq::new(4, |k: int| (n >> ((3 - k) as u64)) & 1)
}

/// The bytes encoded by a bit sequence, eight bits per byte.
pub open spec fn bytes_of_bits(bs: Seq<u64>) -> Seq<u8> {
    Seq::new(bs.len() / 8, |j: int| bits_to_byte(bs.subrange(8 * j, 8 * j + 8)))
}

/// The bit sequence of a byte sequence, eight bits per byte.
pub open spec fn bits_of_bytes(bytes: Seq<u8>) -> Seq<u64> {
    Seq::new(bytes.len() * 8, |i: int| bitv(bytes[i / 8], i % 8))
}

/// The nibbles encoded by a bit sequence, four bits per nibble.
pub open spec fn nibbles_of_bits(bs: Seq<u64>) -> Seq<u64> {
    Seq::new(bs.len() / 4, |j: int| nibble_of_bits(bs.subrange(4 * j, 4 * j + 4)))
}

/// The bit sequence of a nibble sequence, four bits per nibble.
pub open spec fn bits_of_nibbles(ns: Seq<u64>) -> Seq<u64> {
    Seq::new(ns.len() * 4, |i: int| nibble_bits(ns[i / 4])[i % 4])
}

/// Any value ANDed with 1 is a single bit.
pub proof fn lemma_and_one_bound(x: u64)
    ensures
        (x & 1) < 2,
{
    assert((x & 1) < 2) by (bit_vector);
}

/// Every extracted bit of a byte is a single bit.
pub proof fn lemma_bitv_bound(b: u8, k: int)
    ensures
        bitv(b, k) < 2,
{
    let s = (7 - k) as u8;
    assert(((b >> s) & 1) < 2) by (bit_vector);
}

/// The bits of a byte are single bits.
pub proof fn lemma_byte_bits_wf(b: u8)
    ensures
        bits_wf(byte_bits(b)),
{
    assert forall|k: int| 0 <= k < 8 implies #[trigger] byte_bits(b)[k] < 2 by {
        lemma_bitv_bound(b, k);
    };
}

/// Composing the eight bits of a byte gives the byte back.
pub proof fn lemma_byte_bits_roundtrip(b: u8)
    ensures
        bits_to_byte(byte_bits(b)) == b,
{
    assert((128 * ((((b >> 7) & 1)) as u64) + 64 * ((((b >> 6) & 1)) as u64) + 32 * ((((b >> 5)
        & 1)) as u64) + 16 * ((((b >> 4) & 1)) as u64) + 8 * ((((b >> 3) & 1)) as u64) + 4 * ((((b
        >> 2) & 1)) as u64) + 2 * ((((b >> 1) & 1)) as u64) + (((b >> 0) & 1) as u64)) as u8 == b)
        by (bit_vector);
}

/// Decomposing the byte encoded by eight bits gives the bits back.
pub proof fn lemma_bits_byte_roundtrip(bs: Seq<u64>)
    requires
        bs.len() == 8,
        bits_wf(bs),
    ensures
        byte_bits(bits_to_byte(bs)) =~= bs,
{
    let x0 = bs[0];
    let x1 = bs[1];
    let x2 = bs[2];
    let x3 = bs[3];
    let x4 = bs[4];
    let x5 = bs[5];
    let x6 = bs[6];
    let x7 = bs[7];
    assert({
        let b = (128 * x0 + 64 * x1 + 32 * x2 + 16 * x3 + 8 * x4 + 4 * x5 + 2 * x6 + x7) as u8;
        (((b >> 7) & 1) as u64) == x0 && (((b >> 6) & 1) as u64) == x1 && (((b >> 5)
            & 1) as u64) == x2 && (((b >> 4) & 1) as u64) == x3 && (((b >> 3) & 1) as u64) == x4
            && (((b >> 2) & 1) as u64) == x5 && (((b >> 1) & 1) as u64) == x6 && (((b >> 0)
            & 1) as u64) == x7
    }) by (bit_vector)
        requires
            x0 < 2 && x1 < 2 && x2 < 2 && x3 < 2 && x4 < 2 && x5 < 2 && x6 < 2 && x7 < 2,
    ;
}

/// XOR of two bit sequences encodes the XOR of the bytes they encode.
pub proof fn lemma_bits_xor(bs1: Seq<u64>, bs2: Seq<u64>)
    requires
        bs1.len() == 8,
        bs2.len() == 8,
        bits_wf(bs1),
        bits_wf(bs2),
    ensures
        bits_to_byte(Seq::new(8, |k: int| bs1[k] ^ bs2[k])) == bits_to_byte(bs1) ^ bits_to_byte(
            bs2,
        ),
{
    let x0 = bs1[0];
    let x1 = bs1[1];
    let x2 = bs1[2];
    let x3 = bs1[3];
    let x4 = bs1[4];
    let x5 = bs1[5];
    let x6 = bs1[6];
    let x7 = bs1[7];
    let y0 = bs2[0];
    let y1 = bs2[1];
    let y2 = bs2[2];
    let y3 = bs2[3];
    let y4 = bs2[4];
    let y5 = bs2[5];
    let y6 = bs2[6];
    let y7 = bs2[7];
    assert((128 * (x0 ^ y0) + 64 * (x1 ^ y1) + 32 * (x2 ^ y2) + 16 * (x3 ^ y3) + 8 * (x4 ^ y4) + 4
        * (x5 ^ y5) + 2 * (x6 ^ y6) + (x7 ^ y7)) as u8 == ((128 * x0 + 64 * x1 + 32 * x2 + 16 * x3
        + 8 * x4 + 4 * x5 + 2 * x6 + x7) as u8) ^ ((128 * y0 + 64 * y1 + 32 * y2 + 16 * y3 + 8 * y4
        + 4 * y5 + 2 * y6 + y7) as u8)) by (bit_vector)
        requires
            x0 < 2 && x1 < 2 && x2 < 2 && x3 < 2 && x4 < 2 && x5 < 2 && x6 < 2 && x7 < 2 && y0 < 2
                && y1 < 2 && y2 < 2 && y3 < 2 && y4 < 2 && y5 < 2 && y6 < 2 && y7 < 2,
    ;
    assert(Seq::new(8, |k: int| bs1[k] ^ bs2[k])[0] == (x0 ^ y0));
}

/// The sum of two bits modulo 2 is their XOR.
pub proof fn lemma_parity2(a: u64, b: u64)
    requires
        a < 2,
        b < 2,
    ensures
        (a + b) % 2 == a ^ b,
{
    assert((a + b) % 2 == (a ^ b)) by (bit_vector)
        requires
            a < 2 && b < 2,
    ;
}

/// The sum of five bits modulo 2 is their XOR.
pub proof fn lemma_parity5(a: u64, b: u64, c: u64, d: u64, e: u64)
    requires
        a < 2,
        b < 2,
        c < 2,
        d < 2,
        e < 2,
    ensures
        (a + b + c + d + e) % 2 == a ^ b ^ c ^ d ^ e,
{
    assert((a + b + c + d + e) % 2 == (a ^ b ^ c ^ d ^ e)) by (bit_vector)
        requires
            a < 2 && b < 2 && c < 2 && d < 2 && e < 2,
    ;
}

/// The sum of seven bits modulo 2 is their XOR.
pub proof fn lemma_parity7(a: u64, b: u64, c: u64, d: u64, e: u64, f: u64, g: u64)
    requires
        a < 2,
        b < 2,
        c < 2,
        d < 2,
        e < 2,
        f < 2,
        g < 2,
    ensures
        (a + b + c + d + e + f + g) % 2 == a ^ b ^ c ^ d ^ e ^ f ^ g,
{
    assert((a + b + c + d + e + f + g) % 2 == (a ^ b ^ c ^ d ^ e ^ f ^ g)) by (bit_vector)
        requires
            a < 2 && b < 2 && c < 2 && d < 2 && e < 2 && f < 2 && g < 2,
    ;
}

/// Composing the four bits of a nibble gives the nibble back.
pub proof fn lemma_nibble_bits_roundtrip(n: u64)
    requires
        n < 16,
    ensures
        nibble_of_bits(nibble_bits(n)) == n,
{
    assert((8 * ((n >> 3) & 1) + 4 * ((n >> 2) & 1) + 2 * ((n >> 1) & 1) + ((n >> 0)
        & 1)) as u64 == n) by (bit_vector)
        requires
            n < 16,
    ;
}

/// Decomposing the nibble encoded by four bits gives the bits back.
pub proof fn lemma_bits_nibble_roundtrip(bs: Seq<u64>)
    requires
        bs.len() == 4,
        bits_wf(bs),
    ensures
        nibble_bits(nibble_of_bits(bs)) =~= bs,
{
    let x0 = bs[0];
    let x1 = bs[1];
    let x2 = bs[2];
    let x3 = bs[3];
    assert({
        let n = (8 * x0 + 4 * x1 + 2 * x2 + x3) as u64;
        ((n >> 3) & 1) == x0 && ((n >> 2) & 1) == x1 && ((n >> 1) & 1) == x2 && ((n >> 0) & 1)
            == x3
    }) by (bit_vector)
        requires
            x0 < 2 && x1 < 2 && x2 < 2 && x3 < 2,
    ;
}

/// A byte is sixteen times its high nibble plus its low nibble, so the
/// eight-bit composition splits into two four-bit compositions.
pub proof fn lemma_byte_of_nibbles(bs: Seq<u64>)
    requires
        bs.len() == 8,
        bits_wf(bs),
    ensures
        bits_to_byte(bs) == (16 * nibble_of_bits(bs.subrange(0, 4)) + nibble_of_bits(
            bs.subrange(4, 8),
        )) as u8,
{
    let hi = bs.subrange(0, 4);
    let lo = bs.subrange(4, 8);
    assert(hi[0] == bs[0] && hi[1] == bs[1] && hi[2] == bs[2] && hi[3] == bs[3]);
    assert(lo[0] == bs[4] && lo[1] == bs[5] && lo[2] == bs[6] && lo[3] == bs[7]);
}

/// Elementwise XOR of two equally long bit sequences.
pub open spec fn xor_bits(a: Seq<u64>, b: Seq<u64>) -> Seq<u64>
    recommends
        a.len() == b.len(),
{
    Seq::new(a.len(), |k: int| a[k] ^ b[k])
}

/// XORing bit sequences XORs the bytes they encode.
pub proof fn lemma_bytes_of_xor(a: Seq<u64>, b: Seq<u64>)
    requires
        a.len() == b.len(),
        a.len() % 8 == 0,
        bits_wf(a),
        bits_wf(b),
    ensures
        bits_wf(xor_bits(a, b)),
        bytes_of_bits(xor_bits(a, b)) =~= crate::aes_spec::xor_bytes(
            bytes_of_bits(a),
            bytes_of_bits(b),
        ),
{
    assert forall|k: int| 0 <= k < a.len() implies #[trigger] xor_bits(a, b)[k] < 2 by {
        lemma_parity2(a[k], b[k]);
    };
    assert forall|j: int| 0 <= j < a.len() / 8 implies #[trigger] bytes_of_bits(xor_bits(a, b))[j]
        == (bytes_of_bits(a)[j] ^ bytes_of_bits(b)[j]) by {
        let sa = a.subrange(8 * j, 8 * j + 8);
        let sb = b.subrange(8 * j, 8 * j + 8);
        lemma_bits_xor(sa, sb);
        assert(xor_bits(a, b).subrange(8 * j, 8 * j + 8) =~= Seq::new(8, |k: int| sa[k] ^ sb[k]));
    };
}

/// Taking bytes of a byte-aligned subrange is taking a subrange of the
/// bytes.
pub proof fn lemma_bytes_of_bits_subrange(bs: Seq<u64>, a: int, b: int)
    requires
        0 <= a <= b <= bs.len(),
        a % 8 == 0,
        b % 8 == 0,
    ensures
        bytes_of_bits(bs.subrange(a, b)) =~= bytes_of_bits(bs).subrange(a / 8, b / 8),
{
    let sub = bs.subrange(a, b);
    assert forall|j: int| 0 <= j < (b - a) / 8 implies bytes_of_bits(sub)[j] == bytes_of_bits(
        bs,
    ).subrange(a / 8, b / 8)[j] by {
        assert(sub.subrange(8 * j, 8 * j + 8) =~= bs.subrange(a + 8 * j, a + 8 * j + 8));
        assert(bytes_of_bits(bs)[a / 8 + j] == bits_to_byte(
            bs.subrange(8 * (a / 8 + j), 8 * (a / 8 + j) + 8),
        ));
        assert(8 * (a / 8 + j) == a + 8 * j);
    };
}

/// Each byte of a bit sequence is sixteen times the even-indexed nibble
/// plus the odd-indexed nibble that it decomposes into.
pub proof fn lemma_bytes_from_nibbles(bs: Seq<u64>)
    requires
        bs.len() % 8 == 0,
        bits_wf(bs),
    ensures
        forall|j: int|
            0 <= j < bs.len() / 8 ==> #[trigger] bytes_of_bits(bs)[j] == (16 * nibbles_of_bits(
                bs,
            )[2 * j] + nibbles_of_bits(bs)[2 * j + 1]) as u8,
{
    assert forall|j: int| 0 <= j < bs.len() / 8 implies #[trigger] bytes_of_bits(bs)[j] == (16
        * nibbles_of_bits(bs)[2 * j] + nibbles_of_bits(bs)[2 * j + 1]) as u8 by {
        let sub = bs.subrange(8 * j, 8 * j + 8);
        lemma_byte_of_nibbles(sub);
        assert(sub.subrange(0, 4) =~= bs.subrange(4 * (2 * j), 4 * (2 * j) + 4));
        assert(sub.subrange(4, 8) =~= bs.subrange(4 * (2 * j + 1), 4 * (2 * j + 1) + 4));
    };
}

/// The bits of a nibble are single bits.
pub proof fn lemma_nibble_bits_wf(n: u64)
    ensures
        bits_wf(nibble_bits(n)),
{
    assert forall|k: int| 0 <= k < 4 implies #[trigger] nibble_bits(n)[k] < 2 by {
        lemma_and_one_bound(n >> ((3 - k) as u64));
    };
}

/// Round trip: decomposing the nibbles that a bit sequence composes to
/// gives the bit sequence back, for any sequence of bits grouped in fours.
pub proof fn lemma_bits_of_nibbles_of_bits(bs: Seq<u64>)
    requires
        bs.len() % 4 == 0,
        bits_wf(bs),
    ensures
        bits_of_nibbles(nibbles_of_bits(bs)) =~= bs,
{
    let ns = nibbles_of_bits(bs);
    assert forall|i: int| 0 <= i < bs.len() implies bits_of_nibbles(ns)[i] == bs[i] by {
        let j = i / 4;
        let g = bs.subrange(4 * j, 4 * j + 4);
        lemma_bits_nibble_roundtrip(g);
        assert(nibble_bits(ns[j])[i % 4] == g[i % 4]);
        assert(g[i % 4] == bs[4 * j + i % 4]);
        assert(4 * j + i % 4 == i) by {
            vstd::arithmetic::div_mod::lemma_fundamental_div_mod(i, 4);
        };
    };
}

/// Round trip: composing the bits that a nibble sequence decomposes to
/// gives the nibble sequence back, for any sequence of nibble values.
pub proof fn lemma_nibbles_of_bits_of_nibbles(ns: Seq<u64>)
    requires
        forall|i: int| 0 <= i < ns.len() ==> #[trigger] ns[i] < 16,
    ensures
        nibbles_of_bits(bits_of_nibbles(ns)) =~= ns,
{
    let bs = bits_of_nibbles(ns);
    assert forall|j: int| 0 <= j < ns.len() implies nibbles_of_bits(bs)[j] == ns[j] by {
        assert(bs.subrange(4 * j, 4 * j + 4) =~= nibble_bits(ns[j])) by {
            assert forall|k: int| 0 <= k < 4 implies bs.subrange(4 * j, 4 * j + 4)[k]
                == nibble_bits(ns[j])[k] by {
                assert(bs[4 * j + k] == nibble_bits(ns[(4 * j + k) / 4])[(4 * j + k) % 4]);
                assert((4 * j + k) / 4 == j && (4 * j + k) % 4 == k) by {
                    vstd::arithmetic::div_mod::lemma_fundamental_div_mod(4 * j + k, 4);
                };
            };
        };
        lemma_nibble_bits_roundtrip(ns[j]);
    };
}

/// The bit sequence of a byte sequence is made of single bits.
pub proof fn lemma_bits_of_bytes_wf(bytes: Seq<u8>)
    ensures
        bits_wf(bits_of_bytes(bytes)),
{
    assert forall|i: int| 0 <= i < bytes.len() * 8 implies #[trigger] bits_of_bytes(bytes)[i]
        < 2 by {
        lemma_bitv_bound(bytes[i / 8], i % 8);
    };
}

/// Round trip: the bytes encoded by the bits of a byte sequence are the
/// byte sequence itself.
pub proof fn lemma_bytes_bits_roundtrip(bytes: Seq<u8>)
    ensures
        bytes_of_bits(bits_of_bytes(bytes)) =~= bytes,
{
    let bs = bits_of_bytes(bytes);
    assert forall|j: int| 0 <= j < bytes.len() implies bytes_of_bits(bs)[j] == bytes[j] by {
        assert(bs.subrange(8 * j, 8 * j + 8) =~= byte_bits(bytes[j])) by {
            assert forall|k: int|
                0 <= k < 8 implies #[trigger] bs.subrange(8 * j, 8 * j + 8)[k] == byte_bits(
                bytes[j],
            )[k] by {
                assert(bs[8 * j + k] == bitv(bytes[(8 * j + k) / 8], (8 * j + k) % 8));
                assert((8 * j + k) / 8 == j && (8 * j + k) % 8 == k) by {
                    vstd::arithmetic::div_mod::lemma_fundamental_div_mod(8 * j + k, 8);
                };
            };
        };
        lemma_byte_bits_roundtrip(bytes[j]);
    };
}

} // verus!

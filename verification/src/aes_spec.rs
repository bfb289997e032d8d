//! The mathematical specification of AES-128.
//!
//! These spec functions define the cipher at the byte level, over the
//! standard column-major state layout: byte `i` of a 16-byte state sits at
//! row `i % 4` of column `i / 4`.  The executable pipeline's contracts all
//! bottom out in these definitions, and the test suite pins them to the
//! published AES test vectors.

use vstd::prelude::*;

verus! {

/// The AES S-box, indexed by the input byte.
pub const SBOX: [u8; 256] = [
    0x63, 0x7c, 0x77, 0x7b, 0xf2, 0x6b, 0x6f, 0xc5, 0x30, 0x01, 0x67, 0x2b, 0xfe, 0xd7, 0xab, 0x76,
    0xca, 0x82, 0xc9, 0x7d, 0xfa, 0x59, 0x47, 0xf0, 0xad, 0xd4, 0xa2, 0xaf, 0x9c, 0xa4, 0x72, 0xc0,
    0xb7, 0xfd, 0x93, 0x26, 0x36, 0x3f, 0xf7, 0xcc, 0x34, 0xa5, 0xe5, 0xf1, 0x71, 0xd8, 0x31, 0x15,
    0x04, 0xc7, 0x23, 0xc3, 0x18, 0x96, 0x05, 0x9a, 0x07, 0x12, 0x80, 0xe2, 0xeb, 0x27, 0xb2, 0x75,
    0x09, 0x83, 0x2c, 0x1a, 0x1b, 0x6e, 0x5a, 0xa0, 0x52, 0x3b, 0xd6, 0xb3, 0x29, 0xe3, 0x2f, 0x84,
    0x53, 0xd1, 0x00, 0xed, 0x20, 0xfc, 0xb1, 0x5b, 0x6a, 0xcb, 0xbe, 0x39, 0x4a, 0x4c, 0x58, 0xcf,
    0xd0, 0xef, 0xaa, 0xfb, 0x43, 0x4d, 0x33, 0x85, 0x45, 0xf9, 0x02, 0x7f, 0x50, 0x3c, 0x9f, 0xa8,
    0x51, 0xa3, 0x40, 0x8f, 0x92, 0x9d, 0x38, 0xf5, 0xbc, 0xb6, 0xda, 0x21, 0x10, 0xff, 0xf3, 0xd2,
    0xcd, 0x0c, 0x13, 0xec, 0x5f, 0x97, 0x44, 0x17, 0xc4, 0xa7, 0x7e, 0x3d, 0x64, 0x5d, 0x19, 0x73,
    0x60, 0x81, 0x4f, 0xdc, 0x22, 0x2a, 0x90, 0x88, 0x46, 0xee, 0xb8, 0x14, 0xde, 0x5e, 0x0b, 0xdb,
    0xe0, 0x32, 0x3a, 0x0a, 0x49, 0x06, 0x24, 0x5c, 0xc2, 0xd3, 0xac, 0x62, 0x91, 0x95, 0xe4, 0x79,
    0xe7, 0xc8, 0x37, 0x6d, 0x8d, 0xd5, 0x4e, 0xa9, 0x6c, 0x56, 0xf4, 0xea, 0x65, 0x7a, 0xae, 0x08,
    0xba, 0x78, 0x25, 0x2e, 0x1c, 0xa6, 0xb4, 0xc6, 0xe8, 0xdd, 0x74, 0x1f, 0x4b, 0xbd, 0x8b, 0x8a,
    0x70, 0x3e, 0xb5, 0x66, 0x48, 0x03, 0xf6, 0x0e, 0x61, 0x35, 0x57, 0xb9, 0x86, 0xc1, 0x1d, 0x9e,
    0xe1, 0xf8, 0x98, 0x11, 0x69, 0xd9, 0x8e, 0x94, 0x9b, 0x1e, 0x87, 0xe9, 0xce, 0x55, 0x28, 0xdf,
    0x8c, 0xa1, 0x89, 0x0d, 0xbf, 0xe6, 0x42, 0x68, 0x41, 0x99, 0x2d, 0x0f, 0xb0, 0x54, 0xbb, 0x16,
];

/// The round constants of the key schedule; entry 0 is unused.
pub const ROUND_CONSTANTS: [u8; 11] = [
    0x00, 0x01, 0x02, 0x04, 0x08, 0x10, 0x20, 0x40, 0x80, 0x1b, 0x36,
];

/// S-box substitution of one byte.
pub open spec fn sbox(b: u8) -> u8 {
    SBOX[b as int]
}

/// Multiplication by x in GF(2^8) modulo the AES polynomial.
pub open spec fn xtime(b: u8) -> u8 {
    ((b << 1) as u8) ^ (if b >= 0x80 { 0x1b } else { 0 })
}

/// One output byte of the MixColumns matrix: 2a + 3b + c + d over GF(2^8).
pub open spec fn mix_byte(a: u8, b: u8, c: u8, d: u8) -> u8 {
    xtime(a) ^ xtime(b) ^ b ^ c ^ d
}

/// S-box substitution of every byte of the state.
pub open spec fn sub_bytes_spec(s: Seq<u8>) -> Seq<u8> {
    Seq::new(s.len(), |i: int| sbox(s[i]))
}

/// Where the byte at position `i` of the state comes from under ShiftRows:
/// row `r` is rotated left by `r` columns.
pub open spec fn shift_rows_src(i: int) -> int {
    ((i / 4 + i % 4) % 4) * 4 + i % 4
}

/// ShiftRows of a 16-byte state.
pub open spec fn shift_rows_spec(s: Seq<u8>) -> Seq<u8>
    recommends
        s.len() == 16,
{
    Seq::new(16, |i: int| s[shift_rows_src(i)])
}

/// MixColumns of a 16-byte state: each column is multiplied by the fixed
/// circulant matrix over GF(2^8).
pub open spec fn mix_columns_spec(s: Seq<u8>) -> Seq<u8>
    recommends
        s.len() == 16,
{
    Seq::new(16, |i: int| {
        let base = 4 * (i / 4);
        let r = i % 4;
        mix_byte(s[base + r], s[base + (r + 1) % 4], s[base + (r + 2) % 4], s[base + (r + 3) % 4])
    })
}

/// MixColumns of a single 4-byte column.
pub open spec fn mix_column4(c: Seq<u8>) -> Seq<u8>
    recommends
        c.len() == 4,
{
    seq![
        mix_byte(c[0], c[1], c[2], c[3]),
        mix_byte(c[1], c[2], c[3], c[0]),
        mix_byte(c[2], c[3], c[0], c[1]),
        mix_byte(c[3], c[0], c[1], c[2]),
    ]
}

/// Bytewise XOR of two equally long byte sequences.
pub open spec fn xor_bytes(a: Seq<u8>, b: Seq<u8>) -> Seq<u8>
    recommends
        a.len() == b.len(),
{
    Seq::new(a.len(), |i: int| a[i] ^ b[i])
}

/// RotWord of the key schedule: rotate a 4-byte word left by one byte.
pub open spec fn rot_word(w: Seq<u8>) -> Seq<u8>
    recommends
        w.len() == 4,
{
    seq![w[1], w[2], w[3], w[0]]
}

/// SubWord of the key schedule: S-box substitution of each byte of a word.
pub open spec fn sub_word(w: Seq<u8>) -> Seq<u8> {
    Seq::new(w.len(), |i: int| sbox(w[i]))
}

/// The transformed last word that seeds round key `i`: RotWord, SubWord,
/// and the round constant XORed into the first byte.
pub open spec fn transformed_word(prev: Seq<u8>, i: int) -> Seq<u8>
    recommends
        prev.len() == 16,
        1 <= i < 11,
{
    let t = sub_word(rot_word(prev.subrange(12, 16)));
    seq![t[0] ^ ROUND_CONSTANTS[i], t[1], t[2], t[3]]
}

/// The word chain of the key schedule: each word of the new round key is
/// the previous round key's word XORed with the word just produced.
pub open spec fn chain_words(prev: Seq<u8>, temp: Seq<u8>) -> Seq<u8>
    recommends
        prev.len() == 16,
        temp.len() == 4,
{
    let w0 = xor_bytes(prev.subrange(0, 4), temp);
    let w1 = xor_bytes(prev.subrange(4, 8), w0);
    let w2 = xor_bytes(prev.subrange(8, 12), w1);
    let w3 = xor_bytes(prev.subrange(12, 16), w2);
    w0 + w1 + w2 + w3
}

/// Round key `i` derived from round key `i - 1`.
pub open spec fn next_round_key(prev: Seq<u8>, i: int) -> Seq<u8>
    recommends
        prev.len() == 16,
        1 <= i < 11,
{
    chain_words(prev, transformed_word(prev, i))
}

/// Round key `i` of the Rijndael key schedule for a 128-bit key.
pub open spec fn round_key_spec(key: Seq<u8>, i: int) -> Seq<u8>
    recommends
        key.len() == 16,
        0 <= i < 11,
    decreases i,
{
    if i <= 0 {
        key
    } else {
        next_round_key(round_key_spec(key, i - 1), i)
    }
}

/// The eleven round keys of the Rijndael key schedule.
pub open spec fn key_schedule_spec(key: Seq<u8>) -> Seq<Seq<u8>>
    recommends
        key.len() == 16,
{
    Seq::new(11, |i: int| round_key_spec(key, i))
}

/// One full AES round: SubBytes, ShiftRows, MixColumns, AddRoundKey.
pub open spec fn aes_round(s: Seq<u8>, rk: Seq<u8>) -> Seq<u8> {
    xor_bytes(mix_columns_spec(shift_rows_spec(sub_bytes_spec(s))), rk)
}

/// The final AES round: SubBytes, ShiftRows, AddRoundKey (no MixColumns).
pub open spec fn aes_final_round(s: Seq<u8>, rk: Seq<u8>) -> Seq<u8> {
    xor_bytes(shift_rows_spec(sub_bytes_spec(s)), rk)
}

/// The state after the initial key addition and `r` full rounds.
pub open spec fn aes_state_after(block: Seq<u8>, rks: Seq<Seq<u8>>, r: int) -> Seq<u8>
    recommends
        block.len() == 16,
        rks.len() == 11,
        0 <= r <= 9,
    decreases r,
{
    if r <= 0 {
        xor_bytes(block, rks[0])
    } else {
        aes_round(aes_state_after(block, rks, r - 1), rks[r])
    }
}

/// AES-128 encryption of one block under the given round keys.
pub open spec fn aes_rounds_spec(block: Seq<u8>, rks: Seq<Seq<u8>>) -> Seq<u8>
    recommends
        block.len() == 16,
        rks.len() == 11,
{
    aes_final_round(aes_state_after(block, rks, 9), rks[10])
}

/// AES-128 encryption of one block under a 16-byte key.
pub open spec fn aes128_spec(key: Seq<u8>, block: Seq<u8>) -> Seq<u8>
    recommends
        key.len() == 16,
        block.len() == 16,
{
    aes_rounds_spec(block, key_schedule_spec(key))
}

/// A big-endian counter incremented by one: trailing 0xff bytes wrap to
/// zero and the carry propagates into the next more significant byte.
pub open spec fn inc_counter(s: Seq<u8>) -> Seq<u8>
    decreases s.len(),
{
    if s.len() == 0 {
        s
    } else if s.last() == 0xff {
        inc_counter(s.drop_last()).push(0)
    } else {
        s.update(s.len() - 1, (s.last() + 1) as u8)
    }
}

/// A big-endian counter of u64 words holding byte values, incremented by
/// one in the same way.
pub open spec fn inc_counter_words(s: Seq<u64>) -> Seq<u64>
    decreases s.len(),
{
    if s.len() == 0 {
        s
    } else if s.last() == 0xff {
        inc_counter_words(s.drop_last()).push(0)
    } else {
        s.update(s.len() - 1, (s.last() + 1) as u64)
    }
}

/// Incrementing keeps the counter's length.
pub proof fn lemma_inc_counter_len(s: Seq<u8>)
    ensures
        inc_counter(s).len() == s.len(),
    decreases s.len(),
{
    if s.len() > 0 && s.last() == 0xff {
        lemma_inc_counter_len(s.drop_last());
    }
}

/// With only 0xff bytes from position `i` on, incrementing wraps them all
/// to zero and carries into the prefix.
pub proof fn lemma_inc_counter_trailing(s: Seq<u8>, i: int)
    requires
        0 <= i <= s.len(),
        forall|k: int| i <= k < s.len() ==> #[trigger] s[k] == 0xff,
    ensures
        inc_counter(s) =~= inc_counter(s.subrange(0, i)) + Seq::new(
            (s.len() - i) as nat,
            |k: int| 0u8,
        ),
    decreases s.len() - i,
{
    if i == s.len() {
        assert(s.subrange(0, i) =~= s);
    } else {
        lemma_inc_counter_trailing(s.drop_last(), i);
        assert(s.drop_last().subrange(0, i) =~= s.subrange(0, i));
        lemma_inc_counter_len(s.subrange(0, i));
        assert(inc_counter(s) =~= inc_counter(s.subrange(0, i)) + Seq::new(
            (s.len() - i) as nat,
            |k: int| 0u8,
        ));
    }
}

/// The same fact for a counter of u64 words.
pub proof fn lemma_inc_counter_words_trailing(s: Seq<u64>, i: int)
    requires
        0 <= i <= s.len(),
        forall|k: int| i <= k < s.len() ==> #[trigger] s[k] == 0xff,
    ensures
        inc_counter_words(s) =~= inc_counter_words(s.subrange(0, i)) + Seq::new(
            (s.len() - i) as nat,
            |k: int| 0u64,
        ),
    decreases s.len() - i,
{
    if i == s.len() {
        assert(s.subrange(0, i) =~= s);
    } else {
        lemma_inc_counter_words_trailing(s.drop_last(), i);
        assert(s.drop_last().subrange(0, i) =~= s.subrange(0, i));
        lemma_inc_counter_words_len(s.subrange(0, i));
        assert(inc_counter_words(s) =~= inc_counter_words(s.subrange(0, i)) + Seq::new(
            (s.len() - i) as nat,
            |k: int| 0u64,
        ));
    }
}

/// Incrementing keeps a word counter's length.
pub proof fn lemma_inc_counter_words_len(s: Seq<u64>)
    ensures
        inc_counter_words(s).len() == s.len(),
    decreases s.len(),
{
    if s.len() > 0 && s.last() == 0xff {
        lemma_inc_counter_words_len(s.drop_last());
    }
}

/// The counter after `i` increments.
pub open spec fn counter_at(iv: Seq<u8>, i: int) -> Seq<u8>
    decreases i,
{
    if i <= 0 {
        iv
    } else {
        inc_counter(counter_at(iv, i - 1))
    }
}

} // verus!

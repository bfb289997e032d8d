//! The homomorphic Rijndael key schedule for a 128-bit key.
//!
//! Round key 0 is the encrypted cipher key; each further round key is
//! derived from the previous one without decryption: the last 32-bit word
//! is rotated, pushed through the bootstrapped S-box, XORed with a public
//! round constant, and chained word by word into the previous round key.
//! The contracts relate every step to the byte-level key schedule of
//! `aes_spec`, so the eleven decrypted round keys are proved equal to the
//! standard schedule of the decrypted cipher key.

use vstd::prelude::*;

use crate::aes_spec::chain_words;
use crate::aes_spec::key_schedule_spec;
use crate::aes_spec::next_round_key;
use crate::aes_spec::rot_word;
use crate::aes_spec::round_key_spec;
use crate::aes_spec::sbox;
use crate::aes_spec::sub_word;
use crate::aes_spec::transformed_word;
use crate::aes_spec::xor_bytes;
use crate::aes_spec::ROUND_CONSTANTS;
use crate::backend::all_bits;
use crate::backend::all_nibbles;
use crate::backend::copy_cts;
use crate::backend::cts_vals;
use crate::backend::lemma_sum_values_push;
use crate::backend::Ciphertext;
use crate::backend::Encoding;
use crate::backend::ServerKey;
use crate::bits::bits_of_nibbles;
use crate::bits::bits_wf;
use crate::bits::bitv;
use crate::bits::byte_bits;
use crate::bits::bytes_of_bits;
use crate::bits::lemma_byte_bits_roundtrip;
use crate::bits::lemma_bytes_from_nibbles;
use crate::bits::lemma_bytes_of_bits_subrange;
use crate::bits::lemma_bytes_of_xor;
use crate::bits::lemma_nibbles_of_bits_of_nibbles;
use crate::bits::lemma_parity2;
use crate::bits::nibbles_of_bits;
use crate::bits::xor_bits;
use crate::clear::sbox_table;
use crate::encrypted_aes::round_keys_bytes;
use crate::encrypted_aes::wf_round_keys;
use crate::encrypted_aes::AESStateBoolean;
use crate::parallel::par_decompose;
use crate::parallel::par_recompose;
use crate::parallel::par_sub_bytes;

verus! {

/// RotWord on the bit level: rotate the 32 bits of a word left by eight
/// positions, i.e. rotate its four bytes left by one.
pub fn rot_words_key_expansion(bits: &mut Vec<Ciphertext>)
    requires
        old(bits)@.len() == 32,
    ensures
        final(bits)@.len() == 32,
        forall|i: int| 0 <= i < 32 ==> #[trigger] final(bits)@[i] == old(bits)@[(i + 8) % 32],
{
    let mut rotated: Vec<Ciphertext> = Vec::new();
    let mut i: usize = 0;
    while i < 32
        invariant
            0 <= i <= 32,
            old(bits)@.len() == 32,
            bits@ == old(bits)@,
            rotated@.len() == i,
            forall|k: int| 0 <= k < i ==> #[trigger] rotated@[k] == old(bits)@[(k + 8) % 32],
        decreases 32 - i,
    {
        rotated.push(bits[(i + 8) % 32]);
        i = i + 1;
    }
    *bits = rotated;
}

/// The bytes encoded by a rotated word are the rotated bytes of the word.
proof fn lemma_rot_word_bytes(a: Seq<u64>, b: Seq<u64>)
    requires
        a.len() == 32,
        b.len() == 32,
        bits_wf(a),
        forall|i: int| 0 <= i < 32 ==> #[trigger] b[i] == a[(i + 8) % 32],
    ensures
        bytes_of_bits(b) =~= rot_word(bytes_of_bits(a)),
{
    assert forall|j: int| 0 <= j < 4 implies #[trigger] bytes_of_bits(b)[j] == rot_word(
        bytes_of_bits(a),
    )[j] by {
        let src = if j < 3 {
            j + 1
        } else {
            0
        };
        assert(b.subrange(8 * j, 8 * j + 8) =~= a.subrange(8 * src, 8 * src + 8)) by {
            assert forall|k: int|
                0 <= k < 8 implies #[trigger] b.subrange(8 * j, 8 * j + 8)[k] == a.subrange(
                8 * src,
                8 * src + 8,
            )[k] by {
                assert(b[8 * j + k] == a[(8 * j + k + 8) % 32]);
                assert((8 * j + k + 8) % 32 == 8 * src + k);
            };
        };
    };
}

/// Recompose the 32 bits of a word into eight nibble ciphertexts, in
/// parallel per four-bit group.
pub fn send_bits_to_nibbles_key_expansion(bits: &Vec<Ciphertext>, server_key: &ServerKey) -> (r:
    Vec<Ciphertext>)
    requires
        bits@.len() == 32,
        all_bits(bits@),
    ensures
        r@.len() == 8,
        all_nibbles(r@),
        cts_vals(r@) == nibbles_of_bits(cts_vals(bits@)),
{
    let encoding_arithmetic = Encoding::new_canonical(16, 17);
    par_recompose(bits, &encoding_arithmetic, server_key)
}

/// SubWord: the S-box applied to each of the four bytes of a word held as
/// eight nibble ciphertexts, one bootstrapped lookup per byte.
pub fn sub_words_key_expansion(nibbles: Vec<Ciphertext>, server_key: &ServerKey) -> (r: Vec<
    Ciphertext>)
    requires
        nibbles@.len() == 8,
        all_nibbles(nibbles@),
    ensures
        r@.len() == 8,
        all_nibbles(r@),
        forall|j: int|
            0 <= j < 4 ==> (#[trigger] r@[2 * j])@ == sbox(
                (16 * nibbles@[2 * j]@ + nibbles@[2 * j + 1]@) as u8,
            ) as u64 / 16,
        forall|j: int|
            0 <= j < 4 ==> (#[trigger] r@[2 * j + 1])@ == sbox(
                (16 * nibbles@[2 * j]@ + nibbles@[2 * j + 1]@) as u8,
            ) as u64 % 16,
{
    let table = sbox_table();
    par_sub_bytes(&nibbles, &table, server_key)
}

/// Decompose eight nibble ciphertexts back into the 32 bits of a word, in
/// parallel per nibble.
pub fn send_nibbles_to_bits_key_expansion(nibbles: &Vec<Ciphertext>, server_key: &ServerKey) -> (r:
    Vec<Ciphertext>)
    requires
        nibbles@.len() == 8,
        all_nibbles(nibbles@),
    ensures
        r@.len() == 32,
        all_bits(r@),
        cts_vals(r@) == bits_of_nibbles(cts_vals(nibbles@)),
{
    let parity = Encoding::parity_encoding();
    par_decompose(nibbles, &parity, server_key)
}

/// AddRoundConstant: XOR the public round constant into the first byte of
/// the word, one plaintext-ciphertext sum per set bit of the constant.
pub fn add_round_constant_key_expansion(
    bits: &mut Vec<Ciphertext>,
    rcon_int: u8,
    server_key: &ServerKey,
)
    requires
        old(bits)@.len() == 32,
        all_bits(old(bits)@),
    ensures
        final(bits)@.len() == 32,
        all_bits(final(bits)@),
        bytes_of_bits(cts_vals(final(bits)@)) == bytes_of_bits(cts_vals(old(bits)@)).update(
            0,
            bytes_of_bits(cts_vals(old(bits)@))[0] ^ rcon_int,
        ),
{
    let mut j: usize = 0;
    while j < 8
        invariant
            0 <= j <= 8,
            bits@.len() == 32,
            all_bits(bits@),
            all_bits(old(bits)@),
            forall|k: int|
                0 <= k < j ==> (#[trigger] bits@[k])@ == (old(bits)@[k]@ ^ bitv(rcon_int, k)),
            forall|k: int| j <= k < 32 ==> #[trigger] bits@[k] == old(bits)@[k],
        decreases 8 - j,
    {
        let rcon_bit: u8 = (rcon_int >> (7 - j) as u8) & 1;
        proof {
            crate::bits::lemma_bitv_bound(rcon_int, j as int);
            assert(rcon_bit as u64 == bitv(rcon_int, j as int));
            lemma_parity2(bits@[j as int]@, bitv(rcon_int, j as int));
        }
        if rcon_bit == 1 {
            let c = server_key.simple_plaintext_sum(&bits[j], 1, 2);
            bits.set(j, c);
        } else {
            let c = bits[j];
            bits.set(j, c);
        }
        j = j + 1;
    }
    proof {
        let before = cts_vals(old(bits)@);
        let after = cts_vals(bits@);
        let rb = byte_bits(rcon_int);
        assert(after.subrange(0, 8) =~= xor_bits(before.subrange(0, 8), rb)) by {
            assert forall|k: int|
                0 <= k < 8 implies #[trigger] after.subrange(0, 8)[k] == xor_bits(
                before.subrange(0, 8),
                rb,
            )[k] by {
                assert(after[k] == (before[k] ^ bitv(rcon_int, k)));
            };
        };
        crate::bits::lemma_byte_bits_wf(rcon_int);
        lemma_bytes_of_xor(before.subrange(0, 8), rb);
        lemma_bytes_of_bits_subrange(before, 0, 8);
        lemma_bytes_of_bits_subrange(after, 0, 8);
        lemma_byte_bits_roundtrip(rcon_int);
        assert(rb.subrange(0, 8) =~= rb);
        assert(bytes_of_bits(rb) =~= seq![rcon_int]);
        assert(bytes_of_bits(after.subrange(0, 8)) =~= xor_bytes(
            bytes_of_bits(before.subrange(0, 8)),
            bytes_of_bits(rb),
        ));
        assert(bytes_of_bits(after.subrange(0, 8))[0] == bytes_of_bits(after)[0]);
        assert(bytes_of_bits(before.subrange(0, 8))[0] == bytes_of_bits(before)[0]);
        assert(bytes_of_bits(after)[0] == (bytes_of_bits(before)[0] ^ rcon_int));
        assert forall|m: int| 1 <= m < 4 implies #[trigger] bytes_of_bits(after)[m]
            == bytes_of_bits(before)[m] by {
            assert(after.subrange(8 * m, 8 * m + 8) =~= before.subrange(8 * m, 8 * m + 8));
        };
        assert(bytes_of_bits(after) =~= bytes_of_bits(before).update(
            0,
            bytes_of_bits(before)[0] ^ rcon_int,
        ));
    }
}

/// The bit-level word chain: word `w` of the new round key, as bits.
spec fn chain_bits(prev: Seq<u64>, temp: Seq<u64>, w: int) -> Seq<u64>
    recommends
        prev.len() == 128,
        temp.len() == 32,
        0 <= w < 4,
    decreases w,
{
    if w <= 0 {
        xor_bits(prev.subrange(0, 32), temp)
    } else {
        xor_bits(prev.subrange(32 * w, 32 * w + 32), chain_bits(prev, temp, w - 1))
    }
}

impl AESStateBoolean {
    /// The last 32-bit word (bits 96..128) of the state.
    pub fn extract_last_row(&self) -> (r: Vec<Ciphertext>)
        requires
            self.bits@.len() == 128,
        ensures
            r@ == self.bits@.subrange(96, 128),
    {
        let mut r: Vec<Ciphertext> = Vec::new();
        let mut i: usize = 0;
        while i < 32
            invariant
                0 <= i <= 32,
                self.bits@.len() == 128,
                r@.len() == i,
                forall|k: int| 0 <= k < i ==> #[trigger] r@[k] == self.bits@[96 + k],
            decreases 32 - i,
        {
            r.push(self.bits[96 + i]);
            i = i + 1;
        }
        proof {
            assert(r@ =~= self.bits@.subrange(96, 128));
        }
        r
    }

    /// The word chain of the key schedule: in place, word `i` of the state
    /// becomes its XOR with the previously produced word, starting from
    /// the transformed last word of the previous round key.
    pub fn next_round_keys(&mut self, twisted_row: Vec<Ciphertext>, server_key: &ServerKey)
        requires
            old(self).wf(),
            twisted_row@.len() == 32,
            all_bits(twisted_row@),
        ensures
            final(self).wf(),
            final(self).byte_values() == chain_words(
                old(self).byte_values(),
                bytes_of_bits(cts_vals(twisted_row@)),
            ),
    {
        let ghost prev = cts_vals(old(self).bits@);
        let ghost temp = cts_vals(twisted_row@);
        let mut buffer = twisted_row;
        let mut i: usize = 0;
        while i < 4
            invariant
                0 <= i <= 4,
                self.bits@.len() == 128,
                all_bits(self.bits@),
                buffer@.len() == 32,
                all_bits(buffer@),
                prev == cts_vals(old(self).bits@),
                temp == cts_vals(twisted_row@),
                old(self).wf(),
                cts_vals(buffer@) =~= (if i == 0 {
                    temp
                } else {
                    chain_bits(prev, temp, i as int - 1)
                }),
                forall|k: int| 32 * i <= k < 128 ==> #[trigger] self.bits@[k] == old(self).bits@[k],
                forall|w: int|
                    0 <= w < i ==> #[trigger] cts_vals(self.bits@).subrange(32 * w, 32 * w + 32)
                        =~= chain_bits(prev, temp, w),
            decreases 4 - i,
        {
            let mut new_row: Vec<Ciphertext> = Vec::new();
            let mut j: usize = 0;
            while j < 32
                invariant
                    0 <= j <= 32,
                    0 <= i < 4,
                    new_row@.len() == j,
                    all_bits(new_row@),
                    self.bits@.len() == 128,
                    all_bits(self.bits@),
                    buffer@.len() == 32,
                    all_bits(buffer@),
                    forall|k: int|
                        0 <= k < j ==> (#[trigger] new_row@[k])@ == (self.bits@[32 * (i as int)
                            + k]@ ^ buffer@[k]@),
                decreases 32 - j,
            {
                let mut ops: Vec<Ciphertext> = Vec::new();
                proof {
                    lemma_sum_values_push(ops@, self.bits@[32 * (i as int) + j]);
                }
                ops.push(self.bits[32 * i + j]);
                proof {
                    lemma_sum_values_push(ops@, buffer@[j as int]);
                }
                ops.push(buffer[j]);
                let c = server_key.simple_sum(&ops);
                proof {
                    lemma_parity2(self.bits@[32 * (i as int) + j]@, buffer@[j as int]@);
                }
                new_row.push(c);
                j = j + 1;
            }
            let ghost bits_before = self.bits@;
            let mut j: usize = 0;
            while j < 32
                invariant
                    0 <= j <= 32,
                    0 <= i < 4,
                    self.bits@.len() == 128,
                    new_row@.len() == 32,
                    all_bits(new_row@),
                    bits_before.len() == 128,
                    forall|k: int|
                        0 <= k < 128 && !(32 * i <= k < 32 * i + j) ==> #[trigger] self.bits@[k]
                            == bits_before[k],
                    forall|k: int|
                        32 * i <= k < 32 * i + j ==> #[trigger] self.bits@[k] == new_row@[k - 32
                            * i],
                decreases 32 - j,
            {
                self.bits.set(32 * i + j, new_row[j]);
                j = j + 1;
            }
            proof {
                assert(all_bits(self.bits@));
                // the freshly written word is the XOR of the untouched previous
                // word with the buffer, i.e. the next chain level
                assert(cts_vals(self.bits@).subrange(32 * (i as int), 32 * (i as int) + 32)
                    =~= chain_bits(prev, temp, i as int)) by {
                    assert forall|k: int|
                        0 <= k < 32 implies #[trigger] cts_vals(self.bits@).subrange(
                        32 * (i as int),
                        32 * (i as int) + 32,
                    )[k] == chain_bits(prev, temp, i as int)[k] by {
                        assert(self.bits@[32 * (i as int) + k] == new_row@[k]);
                        assert(bits_before[32 * (i as int) + k] == old(self).bits@[32 * (i as int)
                            + k]);
                        assert(new_row@[k]@ == (prev[32 * (i as int) + k] ^ cts_vals(buffer@)[k]));
                        assert(chain_bits(prev, temp, i as int)[k] == (prev.subrange(
                            32 * (i as int),
                            32 * (i as int) + 32,
                        )[k] ^ (if i == 0 {
                            temp
                        } else {
                            chain_bits(prev, temp, i as int - 1)
                        })[k]));
                    };
                };
                // words before i are untouched by the write loop
                assert(forall|w: int|
                    0 <= w < i ==> #[trigger] cts_vals(self.bits@).subrange(32 * w, 32 * w + 32)
                        =~= cts_vals(bits_before).subrange(32 * w, 32 * w + 32));
                assert(cts_vals(new_row@) =~= chain_bits(prev, temp, i as int));
            }
            buffer = new_row;
            i = i + 1;
        }
        proof {
            let p = old(self).byte_values();
            let tb = bytes_of_bits(temp);
            assert(bits_wf(prev) && bits_wf(temp));
            let c0 = chain_bits(prev, temp, 0);
            let c1 = chain_bits(prev, temp, 1);
            let c2 = chain_bits(prev, temp, 2);
            let c3 = chain_bits(prev, temp, 3);
            lemma_bytes_of_bits_subrange(prev, 0, 32);
            lemma_bytes_of_bits_subrange(prev, 32, 64);
            lemma_bytes_of_bits_subrange(prev, 64, 96);
            lemma_bytes_of_bits_subrange(prev, 96, 128);
            lemma_bytes_of_xor(prev.subrange(0, 32), temp);
            lemma_bytes_of_xor(prev.subrange(32, 64), c0);
            lemma_bytes_of_xor(prev.subrange(64, 96), c1);
            lemma_bytes_of_xor(prev.subrange(96, 128), c2);
            let w0 = xor_bytes(p.subrange(0, 4), tb);
            let w1 = xor_bytes(p.subrange(4, 8), w0);
            let w2 = xor_bytes(p.subrange(8, 12), w1);
            let w3 = xor_bytes(p.subrange(12, 16), w2);
            assert(bytes_of_bits(c0) =~= w0);
            assert(bytes_of_bits(c1) =~= w1);
            assert(bytes_of_bits(c2) =~= w2);
            assert(bytes_of_bits(c3) =~= w3);
            let cur = cts_vals(self.bits@);
            lemma_bytes_of_bits_subrange(cur, 0, 32);
            lemma_bytes_of_bits_subrange(cur, 32, 64);
            lemma_bytes_of_bits_subrange(cur, 64, 96);
            lemma_bytes_of_bits_subrange(cur, 96, 128);
            assert(cts_vals(self.bits@).subrange(32 * 0int, 32 * 0int + 32) =~= chain_bits(
                prev,
                temp,
                0,
            ));
            assert(cts_vals(self.bits@).subrange(32 * 1int, 32 * 1int + 32) =~= chain_bits(
                prev,
                temp,
                1,
            ));
            assert(cts_vals(self.bits@).subrange(32 * 2int, 32 * 2int + 32) =~= chain_bits(
                prev,
                temp,
                2,
            ));
            assert(cts_vals(self.bits@).subrange(32 * 3int, 32 * 3int + 32) =~= chain_bits(
                prev,
                temp,
                3,
            ));
            assert(cur.subrange(0, 32) == c0 && cur.subrange(32, 64) == c1 && cur.subrange(64, 96)
                == c2 && cur.subrange(96, 128) == c3);
            assert(self.byte_values().subrange(0, 4) =~= w0);
            assert(self.byte_values().subrange(4, 8) =~= w1);
            assert(self.byte_values().subrange(8, 12) =~= w2);
            assert(self.byte_values().subrange(12, 16) =~= w3);
            assert(self.byte_values() =~= chain_words(p, tb));
        }
    }
}

/// Recomposing a word into nibbles, substituting each byte through the
/// S-box and decomposing back substitutes each byte of the word.
proof fn lemma_word_subbytes(before: Seq<u64>, subbed: Seq<u64>, after: Seq<u64>)
    requires
        before.len() == 32,
        bits_wf(before),
        subbed.len() == 8,
        forall|i: int| 0 <= i < 8 ==> #[trigger] subbed[i] < 16,
        forall|j: int|
            0 <= j < 4 ==> #[trigger] subbed[2 * j] == sbox(
                (16 * nibbles_of_bits(before)[2 * j] + nibbles_of_bits(before)[2 * j + 1]) as u8,
            ) as u64 / 16,
        forall|j: int|
            0 <= j < 4 ==> #[trigger] subbed[2 * j + 1] == sbox(
                (16 * nibbles_of_bits(before)[2 * j] + nibbles_of_bits(before)[2 * j + 1]) as u8,
            ) as u64 % 16,
        after == bits_of_nibbles(subbed),
    ensures
        bytes_of_bits(after) =~= sub_word(bytes_of_bits(before)),
{
    lemma_bytes_from_nibbles(before);
    assert forall|i: int| 0 <= i < 32 implies #[trigger] after[i] < 2 by {
        crate::bits::lemma_nibble_bits_wf(subbed[i / 4]);
    };
    lemma_bytes_from_nibbles(after);
    lemma_nibbles_of_bits_of_nibbles(subbed);
    assert forall|j: int| 0 <= j < 4 implies #[trigger] bytes_of_bits(after)[j] == sbox(
        bytes_of_bits(before)[j],
    ) by {
        let hi = nibbles_of_bits(before)[2 * j];
        let lo = nibbles_of_bits(before)[2 * j + 1];
        let b = (16 * hi + lo) as u8;
        let t = sbox(b) as u64;
        vstd::arithmetic::div_mod::lemma_fundamental_div_mod(t as int, 16);
        assert(nibbles_of_bits(after) =~= subbed);
        assert(subbed[2 * j] == t / 16);
        assert(subbed[2 * j + 1] == t % 16);
    };
}

/// One derivation step of the schedule: round key `i` from round key
/// `i - 1`, by RotWord, SubWord, AddRoundConstant and the word chain.
#[verifier::rlimit(100)]
fn expansion_round(prev: &AESStateBoolean, i: usize, server_key: &ServerKey) -> (r:
    AESStateBoolean)
    requires
        prev.wf(),
        1 <= i < 11,
    ensures
        r.wf(),
        r.byte_values() == next_round_key(prev.byte_values(), i as int),
{
    let ghost prev_bytes = prev.byte_values();
    // Extract and clone the last row
    let mut bits_last_row = prev.extract_last_row();
    let ghost last_row0 = cts_vals(bits_last_row@);
    // apply the rotation
    rot_words_key_expansion(&mut bits_last_row);
    let ghost last_row1 = cts_vals(bits_last_row@);
    proof {
        assert(all_bits(bits_last_row@));
        lemma_bytes_of_bits_subrange(cts_vals(prev.bits@), 96, 128);
        assert(last_row0 =~= cts_vals(prev.bits@).subrange(96, 128));
        assert(bytes_of_bits(last_row0) =~= prev_bytes.subrange(12, 16));
        lemma_rot_word_bytes(last_row0, last_row1);
    }
    // send the bits to nibbles
    let mut nibbles_last_row = send_bits_to_nibbles_key_expansion(&bits_last_row, server_key);
    // apply the subword to every word, but first we need to recompose them in nibbles
    nibbles_last_row = sub_words_key_expansion(nibbles_last_row, server_key);
    // resend everyone into the boolean world
    bits_last_row = send_nibbles_to_bits_key_expansion(&nibbles_last_row, server_key);
    let ghost last_row2 = cts_vals(bits_last_row@);
    proof {
        // the three conversions substitute each byte of the rotated word
        lemma_word_subbytes(last_row1, cts_vals(nibbles_last_row@), last_row2);
        assert(bytes_of_bits(last_row2) =~= sub_word(rot_word(prev_bytes.subrange(12, 16))));
    }
    // add the round constant
    add_round_constant_key_expansion(&mut bits_last_row, ROUND_CONSTANTS[i], server_key);
    proof {
        let tw = transformed_word(prev_bytes, i as int);
        assert(bytes_of_bits(cts_vals(bits_last_row@)) =~= tw);
    }
    // compute the union of both state
    let mut current_round_key = AESStateBoolean { bits: copy_cts(&prev.bits) };
    current_round_key.next_round_keys(bits_last_row, server_key);
    proof {
        assert(current_round_key.byte_values() =~= next_round_key(prev_bytes, i as int));
    }
    current_round_key
}

/// Derive the eleven round keys from the encrypted cipher key: the
/// homomorphic Rijndael key schedule.  The decrypted round keys equal the
/// standard schedule of the decrypted key.
pub fn encrypted_key_expansion(encrypted_key: Vec<Ciphertext>, server_key: &ServerKey) -> (r: Vec<
    Vec<Ciphertext>>)
    requires
        encrypted_key@.len() == 128,
        all_bits(encrypted_key@),
    ensures
        wf_round_keys(r@),
        round_keys_bytes(r@) == key_schedule_spec(bytes_of_bits(cts_vals(encrypted_key@))),
{
    let ghost key_bytes = bytes_of_bits(cts_vals(encrypted_key@));
    let state_boolean = AESStateBoolean { bits: encrypted_key };
    let mut state_round_keys: Vec<AESStateBoolean> = Vec::new();
    // The key of the first round remains unchanged
    state_round_keys.push(state_boolean);
    let mut i: usize = 1;
    while i < 11
        invariant
            1 <= i <= 11,
            state_round_keys@.len() == i,
            key_bytes.len() == 16,
            forall|r: int| 0 <= r < i ==> (#[trigger] state_round_keys@[r]).wf(),
            forall|r: int|
                0 <= r < i ==> (#[trigger] state_round_keys@[r]).byte_values() =~= round_key_spec(
                    key_bytes,
                    r,
                ),
        decreases 11 - i,
    {
        let next = expansion_round(&state_round_keys[i - 1], i, server_key);
        state_round_keys.push(next);
        i = i + 1;
    }
    let mut out: Vec<Vec<Ciphertext>> = Vec::new();
    let mut i: usize = 0;
    while i < 11
        invariant
            0 <= i <= 11,
            out@.len() == i,
            state_round_keys@.len() == 11,
            key_bytes.len() == 16,
            forall|r: int| 0 <= r < 11 ==> (#[trigger] state_round_keys@[r]).wf(),
            forall|r: int|
                0 <= r < 11 ==> (#[trigger] state_round_keys@[r]).byte_values() =~= round_key_spec(
                    key_bytes,
                    r,
                ),
            forall|r: int| 0 <= r < i ==> (#[trigger] out@[r])@ == state_round_keys@[r].bits@,
        decreases 11 - i,
    {
        out.push(copy_cts(&state_round_keys[i].bits));
        i = i + 1;
    }
    proof {
        assert(round_keys_bytes(out@) =~= key_schedule_spec(key_bytes));
    }
    out
}

} // verus!

//! The homomorphic AES round pipeline.
//!
//! The cipher state lives under two encodings: a boolean state of 128 bit
//! ciphertexts for the bit-linear steps (ShiftRows, MixColumns,
//! AddRoundKey) and an arithmetic state of 32 nibble ciphertexts for the
//! bootstrapped SubBytes lookup.  Every transformation returns a fresh
//! state whose contract relates its decrypted bytes to the byte-level AES
//! specification, and `encrypted_aes` chains them through the ten rounds.

use vstd::prelude::*;

use crate::aes_spec::aes128_spec;
use crate::aes_spec::aes_final_round;
use crate::aes_spec::aes_round;
use crate::aes_spec::counter_at;
use crate::aes_spec::key_schedule_spec;
use crate::aes_spec::lemma_inc_counter_len;
use crate::aes_spec::aes_rounds_spec;
use crate::aes_spec::aes_state_after;
use crate::aes_spec::mix_column4;
use crate::aes_spec::mix_columns_spec;
use crate::aes_spec::sbox;
use crate::aes_spec::shift_rows_spec;
use crate::aes_spec::shift_rows_src;
use crate::aes_spec::sub_bytes_spec;
use crate::aes_spec::xor_bytes;
use crate::backend::all_bits;
use crate::backend::all_nibbles;
use crate::backend::gen_keys;
use crate::backend::cts_vals;
use crate::backend::lemma_sum_values_push;
use crate::backend::spec_nibble_encoding;
use crate::backend::Ciphertext;
use crate::backend::ClientKey;
use crate::backend::Encoding;
use crate::backend::ServerKey;
use crate::bits::bits_of_bytes;
use crate::bits::bits_of_nibbles;
use crate::bits::bits_to_byte;
use crate::bits::bits_wf;
use crate::bits::bitv;
use crate::bits::bytes_of_bits;
use crate::bits::lemma_bits_of_bytes_wf;
use crate::bits::lemma_bytes_bits_roundtrip;
use crate::bits::lemma_bits_xor;
use crate::bits::lemma_bytes_from_nibbles;
use crate::bits::lemma_bytes_of_bits_subrange;
use crate::bits::lemma_nibbles_of_bits_of_nibbles;
use crate::bits::lemma_parity2;
use crate::bits::nibbles_of_bits;
use crate::clear::sbox_table;
use crate::clear_aes::hex_bytes;
use crate::clear_aes::hex_decode;
use crate::clear_aes::increment_iv_u8;
use crate::clear_aes::valid_hex;
use crate::key_expansion::encrypted_key_expansion;
use crate::linear_circuit::LinearCircuit;
use crate::parallel::par_decompose;
use crate::parallel::par_recompose;
use crate::parallel::par_sub_bytes;

verus! {

/// The boolean state: 128 bit ciphertexts, column-major, eight bits per
/// byte, most significant bit first.  Index `col * 32 + row * 8 + bit`
/// addresses bit `bit` of the byte at (row, col).
pub struct AESStateBoolean {
    pub bits: Vec<Ciphertext>,
}

impl AESStateBoolean {
    /// All 128 positions hold single-bit ciphertexts.
    pub open spec fn wf(&self) -> bool {
        self.bits@.len() == 128 && all_bits(self.bits@)
    }

    /// The decrypted bits of the state.
    pub open spec fn bit_values(&self) -> Seq<u64> {
        cts_vals(self.bits@)
    }

    /// The sixteen decrypted bytes of the state.
    pub open spec fn byte_values(&self) -> Seq<u8> {
        bytes_of_bits(self.bit_values())
    }

    /// Encrypt 128 plaintext bits into a boolean state.
    pub fn tfhe_encryption_bits(m: &Vec<u64>, client_key: &ClientKey) -> (s: Self)
        requires
            m@.len() == 128,
            forall|i: int| 0 <= i < 128 ==> #[trigger] m@[i] < 2,
        ensures
            s.wf(),
            s.bit_values() == m@,
    {
        let parity_encoding = Encoding::parity_encoding();
        let mut bits: Vec<Ciphertext> = Vec::new();
        let mut i: usize = 0;
        while i < 128
            invariant
                0 <= i <= 128,
                bits@.len() == i,
                all_bits(bits@),
                m@.len() == 128,
                forall|k: int| 0 <= k < 128 ==> #[trigger] m@[k] < 2,
                parity_encoding == crate::backend::spec_parity_encoding(),
                forall|k: int| 0 <= k < i ==> (#[trigger] bits@[k])@ == m@[k],
            decreases 128 - i,
        {
            bits.push(client_key.encrypt_arithmetic(m[i], &parity_encoding));
            i = i + 1;
        }
        let s = AESStateBoolean { bits };
        proof {
            assert(s.bit_values() =~= m@);
        }
        s
    }

    /// Decrypt the 128 bits of the state.
    pub fn tfhe_decryption_bits(&self, client_key: &ClientKey) -> (r: Vec<u64>)
        ensures
            r@ == self.bit_values(),
    {
        let mut r: Vec<u64> = Vec::new();
        let mut i: usize = 0;
        while i < self.bits.len()
            invariant
                0 <= i <= self.bits@.len(),
                r@.len() == i,
                forall|k: int| 0 <= k < i ==> #[trigger] r@[k] == self.bits@[k]@,
            decreases self.bits@.len() - i,
        {
            r.push(client_key.decrypt(&self.bits[i]));
            i = i + 1;
        }
        proof {
            assert(r@ =~= self.bit_values());
        }
        r
    }

    /// The ciphertext of bit `bit` of the byte at (row, col).
    pub fn square_getter(&self, row: usize, col: usize, bit: usize) -> (c: &Ciphertext)
        requires
            row < 4,
            col < 4,
            bit < 8,
            self.bits@.len() == 128,
        ensures
            *c == self.bits@[col * 32 + row * 8 + bit],
    {
        &self.bits[col * 8 * 4 + row * 8 + bit]
    }

    /// Convert to the arithmetic state: each group of four bits is
    /// recomposed into one nibble ciphertext, independently and in
    /// parallel.  The decrypted bytes are unchanged.
    pub fn aes_recomposer(&self, server_key: &ServerKey) -> (r: AESStateArithmetic)
        requires
            self.wf(),
        ensures
            r.wf(),
            r.nibble_values() == nibbles_of_bits(self.bit_values()),
            r.byte_values() == self.byte_values(),
    {
        let encoding_arithmetic = Encoding::new_canonical(16, 17);
        let nibbles = par_recompose(&self.bits, &encoding_arithmetic, server_key);
        let r = AESStateArithmetic { nibbles, encoding: encoding_arithmetic };
        proof {
            assert(bits_wf(self.bit_values()));
            lemma_bytes_from_nibbles(self.bit_values());
            assert(r.byte_values() =~= self.byte_values());
        }
        r
    }
}

/// The arithmetic state: 32 nibble ciphertexts, two per byte, high nibble
/// first, all under one arithmetic encoding.
pub struct AESStateArithmetic {
    pub nibbles: Vec<Ciphertext>,
    pub encoding: Encoding,
}

impl AESStateArithmetic {
    /// All 32 positions hold nibble ciphertexts under the canonical
    /// arithmetic encoding.
    pub open spec fn wf(&self) -> bool {
        self.nibbles@.len() == 32 && all_nibbles(self.nibbles@) && self.encoding
            == spec_nibble_encoding()
    }

    /// The decrypted nibbles of the state.
    pub open spec fn nibble_values(&self) -> Seq<u64> {
        cts_vals(self.nibbles@)
    }

    /// The sixteen decrypted bytes of the state.
    pub open spec fn byte_values(&self) -> Seq<u8> {
        Seq::new(
            self.nibbles@.len() / 2,
            |j: int| (16 * self.nibble_values()[2 * j] + self.nibble_values()[2 * j + 1]) as u8,
        )
    }

    /// Convert back to the boolean state: each nibble is decomposed into
    /// its four bits, independently and in parallel.  The decrypted bytes
    /// are unchanged.
    pub fn aes_decomposer(&self, server_key: &ServerKey) -> (r: AESStateBoolean)
        requires
            self.wf(),
        ensures
            r.wf(),
            r.bit_values() == bits_of_nibbles(self.nibble_values()),
            r.byte_values() == self.byte_values(),
    {
        let parity = Encoding::parity_encoding();
        let bits = par_decompose(&self.nibbles, &parity, server_key);
        let r = AESStateBoolean { bits };
        proof {
            let ns = self.nibble_values();
            assert(forall|i: int| 0 <= i < 32 ==> #[trigger] ns[i] < 16);
            lemma_nibbles_of_bits_of_nibbles(ns);
            assert(bits_wf(r.bit_values()));
            lemma_bytes_from_nibbles(r.bit_values());
            assert(r.byte_values() =~= self.byte_values());
        }
        r
    }
}

/// SubBytes: the AES S-box applied to every byte of the state, one
/// bootstrapped table lookup per byte, independently and in parallel.
pub fn sub_bytes(state: &AESStateArithmetic, server_key: &ServerKey) -> (r: AESStateArithmetic)
    requires
        state.wf(),
    ensures
        r.wf(),
        r.byte_values() == sub_bytes_spec(state.byte_values()),
{
    let table = sbox_table();
    let nibbles = par_sub_bytes(&state.nibbles, &table, server_key);
    let r = AESStateArithmetic { nibbles, encoding: Encoding::new_canonical(16, 17) };
    proof {
        assert forall|j: int| 0 <= j < 16 implies r.byte_values()[j] == sbox(
            state.byte_values()[j],
        ) by {
            let hi = state.nibble_values()[2 * j];
            let lo = state.nibble_values()[2 * j + 1];
            let b = (16 * hi + lo) as u8;
            let t = sbox(b) as u64;
            vstd::arithmetic::div_mod::lemma_fundamental_div_mod(t as int, 16);
            assert(r.nibble_values()[2 * j] == t / 16);
            assert(r.nibble_values()[2 * j + 1] == t % 16);
        };
        assert(r.byte_values() =~= sub_bytes_spec(state.byte_values()));
    }
    r
}

/// AddRoundKey: homomorphic bitwise XOR of the state with a 128-bit round
/// key, one sum modulo 2 per bit position.
pub fn add_round_key(
    state: &AESStateBoolean,
    round_key: &Vec<Ciphertext>,
    server_key: &ServerKey,
) -> (r: AESStateBoolean)
    requires
        state.wf(),
        round_key@.len() == 128,
        all_bits(round_key@),
    ensures
        r.wf(),
        forall|i: int|
            0 <= i < 128 ==> #[trigger] r.bit_values()[i] == (state.bit_values()[i]
                ^ cts_vals(round_key@)[i]),
        r.byte_values() == xor_bytes(state.byte_values(), bytes_of_bits(cts_vals(round_key@))),
{
    let mut out: Vec<Ciphertext> = Vec::new();
    let mut i: usize = 0;
    while i < 128
        invariant
            0 <= i <= 128,
            out@.len() == i,
            all_bits(out@),
            state.wf(),
            round_key@.len() == 128,
            all_bits(round_key@),
            forall|k: int|
                0 <= k < i ==> (#[trigger] out@[k])@ == (state.bits@[k]@ ^ round_key@[k]@),
        decreases 128 - i,
    {
        let mut ops: Vec<Ciphertext> = Vec::new();
        proof {
            lemma_sum_values_push(ops@, state.bits@[i as int]);
        }
        ops.push(state.bits[i]);
        proof {
            lemma_sum_values_push(ops@, round_key@[i as int]);
        }
        ops.push(round_key[i]);
        let c = server_key.simple_sum(&ops);
        proof {
            lemma_parity2(state.bits@[i as int]@, round_key@[i as int]@);
        }
        out.push(c);
        i = i + 1;
    }
    let r = AESStateBoolean { bits: out };
    proof {
        assert forall|j: int| 0 <= j < 16 implies r.byte_values()[j] == (state.byte_values()[j]
            ^ bytes_of_bits(cts_vals(round_key@))[j]) by {
            let bs1 = cts_vals(state.bits@).subrange(8 * j, 8 * j + 8);
            let bs2 = cts_vals(round_key@).subrange(8 * j, 8 * j + 8);
            lemma_bits_xor(bs1, bs2);
            assert(cts_vals(r.bits@).subrange(8 * j, 8 * j + 8) =~= Seq::new(
                8,
                |k: int| bs1[k] ^ bs2[k],
            ));
        };
        assert(r.byte_values() =~= xor_bytes(
            state.byte_values(),
            bytes_of_bits(cts_vals(round_key@)),
        ));
    }
    r
}

/// Where the bit at position `i` of the state comes from under ShiftRows.
pub open spec fn shift_bit_src(i: int) -> int {
    ((i / 32 + (i % 32) / 8) % 4) * 32 + ((i % 32) / 8) * 8 + i % 8
}

/// ShiftRows: pure re-indexing of the boolean state; the byte at
/// (row, col) moves to (row, col - row mod 4).  No homomorphic work.
pub fn shift_rows(state: &AESStateBoolean) -> (r: AESStateBoolean)
    requires
        state.wf(),
    ensures
        r.wf(),
        forall|i: int|
            0 <= i < 128 ==> #[trigger] r.bit_values()[i] == state.bit_values()[shift_bit_src(i)],
        r.byte_values() == shift_rows_spec(state.byte_values()),
{
    let mut out: Vec<Ciphertext> = Vec::new();
    let mut col: usize = 0;
    while col < 4
        invariant
            0 <= col <= 4,
            out@.len() == 32 * col,
            state.wf(),
            all_bits(out@),
            forall|k: int|
                0 <= k < 32 * col ==> #[trigger] out@[k] == state.bits@[shift_bit_src(k)],
        decreases 4 - col,
    {
        let mut row: usize = 0;
        while row < 4
            invariant
                0 <= row <= 4,
                0 <= col < 4,
                out@.len() == 32 * col + 8 * row,
                state.wf(),
                all_bits(out@),
                forall|k: int|
                    0 <= k < 32 * col + 8 * row ==> #[trigger] out@[k] == state.bits@[
                        shift_bit_src(k)],
            decreases 4 - row,
        {
            let mut bit: usize = 0;
            while bit < 8
                invariant
                    0 <= bit <= 8,
                    0 <= row < 4,
                    0 <= col < 4,
                    out@.len() == 32 * col + 8 * row + bit,
                    state.wf(),
                    all_bits(out@),
                    forall|k: int|
                        0 <= k < 32 * col + 8 * row + bit ==> #[trigger] out@[k] == state.bits@[
                            shift_bit_src(k)],
                decreases 8 - bit,
            {
                let c = *state.square_getter(row, (col + row) % 4, bit);
                proof {
                    let k = 32 * col + 8 * row + bit;
                    assert(k / 32 == col && (k % 32) / 8 == row && k % 8 == bit) by {
                        assert(k == 32 * col + 8 * row + bit);
                    };
                    assert(shift_bit_src(k as int) == ((col + row) % 4) * 32 + row * 8 + bit);
                }
                out.push(c);
                bit = bit + 1;
            }
            row = row + 1;
        }
        col = col + 1;
    }
    let r = AESStateBoolean { bits: out };
    proof {
        assert forall|j: int| 0 <= j < 16 implies r.byte_values()[j] == shift_rows_spec(
            state.byte_values(),
        )[j] by {
            let s = shift_rows_src(j);
            assert(0 <= s < 16);
            assert forall|m: int|
                0 <= m < 8 implies #[trigger] cts_vals(r.bits@).subrange(8 * j, 8 * j + 8)[m]
                == cts_vals(state.bits@).subrange(8 * s, 8 * s + 8)[m] by {
                let i = 8 * j + m;
                assert(i == 32 * (j / 4) + 8 * (j % 4) + m);
                assert(i / 32 == j / 4 && (i % 32) / 8 == j % 4 && i % 8 == m);
                assert(shift_bit_src(i) == 8 * s + m);
                assert(r.bit_values()[i] == state.bit_values()[shift_bit_src(i)]);
            };
            assert(cts_vals(r.bits@).subrange(8 * j, 8 * j + 8) =~= cts_vals(
                state.bits@,
            ).subrange(8 * s, 8 * s + 8));
        };
        assert(r.byte_values() =~= shift_rows_spec(state.byte_values()));
    }
    r
}

/// MixColumns: the fixed GF(2)-linear circuit evaluated homomorphically on
/// each of the four columns, independently.
#[verifier::rlimit(60)]
pub fn mix_columns(state: &AESStateBoolean, server_key: &ServerKey) -> (r: AESStateBoolean)
    requires
        state.wf(),
    ensures
        r.wf(),
        r.byte_values() == mix_columns_spec(state.byte_values()),
{
    let mut out: Vec<Ciphertext> = Vec::new();
    let mut col: usize = 0;
    while col < 4
        invariant
            0 <= col <= 4,
            out@.len() == 32 * col,
            state.wf(),
            all_bits(out@),
            forall|c: int|
                0 <= c < col ==> bytes_of_bits(
                    #[trigger] cts_vals(out@).subrange(32 * c, 32 * c + 32),
                ) =~= mix_column4(bytes_of_bits(cts_vals(state.bits@).subrange(32 * c, 32 * c + 32))),
        decreases 4 - col,
    {
        let mut column: Vec<Ciphertext> = Vec::new();
        let mut i: usize = 0;
        while i < 32
            invariant
                0 <= i <= 32,
                0 <= col < 4,
                column@.len() == i,
                state.wf(),
                all_bits(column@),
                forall|k: int| 0 <= k < i ==> #[trigger] column@[k] == state.bits@[32 * col + k],
            decreases 32 - i,
        {
            column.push(state.bits[32 * col + i]);
            i = i + 1;
        }
        proof {
            assert(column@ =~= state.bits@.subrange(32 * col, 32 * col + 32));
        }
        let mut circuit = LinearCircuit::new(&column);
        circuit.execute_circuit(server_key);
        let ghost out_before = out@;
        let mut k: usize = 0;
        while k < 32
            invariant
                0 <= k <= 32,
                out@.len() == out_before.len() + k,
                circuit.y@.len() == 32,
                all_bits(circuit.y@),
                all_bits(out_before),
                out@ =~= out_before + circuit.y@.subrange(0, k as int),
            decreases 32 - k,
        {
            out.push(circuit.y[k]);
            k = k + 1;
        }
        proof {
            assert(out@ =~= out_before + circuit.y@);
            assert(cts_vals(out@).subrange(32 * col, 32 * col + 32) =~= cts_vals(circuit.y@));
            assert(cts_vals(circuit.x@) =~= cts_vals(state.bits@).subrange(
                32 * col,
                32 * col + 32,
            ));
            assert(forall|c: int|
                0 <= c < col ==> #[trigger] cts_vals(out@).subrange(32 * c, 32 * c + 32)
                    =~= cts_vals(out_before).subrange(32 * c, 32 * c + 32));
        }
        col = col + 1;
    }
    let r = AESStateBoolean { bits: out };
    proof {
        let sv = state.byte_values();
        assert forall|j: int| 0 <= j < 16 implies r.byte_values()[j] == mix_columns_spec(sv)[j] by {
            let c = j / 4;
            let rr = j % 4;
            lemma_bytes_of_bits_subrange(cts_vals(r.bits@), 32 * c, 32 * c + 32);
            lemma_bytes_of_bits_subrange(cts_vals(state.bits@), 32 * c, 32 * c + 32);
            let colbytes = bytes_of_bits(cts_vals(state.bits@).subrange(32 * c, 32 * c + 32));
            assert(colbytes =~= sv.subrange(4 * c, 4 * c + 4));
            assert(r.byte_values()[j] == mix_column4(colbytes)[rr]);
            assert(4 * c + (rr + 1) % 4 == 4 * (j / 4) + (j % 4 + 1) % 4);
        };
        assert(r.byte_values() =~= mix_columns_spec(state.byte_values()));
    }
    r
}

/// All eleven round keys are well-formed 128-bit boolean states.
pub open spec fn wf_round_keys(ks: Seq<Vec<Ciphertext>>) -> bool {
    ks.len() == 11 && forall|r: int|
        0 <= r < 11 ==> (#[trigger] ks[r])@.len() == 128 && all_bits(ks[r]@)
}

/// The decrypted bytes of each round key.
pub open spec fn round_keys_bytes(ks: Seq<Vec<Ciphertext>>) -> Seq<Seq<u8>> {
    Seq::new(ks.len(), |r: int| bytes_of_bits(cts_vals(ks[r]@)))
}

/// Compose eight decrypted bits at a time back into bytes.
pub fn bits_to_bytes(bits: &Vec<u64>) -> (r: Vec<u8>)
    requires
        bits@.len() % 8 == 0,
        forall|i: int| 0 <= i < bits@.len() ==> #[trigger] bits@[i] < 2,
    ensures
        r@ == bytes_of_bits(bits@),
{
    let n: usize = bits.len() / 8;
    let mut r: Vec<u8> = Vec::new();
    let mut j: usize = 0;
    while j < n
        invariant
            0 <= j <= n,
            n == bits@.len() / 8,
            bits@.len() % 8 == 0,
            r@.len() == j,
            forall|i: int| 0 <= i < bits@.len() ==> #[trigger] bits@[i] < 2,
            forall|k: int| 0 <= k < j ==> #[trigger] r@[k] == bytes_of_bits(bits@)[k],
        decreases n - j,
    {
        let len: usize = bits.len();
        proof {
            vstd::arithmetic::div_mod::lemma_fundamental_div_mod(bits@.len() as int, 8);
            assert(8 * j + 8 <= bits@.len());
            assert(bits@.len() == len);
        }
        let b: u64 = 128 * bits[8 * j] + 64 * bits[8 * j + 1] + 32 * bits[8 * j + 2] + 16 * bits[8
            * j + 3] + 8 * bits[8 * j + 4] + 4 * bits[8 * j + 5] + 2 * bits[8 * j + 6] + bits[8 * j
            + 7];
        proof {
            let sub = bits@.subrange(8 * j, 8 * j + 8);
            assert(sub[0] == bits@[8 * j] && sub[1] == bits@[8 * j + 1] && sub[2] == bits@[8 * j
                + 2] && sub[3] == bits@[8 * j + 3] && sub[4] == bits@[8 * j + 4] && sub[5]
                == bits@[8 * j + 5] && sub[6] == bits@[8 * j + 6] && sub[7] == bits@[8 * j + 7]);
            assert(b as u8 == bits_to_byte(sub));
        }
        r.push(b as u8);
        j = j + 1;
    }
    r
}

/// Decompose bytes into their bits, eight per byte, most significant
/// first, as the plain values to be encrypted bit by bit.
pub fn bytes_to_bits(bytes: &Vec<u8>) -> (r: Vec<u64>)
    requires
        8 * bytes@.len() <= usize::MAX,
    ensures
        r@ == bits_of_bytes(bytes@),
{
    let mut r: Vec<u64> = Vec::new();
    let mut j: usize = 0;
    while j < bytes.len()
        invariant
            0 <= j <= bytes@.len(),
            8 * bytes@.len() <= usize::MAX,
            r@.len() == 8 * j,
            forall|i: int| 0 <= i < 8 * j ==> #[trigger] r@[i] == bitv(bytes@[i / 8], i % 8),
        decreases bytes@.len() - j,
    {
        let b = bytes[j];
        let mut k: usize = 0;
        while k < 8
            invariant
                0 <= k <= 8,
                0 <= j < bytes@.len(),
                8 * bytes@.len() <= usize::MAX,
                b == bytes@[j as int],
                r@.len() == 8 * j + k,
                forall|i: int| 0 <= i < 8 * j + k ==> #[trigger] r@[i] == bitv(bytes@[i / 8], i % 8),
            decreases 8 - k,
        {
            r.push(((b >> (7 - k) as u8) & 1) as u64);
            proof {
                let i = 8 * j + k;
                assert(i / 8 == j && i % 8 == k) by {
                    vstd::arithmetic::div_mod::lemma_fundamental_div_mod(i as int, 8);
                };
                assert(r@[i as int] == bitv(bytes@[j as int], k as int));
            }
            k = k + 1;
        }
        j = j + 1;
    }
    proof {
        assert(r@ =~= bits_of_bytes(bytes@));
    }
    r
}

/// The full homomorphic AES-128 block encryption: initial key addition,
/// nine full rounds, and the final round without MixColumns, followed by
/// decryption of the result (used by the verification harness; in
/// production the boolean state would be returned still encrypted).
pub fn encrypted_aes(
    state: &AESStateBoolean,
    server_key: &ServerKey,
    round_keys: &Vec<Vec<Ciphertext>>,
    client_key_debug: &ClientKey,
) -> (r: Vec<u8>)
    requires
        state.wf(),
        wf_round_keys(round_keys@),
    ensures
        r@.len() == 16,
        r@ == aes_rounds_spec(state.byte_values(), round_keys_bytes(round_keys@)),
{
    let ghost block = state.byte_values();
    let ghost rkb = round_keys_bytes(round_keys@);
    // Initial round key addition
    let mut state_bool = add_round_key(state, &round_keys[0], server_key);
    let mut state_arith = state_bool.aes_recomposer(server_key);
    proof {
        assert(state_bool.byte_values() == aes_state_after(block, rkb, 0));
    }
    // 9 full rounds
    let mut r: usize = 0;
    while r < 9
        invariant
            0 <= r <= 9,
            state_bool.wf(),
            state_arith.wf(),
            wf_round_keys(round_keys@),
            rkb == round_keys_bytes(round_keys@),
            state_bool.byte_values() == aes_state_after(block, rkb, r as int),
            state_arith.byte_values() == state_bool.byte_values(),
        decreases 9 - r,
    {
        state_arith = sub_bytes(&state_arith, server_key);
        state_bool = state_arith.aes_decomposer(server_key);
        state_bool = shift_rows(&state_bool);
        state_bool = mix_columns(&state_bool, server_key);
        state_bool = add_round_key(&state_bool, &round_keys[r + 1], server_key);
        state_arith = state_bool.aes_recomposer(server_key);
        proof {
            assert(state_bool.byte_values() == aes_round(
                aes_state_after(block, rkb, r as int),
                rkb[r + 1],
            ));
            assert(state_bool.byte_values() == aes_state_after(block, rkb, r as int + 1));
        }
        r = r + 1;
    }
    // final round, without MixColumns
    state_arith = sub_bytes(&state_arith, server_key);
    state_bool = state_arith.aes_decomposer(server_key);
    state_bool = shift_rows(&state_bool);
    state_bool = add_round_key(&state_bool, &round_keys[10], server_key);
    proof {
        assert(state_bool.byte_values() == aes_final_round(aes_state_after(block, rkb, 9), rkb[10]));
    }
    let clear_bits = state_bool.tfhe_decryption_bits(client_key_debug);
    bits_to_bytes(&clear_bits)
}

/// The homomorphic counterpart of the cleartext oracle: encrypt the key
/// and each successive counter block bit by bit, expand the key and run
/// the pipeline, returning the decrypted keystream blocks.  `None` exactly
/// when the key or counter is not a 16-byte hex string.
pub fn encrypted_aes_ctr(number_of_outputs: usize, iv: &String, key: &String) -> (r: Option<Vec<
    Vec<u8>>>)
    ensures
        r is Some <==> valid_hex(key@) && valid_hex(iv@) && hex_bytes(key@).len() == 16
            && hex_bytes(iv@).len() == 16,
        r matches Some(blocks) ==> {
            &&& blocks@.len() == number_of_outputs
            &&& forall|i: int|
                0 <= i < number_of_outputs ==> (#[trigger] blocks@[i])@ == aes128_spec(
                    hex_bytes(key@),
                    counter_at(hex_bytes(iv@), i),
                )
        },
{
    let key_bytes = match hex_decode(key.as_str()) {
        Some(v) => v,
        None => {
            return None;
        },
    };
    let mut iv_bytes = match hex_decode(iv.as_str()) {
        Some(v) => v,
        None => {
            return None;
        },
    };
    if key_bytes.len() != 16 || iv_bytes.len() != 16 {
        return None;
    }
    let (client_key, server_key) = gen_keys();
    // Encrypt the key bit by bit
    let key_bits = bytes_to_bits(&key_bytes);
    proof {
        lemma_bits_of_bytes_wf(key_bytes@);
    }
    let key_state = AESStateBoolean::tfhe_encryption_bits(&key_bits, &client_key);
    let encrypted_round_keys = encrypted_key_expansion(key_state.bits, &server_key);
    proof {
        lemma_bytes_bits_roundtrip(key_bytes@);
        assert(round_keys_bytes(encrypted_round_keys@) == key_schedule_spec(hex_bytes(key@)));
    }
    let mut outputs: Vec<Vec<u8>> = Vec::new();
    let mut i: usize = 0;
    while i < number_of_outputs
        invariant
            0 <= i <= number_of_outputs,
            outputs@.len() == i,
            iv_bytes@.len() == 16,
            iv_bytes@ == counter_at(hex_bytes(iv@), i as int),
            wf_round_keys(encrypted_round_keys@),
            round_keys_bytes(encrypted_round_keys@) == key_schedule_spec(hex_bytes(key@)),
            forall|k: int|
                0 <= k < i ==> (#[trigger] outputs@[k])@ == aes128_spec(
                    hex_bytes(key@),
                    counter_at(hex_bytes(iv@), k),
                ),
        decreases number_of_outputs - i,
    {
        let counter_bits = bytes_to_bits(&iv_bytes);
        proof {
            lemma_bits_of_bytes_wf(iv_bytes@);
        }
        let state = AESStateBoolean::tfhe_encryption_bits(&counter_bits, &client_key);
        let result = encrypted_aes(&state, &server_key, &encrypted_round_keys, &client_key);
        proof {
            lemma_bytes_bits_roundtrip(iv_bytes@);
            assert(state.byte_values() == counter_at(hex_bytes(iv@), i as int));
        }
        outputs.push(result);
        increment_iv_u8(&mut iv_bytes);
        proof {
            lemma_inc_counter_len(counter_at(hex_bytes(iv@), i as int));
        }
        i = i + 1;
    }
    Some(outputs)
}

} // verus!

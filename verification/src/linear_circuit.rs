//! The MixColumns linear circuit, evaluated homomorphically.
//!
//! MixColumns is GF(2)-linear in the bit representation, so over one column
//! (4 bytes, 32 bit ciphertexts) each output bit is the XOR of a fixed
//! subset of the input bits, computed as one homomorphic sum modulo 2 per
//! output wire.  The circuit is a fixed public artifact: it is written out
//! below, wire by wire, and `lemma_mix_byte_bits` validates it once against
//! the byte-level MixColumns specification.

use vstd::prelude::*;

use crate::aes_spec::mix_byte;
use crate::aes_spec::mix_column4;
use crate::backend::all_bits;
use crate::backend::copy_cts;
use crate::backend::cts_vals;
use crate::backend::is_bit;
use crate::backend::lemma_sum_values_push;
use crate::backend::Ciphertext;
use crate::backend::ServerKey;
use crate::bits::bits_to_byte;
use crate::bits::bitv;
use crate::bits::byte_bits;
use crate::bits::bytes_of_bits;
use crate::bits::lemma_bits_byte_roundtrip;
use crate::bits::lemma_byte_bits_roundtrip;
use crate::bits::lemma_parity5;
use crate::bits::lemma_parity7;

verus! {

/// The bit-level MixColumns circuit is correct: for any column bytes
/// `a, b, c, d`, each bit of the output byte 2a + 3b + c + d over GF(2^8)
/// is the XOR of the fixed subset of input bits wired below.
proof fn lemma_mix_byte_bits(a: u8, b: u8, c: u8, d: u8)
    ensures
        bitv(mix_byte(a, b, c, d), 0) == bitv(a, 1) ^ bitv(b, 1) ^ bitv(b, 0) ^ bitv(c, 0) ^ bitv(
            d,
            0,
        ),
        bitv(mix_byte(a, b, c, d), 1) == bitv(a, 2) ^ bitv(b, 2) ^ bitv(b, 1) ^ bitv(c, 1) ^ bitv(
            d,
            1,
        ),
        bitv(mix_byte(a, b, c, d), 2) == bitv(a, 3) ^ bitv(b, 3) ^ bitv(b, 2) ^ bitv(c, 2) ^ bitv(
            d,
            2,
        ),
        bitv(mix_byte(a, b, c, d), 3) == bitv(a, 4) ^ bitv(a, 0) ^ bitv(b, 4) ^ bitv(b, 0) ^ bitv(
            b,
            3,
        ) ^ bitv(c, 3) ^ bitv(d, 3),
        bitv(mix_byte(a, b, c, d), 4) == bitv(a, 5) ^ bitv(a, 0) ^ bitv(b, 5) ^ bitv(b, 0) ^ bitv(
            b,
            4,
        ) ^ bitv(c, 4) ^ bitv(d, 4),
        bitv(mix_byte(a, b, c, d), 5) == bitv(a, 6) ^ bitv(b, 6) ^ bitv(b, 5) ^ bitv(c, 5) ^ bitv(
            d,
            5,
        ),
        bitv(mix_byte(a, b, c, d), 6) == bitv(a, 7) ^ bitv(a, 0) ^ bitv(b, 7) ^ bitv(b, 0) ^ bitv(
            b,
            6,
        ) ^ bitv(c, 6) ^ bitv(d, 6),
        bitv(mix_byte(a, b, c, d), 7) == bitv(a, 0) ^ bitv(b, 7) ^ bitv(b, 0) ^ bitv(c, 7) ^ bitv(
            d,
            7,
        ),
{
    assert({
        let m = (((a << 1) as u8) ^ (if a >= 0x80 {
            0x1bu8
        } else {
            0u8
        })) ^ (((b << 1) as u8) ^ (if b >= 0x80 {
            0x1bu8
        } else {
            0u8
        })) ^ b ^ c ^ d;
        ((((m >> 7) & 1) as u64) == ((((a >> 6) & 1) as u64) ^ (((b >> 6) & 1) as u64) ^ (((b >> 7)
            & 1) as u64) ^ (((c >> 7) & 1) as u64) ^ (((d >> 7) & 1) as u64))) && ((((m >> 6)
            & 1) as u64) == ((((a >> 5) & 1) as u64) ^ (((b >> 5) & 1) as u64) ^ (((b >> 6)
            & 1) as u64) ^ (((c >> 6) & 1) as u64) ^ (((d >> 6) & 1) as u64))) && ((((m >> 5)
            & 1) as u64) == ((((a >> 4) & 1) as u64) ^ (((b >> 4) & 1) as u64) ^ (((b >> 5)
            & 1) as u64) ^ (((c >> 5) & 1) as u64) ^ (((d >> 5) & 1) as u64))) && ((((m >> 4)
            & 1) as u64) == ((((a >> 3) & 1) as u64) ^ (((a >> 7) & 1) as u64) ^ (((b >> 3)
            & 1) as u64) ^ (((b >> 7) & 1) as u64) ^ (((b >> 4) & 1) as u64) ^ (((c >> 4)
            & 1) as u64) ^ (((d >> 4) & 1) as u64))) && ((((m >> 3) & 1) as u64) == ((((a >> 2)
            & 1) as u64) ^ (((a >> 7) & 1) as u64) ^ (((b >> 2) & 1) as u64) ^ (((b >> 7)
            & 1) as u64) ^ (((b >> 3) & 1) as u64) ^ (((c >> 3) & 1) as u64) ^ (((d >> 3)
            & 1) as u64))) && ((((m >> 2) & 1) as u64) == ((((a >> 1) & 1) as u64) ^ (((b >> 1)
            & 1) as u64) ^ (((b >> 2) & 1) as u64) ^ (((c >> 2) & 1) as u64) ^ (((d >> 2)
            & 1) as u64))) && ((((m >> 1) & 1) as u64) == ((((a >> 0) & 1) as u64) ^ (((a >> 7)
            & 1) as u64) ^ (((b >> 0) & 1) as u64) ^ (((b >> 7) & 1) as u64) ^ (((b >> 1)
            & 1) as u64) ^ (((c >> 1) & 1) as u64) ^ (((d >> 1) & 1) as u64))) && ((((m >> 0)
            & 1) as u64) == ((((a >> 7) & 1) as u64) ^ (((b >> 0) & 1) as u64) ^ (((b >> 7)
            & 1) as u64) ^ (((c >> 0) & 1) as u64) ^ (((d >> 0) & 1) as u64)))
    }) by (bit_vector);
}

/// A homomorphic XOR of five input bits: one multi-operand sum modulo 2.
fn xor_sum5(
    server_key: &ServerKey,
    x: &Vec<Ciphertext>,
    i1: usize,
    i2: usize,
    i3: usize,
    i4: usize,
    i5: usize,
) -> (r: Ciphertext)
    requires
        all_bits(x@),
        i1 < x@.len(),
        i2 < x@.len(),
        i3 < x@.len(),
        i4 < x@.len(),
        i5 < x@.len(),
    ensures
        is_bit(r),
        r@ == x@[i1 as int]@ ^ x@[i2 as int]@ ^ x@[i3 as int]@ ^ x@[i4 as int]@ ^ x@[i5 as int]@,
{
    let mut ops: Vec<Ciphertext> = Vec::new();
    proof {
        lemma_sum_values_push(ops@, x@[i1 as int]);
    }
    ops.push(x[i1]);
    proof {
        lemma_sum_values_push(ops@, x@[i2 as int]);
    }
    ops.push(x[i2]);
    proof {
        lemma_sum_values_push(ops@, x@[i3 as int]);
    }
    ops.push(x[i3]);
    proof {
        lemma_sum_values_push(ops@, x@[i4 as int]);
    }
    ops.push(x[i4]);
    proof {
        lemma_sum_values_push(ops@, x@[i5 as int]);
    }
    ops.push(x[i5]);
    let r = server_key.simple_sum(&ops);
    proof {
        lemma_parity5(x@[i1 as int]@, x@[i2 as int]@, x@[i3 as int]@, x@[i4 as int]@, x@[i5
            as int]@);
    }
    r
}

/// A homomorphic XOR of seven input bits: one multi-operand sum modulo 2.
fn xor_sum7(
    server_key: &ServerKey,
    x: &Vec<Ciphertext>,
    i1: usize,
    i2: usize,
    i3: usize,
    i4: usize,
    i5: usize,
    i6: usize,
    i7: usize,
) -> (r: Ciphertext)
    requires
        all_bits(x@),
        i1 < x@.len(),
        i2 < x@.len(),
        i3 < x@.len(),
        i4 < x@.len(),
        i5 < x@.len(),
        i6 < x@.len(),
        i7 < x@.len(),
    ensures
        is_bit(r),
        r@ == x@[i1 as int]@ ^ x@[i2 as int]@ ^ x@[i3 as int]@ ^ x@[i4 as int]@ ^ x@[i5 as int]@
            ^ x@[i6 as int]@ ^ x@[i7 as int]@,
{
    let mut ops: Vec<Ciphertext> = Vec::new();
    proof {
        lemma_sum_values_push(ops@, x@[i1 as int]);
    }
    ops.push(x[i1]);
    proof {
        lemma_sum_values_push(ops@, x@[i2 as int]);
    }
    ops.push(x[i2]);
    proof {
        lemma_sum_values_push(ops@, x@[i3 as int]);
    }
    ops.push(x[i3]);
    proof {
        lemma_sum_values_push(ops@, x@[i4 as int]);
    }
    ops.push(x[i4]);
    proof {
        lemma_sum_values_push(ops@, x@[i5 as int]);
    }
    ops.push(x[i5]);
    proof {
        lemma_sum_values_push(ops@, x@[i6 as int]);
    }
    ops.push(x[i6]);
    proof {
        lemma_sum_values_push(ops@, x@[i7 as int]);
    }
    ops.push(x[i7]);
    let r = server_key.simple_sum(&ops);
    proof {
        lemma_parity7(x@[i1 as int]@, x@[i2 as int]@, x@[i3 as int]@, x@[i4 as int]@, x@[i5
            as int]@, x@[i6 as int]@, x@[i7 as int]@);
    }
    r
}

/// The eight output wires for one output byte of the circuit, given the
/// offsets of the four input bytes of its column.
fn mix_byte_wires(
    x: &Vec<Ciphertext>,
    ai: usize,
    bi: usize,
    ci: usize,
    di: usize,
    server_key: &ServerKey,
) -> (r: Vec<Ciphertext>)
    requires
        x@.len() == 32,
        all_bits(x@),
        ai + 8 <= 32,
        bi + 8 <= 32,
        ci + 8 <= 32,
        di + 8 <= 32,
    ensures
        r@.len() == 8,
        all_bits(r@),
        cts_vals(r@) == byte_bits(
            mix_byte(
                bits_to_byte(cts_vals(x@).subrange(ai as int, ai + 8)),
                bits_to_byte(cts_vals(x@).subrange(bi as int, bi + 8)),
                bits_to_byte(cts_vals(x@).subrange(ci as int, ci + 8)),
                bits_to_byte(cts_vals(x@).subrange(di as int, di + 8)),
            ),
        ),
{
    let w0 = xor_sum5(server_key, x, ai + 1, bi + 1, bi, ci, di);
    let w1 = xor_sum5(server_key, x, ai + 2, bi + 2, bi + 1, ci + 1, di + 1);
    let w2 = xor_sum5(server_key, x, ai + 3, bi + 3, bi + 2, ci + 2, di + 2);
    let w3 = xor_sum7(server_key, x, ai + 4, ai, bi + 4, bi, bi + 3, ci + 3, di + 3);
    let w4 = xor_sum7(server_key, x, ai + 5, ai, bi + 5, bi, bi + 4, ci + 4, di + 4);
    let w5 = xor_sum5(server_key, x, ai + 6, bi + 6, bi + 5, ci + 5, di + 5);
    let w6 = xor_sum7(server_key, x, ai + 7, ai, bi + 7, bi, bi + 6, ci + 6, di + 6);
    let w7 = xor_sum5(server_key, x, ai, bi + 7, bi, ci + 7, di + 7);
    let mut r: Vec<Ciphertext> = Vec::new();
    r.push(w0);
    r.push(w1);
    r.push(w2);
    r.push(w3);
    r.push(w4);
    r.push(w5);
    r.push(w6);
    r.push(w7);
    proof {
        let vals = cts_vals(x@);
        let sa = vals.subrange(ai as int, ai + 8);
        let sb = vals.subrange(bi as int, bi + 8);
        let sc = vals.subrange(ci as int, ci + 8);
        let sd = vals.subrange(di as int, di + 8);
        let a = bits_to_byte(sa);
        let b = bits_to_byte(sb);
        let c = bits_to_byte(sc);
        let d = bits_to_byte(sd);
        lemma_bits_byte_roundtrip(sa);
        lemma_bits_byte_roundtrip(sb);
        lemma_bits_byte_roundtrip(sc);
        lemma_bits_byte_roundtrip(sd);
        assert(forall|k: int| 0 <= k < 8 ==> bitv(a, k) == #[trigger] sa[k]);
        assert(forall|k: int| 0 <= k < 8 ==> bitv(b, k) == #[trigger] sb[k]);
        assert(forall|k: int| 0 <= k < 8 ==> bitv(c, k) == #[trigger] sc[k]);
        assert(forall|k: int| 0 <= k < 8 ==> bitv(d, k) == #[trigger] sd[k]);
        lemma_mix_byte_bits(a, b, c, d);
        assert(cts_vals(r@) =~= byte_bits(mix_byte(a, b, c, d)));
    }
    r
}

/// One column of the boolean state together with the output wires of the
/// MixColumns circuit evaluated on it.
pub struct LinearCircuit {
    pub x: Vec<Ciphertext>,
    pub y: Vec<Ciphertext>,
}

impl LinearCircuit {
    /// A circuit over the given 32 input wires, not yet executed.
    pub fn new(input: &Vec<Ciphertext>) -> (s: Self)
        requires
            input@.len() == 32,
        ensures
            s.x@ == input@,
            s.y@.len() == 0,
    {
        LinearCircuit { x: copy_cts(input), y: Vec::new() }
    }

    /// Evaluate the MixColumns circuit: each output wire is the homomorphic
    /// XOR of its fixed subset of input wires, and the 32 output bits
    /// encode the MixColumns image of the column the input bits encode.
    pub fn execute_circuit(&mut self, server_key: &ServerKey)
        requires
            old(self).x@.len() == 32,
            all_bits(old(self).x@),
        ensures
            final(self).x@ == old(self).x@,
            final(self).y@.len() == 32,
            all_bits(final(self).y@),
            bytes_of_bits(cts_vals(final(self).y@)) == mix_column4(
                bytes_of_bits(cts_vals(old(self).x@)),
            ),
    {
        let y0 = mix_byte_wires(&self.x, 0, 8, 16, 24, server_key);
        let y1 = mix_byte_wires(&self.x, 8, 16, 24, 0, server_key);
        let y2 = mix_byte_wires(&self.x, 16, 24, 0, 8, server_key);
        let y3 = mix_byte_wires(&self.x, 24, 0, 8, 16, server_key);
        let mut y: Vec<Ciphertext> = Vec::new();
        let mut i: usize = 0;
        while i < 8
            invariant
                0 <= i <= 8,
                y@.len() == i,
                y0@.len() == 8,
                y@ =~= y0@.subrange(0, i as int),
            decreases 8 - i,
        {
            y.push(y0[i]);
            i = i + 1;
        }
        let mut i: usize = 0;
        while i < 8
            invariant
                0 <= i <= 8,
                y@.len() == 8 + i,
                y1@.len() == 8,
                y@ =~= y0@ + y1@.subrange(0, i as int),
            decreases 8 - i,
        {
            y.push(y1[i]);
            i = i + 1;
        }
        let mut i: usize = 0;
        while i < 8
            invariant
                0 <= i <= 8,
                y@.len() == 16 + i,
                y2@.len() == 8,
                y@ =~= y0@ + y1@ + y2@.subrange(0, i as int),
            decreases 8 - i,
        {
            y.push(y2[i]);
            i = i + 1;
        }
        let mut i: usize = 0;
        while i < 8
            invariant
                0 <= i <= 8,
                y@.len() == 24 + i,
                y3@.len() == 8,
                y@ =~= y0@ + y1@ + y2@ + y3@.subrange(0, i as int),
            decreases 8 - i,
        {
            y.push(y3[i]);
            i = i + 1;
        }
        proof {
            assert(y@ =~= y0@ + y1@ + y2@ + y3@);
        }
        self.y = y;
        proof {
            let vals = cts_vals(self.y@);
            let xvals = cts_vals(old(self).x@);
            assert(cts_vals(y0@) =~= vals.subrange(0, 8));
            assert(cts_vals(y1@) =~= vals.subrange(8, 16));
            assert(cts_vals(y2@) =~= vals.subrange(16, 24));
            assert(cts_vals(y3@) =~= vals.subrange(24, 32));
            let col = bytes_of_bits(xvals);
            assert(col[0] == bits_to_byte(xvals.subrange(0, 8)));
            assert(col[1] == bits_to_byte(xvals.subrange(8, 16)));
            assert(col[2] == bits_to_byte(xvals.subrange(16, 24)));
            assert(col[3] == bits_to_byte(xvals.subrange(24, 32)));
            lemma_byte_bits_roundtrip(mix_byte(col[0], col[1], col[2], col[3]));
            lemma_byte_bits_roundtrip(mix_byte(col[1], col[2], col[3], col[0]));
            lemma_byte_bits_roundtrip(mix_byte(col[2], col[3], col[0], col[1]));
            lemma_byte_bits_roundtrip(mix_byte(col[3], col[0], col[1], col[2]));
            assert(bytes_of_bits(vals) =~= mix_column4(bytes_of_bits(xvals)));
        }
    }
}

} // verus!

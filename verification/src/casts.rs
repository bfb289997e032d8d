//! Conversions between the parity (bit) and arithmetic (nibble) encodings.
//!
//! `recomposer` folds four bit ciphertexts into one nibble ciphertext by a
//! homomorphic weighted sum; `decomposer` extracts the four bits of a
//! nibble ciphertext by four independent lookup-table bootstrappings.

use vstd::prelude::*;

use crate::backend::all_bits;
use crate::backend::cts_vals;
use crate::backend::is_nibble;
use crate::backend::lemma_sum_values_push;
use crate::backend::spec_nibble_encoding;
use crate::backend::spec_parity_encoding;
use crate::backend::sum_values;
use crate::backend::Ciphertext;
use crate::backend::Encoding;
use crate::backend::ServerKey;
use crate::bits::lemma_and_one_bound;
use crate::bits::nibble_bits;
use crate::bits::nibble_of_bits;

verus! {

/// Appends `n` copies of `c` to the operand list, so that `c`'s value
/// enters the homomorphic sum with weight `n`.
fn push_copies(ops: &mut Vec<Ciphertext>, c: &Ciphertext, n: usize)
    ensures
        final(ops)@.len() == old(ops)@.len() + n,
        sum_values(final(ops)@) == sum_values(old(ops)@) + n * c@,
{
    let mut i: usize = 0;
    while i < n
        invariant
            0 <= i <= n,
            ops@.len() == old(ops)@.len() + i,
            sum_values(ops@) == sum_values(old(ops)@) + i * c@,
        decreases n - i,
    {
        proof {
            lemma_sum_values_push(ops@, *c);
            assert((i as int + 1) * c@ == i as int * c@ + c@) by (nonlinear_arith);
        }
        ops.push(*c);
        i = i + 1;
    }
}

/// Recompose four bit ciphertexts (most significant first) into one nibble
/// ciphertext under the arithmetic encoding, as the homomorphic weighted
/// sum 8*b0 + 4*b1 + 2*b2 + b3.
pub fn recomposer(bits: &[Ciphertext], encoding: &Encoding, server_key: &ServerKey) -> (r:
    Ciphertext)
    requires
        bits@.len() == 4,
        all_bits(bits@),
        *encoding == spec_nibble_encoding(),
    ensures
        is_nibble(r),
        r@ == nibble_of_bits(cts_vals(bits@)),
{
    let mut ops: Vec<Ciphertext> = Vec::new();
    push_copies(&mut ops, &bits[0], 8);
    push_copies(&mut ops, &bits[1], 4);
    push_copies(&mut ops, &bits[2], 2);
    push_copies(&mut ops, &bits[3], 1);
    let r = server_key.sum(&ops, encoding);
    proof {
        let s = sum_values(ops@);
        assert(s == 8 * bits@[0]@ + 4 * bits@[1]@ + 2 * bits@[2]@ + bits@[3]@);
        assert(0 <= s < 16);
        vstd::arithmetic::div_mod::lemma_small_mod(s as nat, 17);
        assert(cts_vals(bits@)[0] == bits@[0]@);
        assert(cts_vals(bits@)[1] == bits@[1]@);
        assert(cts_vals(bits@)[2] == bits@[2]@);
        assert(cts_vals(bits@)[3] == bits@[3]@);
    }
    r
}

/// Decompose one nibble ciphertext into its four bits (most significant
/// first) under the parity encoding, one lookup-table bootstrapping per
/// output bit.
pub fn decomposer(nibble: &Ciphertext, encoding: &Encoding, server_key: &ServerKey) -> (r: Vec<
    Ciphertext>)
    requires
        is_nibble(*nibble),
        *encoding == spec_parity_encoding(),
    ensures
        r@.len() == 4,
        all_bits(r@),
        cts_vals(r@) == nibble_bits(nibble@),
{
    let mut out: Vec<Ciphertext> = Vec::new();
    let mut i: usize = 0;
    while i < 4
        invariant
            0 <= i <= 4,
            out@.len() == i,
            all_bits(out@),
            is_nibble(*nibble),
            *encoding == spec_parity_encoding(),
            forall|k: int| 0 <= k < i ==> (#[trigger] out@[k])@ == nibble_bits(nibble@)[k],
        decreases 4 - i,
    {
        let shift: u64 = (3 - i) as u64;
        let mut table: Vec<u8> = Vec::new();
        let mut n: usize = 0;
        while n < 16
            invariant
                0 <= n <= 16,
                table@.len() == n,
                shift == 3 - i,
                0 <= i < 4,
                forall|m: int|
                    0 <= m < n ==> #[trigger] table@[m] == ((((m as u64) >> shift) & 1) as u8),
                forall|m: int| 0 <= m < n ==> #[trigger] table@[m] < 2,
            decreases 16 - n,
        {
            proof {
                lemma_and_one_bound((n as u64) >> shift);
            }
            let b: u8 = (((n as u64) >> shift) & 1) as u8;
            table.push(b);
            n = n + 1;
        }
        let c = server_key.bootstrap_lookup(nibble, encoding, &table);
        proof {
            assert(table@[nibble@ as int] == (((nibble@ as u64) >> shift) & 1) as u8);
            lemma_and_one_bound(nibble@ >> shift);
            assert(c@ == nibble_bits(nibble@)[i as int]);
        }
        out.push(c);
        i = i + 1;
    }
    proof {
        assert(cts_vals(out@) =~= nibble_bits(nibble@));
    }
    out
}

} // verus!

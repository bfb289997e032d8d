//! Parallel maps over independent per-group conversions.
//!
//! Every stage of the pipeline that works per nibble or per byte is a data
//! parallel map with no dependency between groups, dispatched to rayon's
//! worker pool.  Each wrapper below only distributes a verified per-group
//! function over disjoint chunks and collects the results in order; the
//! contracts restate that function's contract pointwise.

use vstd::prelude::*;

use rayon::iter::IntoParallelRefIterator;
use rayon::iter::ParallelIterator;
use rayon::slice::ParallelSlice;

use crate::aes_spec::sbox;
use crate::backend::all_bits;
use crate::backend::all_nibbles;
use crate::backend::cts_vals;
use crate::backend::spec_nibble_encoding;
use crate::backend::spec_parity_encoding;
use crate::backend::Ciphertext;
use crate::backend::Encoding;
use crate::backend::ServerKey;
use crate::bits::bits_of_nibbles;
use crate::bits::nibbles_of_bits;
use crate::casts::decomposer;
use crate::casts::recomposer;
use crate::clear::sub_byte_pair;

verus! {

/// Relies on rayon's `par_chunks`/`map`/`collect`: mapping `recomposer`
/// over the disjoint four-bit groups of the input collects, in input
/// order, exactly the per-group results.
#[verifier::external_body]
pub(crate) fn par_recompose(
    bits: &Vec<Ciphertext>,
    encoding: &Encoding,
    server_key: &ServerKey,
) -> (r: Vec<Ciphertext>)
    requires
        bits@.len() % 4 == 0,
        all_bits(bits@),
        *encoding == spec_nibble_encoding(),
    ensures
        r@.len() == bits@.len() / 4,
        all_nibbles(r@),
        cts_vals(r@) == nibbles_of_bits(cts_vals(bits@)),
{
    bits.par_chunks(4).map(|g: &[Ciphertext]| recomposer(g, encoding, server_key)).collect()
}

/// Relies on rayon's `par_iter`/`map`/`collect`: mapping `decomposer` over
/// the input nibbles collects, in input order, the four bits of each
/// nibble; concatenation preserves that order.
#[verifier::external_body]
pub(crate) fn par_decompose(
    nibbles: &Vec<Ciphertext>,
    encoding: &Encoding,
    server_key: &ServerKey,
) -> (r: Vec<Ciphertext>)
    requires
        all_nibbles(nibbles@),
        *encoding == spec_parity_encoding(),
    ensures
        r@.len() == 4 * nibbles@.len(),
        all_bits(r@),
        cts_vals(r@) == bits_of_nibbles(cts_vals(nibbles@)),
{
    nibbles.par_iter().map(|x: &Ciphertext| decomposer(x, encoding, server_key)).collect::<Vec<
        Vec<Ciphertext>,
    >>().concat()
}

/// Relies on rayon's `par_chunks`/`map`/`collect`: mapping `sub_byte_pair`
/// over the disjoint nibble pairs of the input collects, in input order,
/// the substituted pairs; concatenation preserves that order.
#[verifier::external_body]
pub(crate) fn par_sub_bytes(
    nibbles: &Vec<Ciphertext>,
    table: &Vec<u8>,
    server_key: &ServerKey,
) -> (r: Vec<Ciphertext>)
    requires
        nibbles@.len() % 2 == 0,
        all_nibbles(nibbles@),
        table@.len() == 256,
        forall|i: int| 0 <= i < 256 ==> #[trigger] table@[i] == sbox(i as u8),
    ensures
        r@.len() == nibbles@.len(),
        all_nibbles(r@),
        forall|j: int|
            0 <= j < nibbles@.len() / 2 ==> (#[trigger] r@[2 * j])@ == sbox(
                (16 * nibbles@[2 * j]@ + nibbles@[2 * j + 1]@) as u8,
            ) as u64 / 16,
        forall|j: int|
            0 <= j < nibbles@.len() / 2 ==> (#[trigger] r@[2 * j + 1])@ == sbox(
                (16 * nibbles@[2 * j]@ + nibbles@[2 * j + 1]@) as u8,
            ) as u64 % 16,
{
    nibbles.par_chunks(2).map(
        |p: &[Ciphertext]| sub_byte_pair(&p[0], &p[1], table, server_key),
    ).collect::<Vec<Vec<Ciphertext>>>().concat()
}

} // verus!

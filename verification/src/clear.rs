//! The cleartext S-box and the truth table handed to bootstrapping.
//!
//! Programmable bootstrapping evaluates a fixed public function over every
//! encrypted input; for SubBytes and SubWord that function is the AES S-box
//! on one byte, presented as a 256-entry table from the byte to its
//! substitute.

use vstd::prelude::*;

use crate::aes_spec::sbox;
use crate::aes_spec::SBOX;
use crate::backend::all_nibbles;
use crate::backend::is_nibble;
use crate::backend::Ciphertext;
use crate::backend::Encoding;
use crate::backend::ServerKey;

verus! {

/// The cleartext AES S-box on one byte; the reference function whose truth
/// table is evaluated homomorphically.
pub fn clear_sub_bytes(byte: u8) -> (r: u8)
    ensures
        r == sbox(byte),
{
    SBOX[byte as usize]
}

/// The S-box truth table handed to programmable bootstrapping.
pub fn sbox_table() -> (t: Vec<u8>)
    ensures
        t@.len() == 256,
        forall|i: int| 0 <= i < 256 ==> #[trigger] t@[i] == sbox(i as u8),
{
    let mut t: Vec<u8> = Vec::new();
    let mut i: usize = 0;
    while i < 256
        invariant
            0 <= i <= 256,
            t@.len() == i,
            forall|j: int| 0 <= j < i ==> #[trigger] t@[j] == sbox(j as u8),
        decreases 256 - i,
    {
        t.push(clear_sub_bytes(i as u8));
        i = i + 1;
    }
    t
}

/// Substitute one byte held as two nibble ciphertexts (high nibble first):
/// one programmable bootstrapping over the S-box truth table.
pub fn sub_byte_pair(
    hi: &Ciphertext,
    lo: &Ciphertext,
    table: &Vec<u8>,
    server_key: &ServerKey,
) -> (r: Vec<Ciphertext>)
    requires
        is_nibble(*hi),
        is_nibble(*lo),
        table@.len() == 256,
        forall|i: int| 0 <= i < 256 ==> #[trigger] table@[i] == sbox(i as u8),
    ensures
        r@.len() == 2,
        all_nibbles(r@),
        r@[0]@ == sbox((16 * hi@ + lo@) as u8) as u64 / 16,
        r@[1]@ == sbox((16 * hi@ + lo@) as u8) as u64 % 16,
{
    let mut encodings: Vec<Encoding> = Vec::new();
    encodings.push(Encoding::new_canonical(16, 17));
    encodings.push(Encoding::new_canonical(16, 17));
    let mut inputs: Vec<Ciphertext> = Vec::new();
    inputs.push(*hi);
    inputs.push(*lo);
    server_key.full_tree_bootstrapping(&inputs, &encodings, table)
}

} // verus!

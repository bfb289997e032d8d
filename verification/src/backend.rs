//! Cleartext model of the cryptographic backend.
//!
//! The pipeline consumes a small algebra of homomorphic primitives: modular
//! sums over ciphertexts, a plaintext-ciphertext sum, and programmable
//! lookup-table evaluation (bootstrapping).  This module supplies that
//! algebra over a transparent ciphertext model: a ciphertext records the
//! plaintext residue it decrypts to together with the modulus of its
//! encoding, and every primitive is verified against exactly the algebraic
//! contract the pipeline relies on.  The rest of the crate never looks
//! inside a ciphertext; it only uses these contracts.

use vstd::prelude::*;

verus! {

/// How a plaintext value is embedded for homomorphic arithmetic: the size of
/// the value domain, and the modulus of the ring the value is carried in.
#[derive(Clone, Copy, PartialEq, Eq, Structural)]
pub struct Encoding {
    pub domain_size: u64,
    pub modulus: u64,
}

/// The encoding of a single bit: domain {0, 1}, modulus 2.
pub open spec fn spec_parity_encoding() -> Encoding {
    Encoding { domain_size: 2, modulus: 2 }
}

/// The canonical arithmetic encoding of a nibble: domain {0..15}, modulus 17.
pub open spec fn spec_nibble_encoding() -> Encoding {
    Encoding { domain_size: 16, modulus: 17 }
}

impl Encoding {
    pub open spec fn wf(&self) -> bool {
        2 <= self.modulus <= 0x8000_0000_0000_0000u64 && 1 <= self.domain_size <= self.modulus
    }

    /// Domain {0, 1} with modulus 2: one bit per ciphertext.
    pub fn parity_encoding() -> (e: Encoding)
        ensures
            e == spec_parity_encoding(),
    {
        Encoding { domain_size: 2, modulus: 2 }
    }

    /// Canonical arithmetic encoding of `domain_size` values modulo `modulus`.
    pub fn new_canonical(domain_size: u64, modulus: u64) -> (e: Encoding)
        ensures
            e == (Encoding { domain_size, modulus }),
    {
        Encoding { domain_size, modulus }
    }
}

/// An encrypted scalar.  In the model it is transparent to the verifier:
/// `c@` is the value it decrypts to and `c.modulus()` the modulus of its
/// encoding.  Executable code outside this module treats it as opaque.
#[derive(Clone, Copy)]
pub struct Ciphertext {
    value: u64,
    carrier: u64,
}

impl View for Ciphertext {
    type V = u64;

    closed spec fn view(&self) -> u64 {
        self.value
    }
}

impl Ciphertext {
    /// The modulus of the encoding this ciphertext was produced under.
    pub closed spec fn modulus(&self) -> u64 {
        self.carrier
    }
}

/// A ciphertext under the parity encoding holding a single bit.
pub open spec fn is_bit(c: Ciphertext) -> bool {
    c.modulus() == 2 && c@ < 2
}

/// A ciphertext under the arithmetic encoding holding a nibble.
pub open spec fn is_nibble(c: Ciphertext) -> bool {
    c.modulus() == 17 && c@ < 16
}

/// The values held by a sequence of ciphertexts.
pub open spec fn cts_vals(s: Seq<Ciphertext>) -> Seq<u64> {
    Seq::new(s.len(), |i: int| s[i]@)
}

/// Every ciphertext of the sequence holds one bit under the parity encoding.
pub open spec fn all_bits(s: Seq<Ciphertext>) -> bool {
    forall|i: int| 0 <= i < s.len() ==> is_bit(#[trigger] s[i])
}

/// Every ciphertext of the sequence holds one nibble under the arithmetic
/// encoding.
pub open spec fn all_nibbles(s: Seq<Ciphertext>) -> bool {
    forall|i: int| 0 <= i < s.len() ==> is_nibble(#[trigger] s[i])
}

/// The sum of the values held by a sequence of ciphertexts.
pub open spec fn sum_values(s: Seq<Ciphertext>) -> int
    decreases s.len(),
{
    if s.len() == 0 {
        0
    } else {
        sum_values(s.drop_last()) + s.last()@
    }
}

pub proof fn lemma_sum_values_push(s: Seq<Ciphertext>, c: Ciphertext)
    ensures
        sum_values(s.push(c)) == sum_values(s) + c@,
{
    assert(s.push(c).drop_last() =~= s);
}

/// A fresh vector holding the same ciphertexts.
pub fn copy_cts(v: &Vec<Ciphertext>) -> (r: Vec<Ciphertext>)
    ensures
        r@ == v@,
{
    let mut r: Vec<Ciphertext> = Vec::new();
    let mut i: usize = 0;
    while i < v.len()
        invariant
            0 <= i <= v@.len(),
            r@ =~= v@.subrange(0, i as int),
        decreases v@.len() - i,
    {
        r.push(v[i]);
        i = i + 1;
    }
    proof {
        assert(v@.subrange(0, v@.len() as int) =~= v@);
    }
    r
}

/// Client-side key material: encrypts inputs and decrypts results.
pub struct ClientKey {
    _private: (),
}

/// Server-side evaluation key material, shared read-only by all primitives.
pub struct ServerKey {
    _private: (),
}

/// Session setup: one client key and one server key.
pub fn gen_keys() -> (ClientKey, ServerKey) {
    (ClientKey { _private: () }, ServerKey { _private: () })
}

impl ClientKey {
    /// Encrypt one value under the given encoding.
    pub fn encrypt_arithmetic(&self, m: u64, encoding: &Encoding) -> (c: Ciphertext)
        requires
            encoding.wf(),
            m < encoding.domain_size,
        ensures
            c@ == m,
            c.modulus() == encoding.modulus,
    {
        Ciphertext { value: m, carrier: encoding.modulus }
    }

    /// Decrypt one ciphertext.
    pub fn decrypt(&self, c: &Ciphertext) -> (m: u64)
        ensures
            m == c@,
    {
        c.value
    }
}

impl ServerKey {
    /// Homomorphic multi-operand sum reduced into the given encoding.
    pub fn sum(&self, cts: &Vec<Ciphertext>, encoding: &Encoding) -> (r: Ciphertext)
        requires
            encoding.wf(),
        ensures
            r.modulus() == encoding.modulus,
            r@ == sum_values(cts@) % (encoding.modulus as int),
    {
        let m = encoding.modulus;
        let mut acc: u64 = 0;
        let mut i: usize = 0;
        while i < cts.len()
            invariant
                0 <= i <= cts@.len(),
                2 <= m <= 0x8000_0000_0000_0000u64,
                acc < m,
                acc == sum_values(cts@.subrange(0, i as int)) % (m as int),
            decreases cts@.len() - i,
        {
            let v = cts[i].value % m;
            proof {
                let pre = cts@.subrange(0, i as int);
                assert(cts@.subrange(0, i as int + 1).drop_last() =~= pre);
                vstd::arithmetic::div_mod::lemma_add_mod_noop(
                    sum_values(pre),
                    cts@[i as int]@ as int,
                    m as int,
                );
            }
            acc = (acc + v) % m;
            i = i + 1;
        }
        proof {
            assert(cts@.subrange(0, cts@.len() as int) =~= cts@);
        }
        Ciphertext { value: acc, carrier: m }
    }

    /// Homomorphic sum of ciphertexts that share one modulus, staying in it.
    pub fn simple_sum(&self, cts: &Vec<Ciphertext>) -> (r: Ciphertext)
        requires
            cts@.len() >= 1,
            2 <= cts@[0].modulus() <= 0x8000_0000_0000_0000u64,
            forall|i: int|
                0 <= i < cts@.len() ==> (#[trigger] cts@[i]).modulus() == cts@[0].modulus(),
        ensures
            r.modulus() == cts@[0].modulus(),
            r@ == sum_values(cts@) % (cts@[0].modulus() as int),
    {
        let m = cts[0].carrier;
        self.sum(cts, &Encoding { domain_size: m, modulus: m })
    }

    /// Homomorphic sum of a ciphertext with a public plaintext constant.
    pub fn simple_plaintext_sum(&self, c: &Ciphertext, constant: u64, modulus: u64) -> (r:
        Ciphertext)
        requires
            c.modulus() == modulus,
            2 <= modulus <= 0x8000_0000_0000_0000u64,
            c@ < modulus,
            constant < modulus,
        ensures
            r.modulus() == modulus,
            r@ == (c@ + constant) % (modulus as int),
    {
        Ciphertext { value: (c.value + constant) % modulus, carrier: modulus }
    }

    /// Programmable bootstrapping of a single ciphertext: evaluates the
    /// public lookup table on the encrypted value, producing a fresh
    /// ciphertext under the output encoding.
    pub fn bootstrap_lookup(
        &self,
        input: &Ciphertext,
        output_encoding: &Encoding,
        table: &Vec<u8>,
    ) -> (r: Ciphertext)
        requires
            output_encoding.wf(),
            input@ < table@.len(),
            forall|j: int| 0 <= j < table@.len() ==> #[trigger] table@[j] < output_encoding.domain_size,
        ensures
            r.modulus() == output_encoding.modulus,
            r@ == table@[input@ as int] as u64,
    {
        let n: usize = table.len();
        assert(input.value < n as u64);
        let idx: usize = input.value as usize;
        assert(idx as int == input@ as int);
        let t = table[idx];
        Ciphertext { value: t as u64, carrier: output_encoding.modulus }
    }

    /// Programmable bootstrapping over one byte held as two nibble
    /// ciphertexts (high nibble first): evaluates the public 256-entry
    /// lookup table on the encrypted byte and returns the resulting byte as
    /// two fresh nibble ciphertexts.
    pub fn full_tree_bootstrapping(
        &self,
        inputs: &Vec<Ciphertext>,
        input_encodings: &Vec<Encoding>,
        table: &Vec<u8>,
    ) -> (r: Vec<Ciphertext>)
        requires
            inputs@.len() == 2,
            input_encodings@.len() == 2,
            input_encodings@[0] == spec_nibble_encoding(),
            input_encodings@[1] == spec_nibble_encoding(),
            is_nibble(inputs@[0]),
            is_nibble(inputs@[1]),
            table@.len() == 256,
        ensures
            r@.len() == 2,
            is_nibble(r@[0]),
            is_nibble(r@[1]),
            r@[0]@ == table@[16 * inputs@[0]@ + inputs@[1]@] as u64 / 16,
            r@[1]@ == table@[16 * inputs@[0]@ + inputs@[1]@] as u64 % 16,
    {
        let idx: u64 = 16 * inputs[0].value + inputs[1].value;
        let t = table[idx as usize];
        let hi: u64 = t as u64 / 16;
        let lo: u64 = t as u64 % 16;
        assert(hi < 16) by {
            assert(t < 256);
        };
        let mut out: Vec<Ciphertext> = Vec::new();
        out.push(Ciphertext { value: hi, carrier: 17 });
        out.push(Ciphertext { value: lo, carrier: 17 });
        out
    }
}

} // verus!

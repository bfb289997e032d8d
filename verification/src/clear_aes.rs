//! The cleartext AES-CTR oracle and the big-endian counter.
//!
//! The oracle computes the expected keystream blocks with a conventional
//! AES implementation; the homomorphic pipeline's output is checked
//! against it.  The counter arithmetic is shared: a 16-byte big-endian
//! counter incremented block by block, wrapping each byte at 0xff into a
//! carry.

use vstd::prelude::*;

use aes::cipher::generic_array::GenericArray;
use aes::cipher::BlockEncrypt;
use aes::cipher::KeyInit;

use crate::aes_spec::counter_at;
use crate::aes_spec::inc_counter;
use crate::aes_spec::inc_counter_words;
use crate::aes_spec::lemma_inc_counter_trailing;
use crate::aes_spec::lemma_inc_counter_words_trailing;

verus! {

/// The character is an ASCII hexadecimal digit.
pub open spec fn is_hex_digit(c: char) -> bool {
    (48 <= c as u32 && c as u32 <= 57) || (97 <= c as u32 && c as u32 <= 102) || (65 <= c as u32
        && c as u32 <= 70)
}

/// The value of an ASCII hexadecimal digit.
pub open spec fn hex_val(c: char) -> u8 {
    if 48 <= c as u32 && c as u32 <= 57 {
        (c as u32 - 48) as u8
    } else if 97 <= c as u32 && c as u32 <= 102 {
        (c as u32 - 87) as u8
    } else {
        (c as u32 - 55) as u8
    }
}

/// The string is a valid hexadecimal byte string: even length, hex digits
/// only.
pub open spec fn valid_hex(s: Seq<char>) -> bool {
    s.len() % 2 == 0 && forall|i: int| 0 <= i < s.len() ==> is_hex_digit(#[trigger] s[i])
}

/// The bytes a hexadecimal string encodes, two digits per byte.
pub open spec fn hex_bytes(s: Seq<char>) -> Seq<u8> {
    Seq::new(s.len() / 2, |i: int| (16 * hex_val(s[2 * i]) + hex_val(s[2 * i + 1])) as u8)
}

/// Relies on hex::decode: it returns the bytes of the string, high digit
/// first, exactly when the string has even length and only hexadecimal
/// digits (upper or lower case), and an error otherwise.
#[verifier::external_body]
pub(crate) fn hex_decode(s: &str) -> (r: Option<Vec<u8>>)
    ensures
        r is Some <==> valid_hex(s@),
        r matches Some(v) ==> v@ == hex_bytes(s@),
{
    match hex::decode(s) {
        Ok(v) => Some(v),
        Err(_) => None,
    }
}

/// What a conventional AES-128 encryption of one 16-byte block returns;
/// a fixed function of the key and block bytes alone.
pub uninterp spec fn aes128_of(key: Seq<u8>, block: Seq<u8>) -> Seq<u8>;

/// Relies on aes::Aes128 (RustCrypto) with the cipher crate's KeyInit and
/// BlockEncrypt: one-block AES-128 ECB encryption, a pure function of the
/// 16-byte key and 16-byte block, returning 16 bytes.
#[verifier::external_body]
fn aes128_encrypt_block(key: &Vec<u8>, block: &Vec<u8>) -> (r: Vec<u8>)
    requires
        key@.len() == 16,
        block@.len() == 16,
    ensures
        r@.len() == 16,
        r@ == aes128_of(key@, block@),
{
    let cipher = aes::Aes128::new(GenericArray::from_slice(key.as_slice()));
    let mut b = GenericArray::clone_from_slice(block.as_slice());
    cipher.encrypt_block(&mut b);
    b.to_vec()
}

/// Increment a 16-byte array as a big-endian 128-bit counter: trailing
/// 0xff bytes wrap to zero, the first other byte from the right gains one.
pub fn increment_iv_u8(iv: &mut Vec<u8>)
    requires
        old(iv)@.len() == 16,
    ensures
        final(iv)@ == inc_counter(old(iv)@),
{
    let ghost orig = old(iv)@;
    let mut i: usize = 16;
    let mut carrying = true;
    while carrying && i > 0
        invariant
            0 <= i <= 16,
            iv@.len() == 16,
            orig.len() == 16,
            orig == old(iv)@,
            carrying ==> forall|k: int| 0 <= k < i ==> #[trigger] iv@[k] == orig[k],
            carrying ==> forall|k: int| i <= k < 16 ==> #[trigger] iv@[k] == 0,
            carrying ==> forall|k: int| i <= k < 16 ==> #[trigger] orig[k] == 0xff,
            !carrying ==> iv@ == inc_counter(orig),
        decreases (if carrying { 1int } else { 0int }) + i,
    {
        let j = i - 1;
        if iv[j] == 0xff {
            iv.set(j, 0x00);
            i = j;
        } else {
            let v = iv[j];
            iv.set(j, v + 1);
            proof {
                lemma_inc_counter_trailing(orig, i as int);
                let pre = orig.subrange(0, i as int);
                assert(pre.last() == orig[j as int]);
                assert(inc_counter(pre) =~= pre.update(i as int - 1, (orig[j as int] + 1) as u8));
                assert(iv@ =~= inc_counter(pre) + Seq::new((16 - i) as nat, |k: int| 0u8));
            }
            carrying = false;
        }
    }
    proof {
        if carrying {
            lemma_inc_counter_trailing(orig, 0);
            assert(orig.subrange(0, 0) =~= Seq::<u8>::empty());
            assert(iv@ =~= inc_counter(orig));
        }
    }
}

/// The same counter increment over u64 words holding byte values.
pub fn increment_iv_u64(iv: &mut Vec<u64>)
    requires
        old(iv)@.len() == 16,
        forall|k: int| 0 <= k < 16 ==> #[trigger] old(iv)@[k] < u64::MAX,
    ensures
        final(iv)@ == inc_counter_words(old(iv)@),
{
    let ghost orig = old(iv)@;
    let mut i: usize = 16;
    let mut carrying = true;
    while carrying && i > 0
        invariant
            0 <= i <= 16,
            iv@.len() == 16,
            orig.len() == 16,
            orig == old(iv)@,
            forall|k: int| 0 <= k < 16 ==> #[trigger] orig[k] < u64::MAX,
            carrying ==> forall|k: int| 0 <= k < i ==> #[trigger] iv@[k] == orig[k],
            carrying ==> forall|k: int| i <= k < 16 ==> #[trigger] iv@[k] == 0,
            carrying ==> forall|k: int| i <= k < 16 ==> #[trigger] orig[k] == 0xff,
            !carrying ==> iv@ == inc_counter_words(orig),
        decreases (if carrying { 1int } else { 0int }) + i,
    {
        let j = i - 1;
        if iv[j] == 0xff {
            iv.set(j, 0x00);
            i = j;
        } else {
            let v = iv[j];
            iv.set(j, v + 1);
            proof {
                lemma_inc_counter_words_trailing(orig, i as int);
                let pre = orig.subrange(0, i as int);
                assert(pre.last() == orig[j as int]);
                assert(inc_counter_words(pre) =~= pre.update(
                    i as int - 1,
                    (orig[j as int] + 1) as u64,
                ));
                assert(iv@ =~= inc_counter_words(pre) + Seq::new((16 - i) as nat, |k: int| 0u64));
            }
            carrying = false;
        }
    }
    proof {
        if carrying {
            lemma_inc_counter_words_trailing(orig, 0);
            assert(orig.subrange(0, 0) =~= Seq::<u64>::empty());
            assert(iv@ =~= inc_counter_words(orig));
        }
    }
}

/// The cleartext oracle: the first `number_of_outputs` AES-128-CTR
/// keystream blocks for the given hexadecimal key and initial counter.
/// `None` exactly when the key or counter is not a 16-byte hex string.
pub fn clear_aes_ctr(number_of_outputs: usize, iv: &String, key: &String) -> (r: Option<Vec<
    Vec<u8>>>)
    ensures
        r is Some <==> valid_hex(key@) && valid_hex(iv@) && hex_bytes(key@).len() == 16
            && hex_bytes(iv@).len() == 16,
        r matches Some(blocks) ==> {
            &&& blocks@.len() == number_of_outputs
            &&& forall|i: int|
                0 <= i < number_of_outputs ==> (#[trigger] blocks@[i])@ == aes128_of(
                    hex_bytes(key@),
                    counter_at(hex_bytes(iv@), i),
                )
        },
{
    let key_bytes = match hex_decode(key.as_str()) {
        Some(v) => v,
        None => {
            return None;
        },
    };
    let mut iv_bytes = match hex_decode(iv.as_str()) {
        Some(v) => v,
        None => {
            return None;
        },
    };
    if key_bytes.len() != 16 || iv_bytes.len() != 16 {
        return None;
    }
    let mut outputs: Vec<Vec<u8>> = Vec::new();
    let mut i: usize = 0;
    while i < number_of_outputs
        invariant
            0 <= i <= number_of_outputs,
            outputs@.len() == i,
            key_bytes@.len() == 16,
            iv_bytes@.len() == 16,
            key_bytes@ == hex_bytes(key@),
            iv_bytes@ == counter_at(hex_bytes(iv@), i as int),
            forall|k: int|
                0 <= k < i ==> (#[trigger] outputs@[k])@ == aes128_of(
                    hex_bytes(key@),
                    counter_at(hex_bytes(iv@), k),
                ),
        decreases number_of_outputs - i,
    {
        let block = aes128_encrypt_block(&key_bytes, &iv_bytes);
        outputs.push(block);
        increment_iv_u8(&mut iv_bytes);
        proof {
            crate::aes_spec::lemma_inc_counter_len(counter_at(hex_bytes(iv@), i as int));
        }
        i = i + 1;
    }
    Some(outputs)
}

} // verus!

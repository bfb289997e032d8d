// End-to-end: the homomorphic key schedule and block encryption against
// the cleartext oracle and the published AES-128 test vectors.

use hippogriph::backend::gen_keys;
use hippogriph::clear_aes::clear_aes_ctr;
use hippogriph::encrypted_aes::bits_to_bytes;
use hippogriph::encrypted_aes::bytes_to_bits;
use hippogriph::encrypted_aes::encrypted_aes;
use hippogriph::encrypted_aes::encrypted_aes_ctr;
use hippogriph::encrypted_aes::AESStateBoolean;
use hippogriph::key_expansion::encrypted_key_expansion;

fn hex_to_bytes(s: &str) -> Vec<u8> {
    let chars: Vec<u8> = s.as_bytes().to_vec();
    let val = |c: u8| -> u8 {
        match c {
            b'0'..=b'9' => c - b'0',
            b'a'..=b'f' => c - b'a' + 10,
            _ => c - b'A' + 10,
        }
    };
    let mut out = Vec::new();
    let mut i = 0;
    while i < chars.len() {
        out.push(val(chars[i]) * 16 + val(chars[i + 1]));
        i += 2;
    }
    out
}

#[test]
fn key_schedule_matches_standard_vectors() {
    // the key schedule example of the AES standard
    let key = hex_to_bytes("2b7e151628aed2a6abf7158809cf4f3c");
    let (client_key, server_key) = gen_keys();
    let key_bits = bytes_to_bits(&key);
    let key_state = AESStateBoolean::tfhe_encryption_bits(&key_bits, &client_key);
    let round_keys = encrypted_key_expansion(key_state.bits, &server_key);
    assert_eq!(round_keys.len(), 11);
    let mut decrypted: Vec<Vec<u8>> = Vec::new();
    for rk in round_keys {
        let state = AESStateBoolean { bits: rk };
        decrypted.push(bits_to_bytes(&state.tfhe_decryption_bits(&client_key)));
    }
    assert_eq!(decrypted[0], key);
    assert_eq!(decrypted[1], hex_to_bytes("a0fafe1788542cb123a339392a6c7605"));
    assert_eq!(decrypted[2], hex_to_bytes("f2c295f27a96b9435935807a7359f67f"));
    assert_eq!(decrypted[10], hex_to_bytes("d014f9a8c9ee2589e13f0cc8b6630ca6"));
}

#[test]
fn encrypted_aes_matches_standard_block_vector() {
    // the single-block example vector of the AES standard
    let key = hex_to_bytes("000102030405060708090a0b0c0d0e0f");
    let block = hex_to_bytes("00112233445566778899aabbccddeeff");
    let (client_key, server_key) = gen_keys();
    let key_state = AESStateBoolean::tfhe_encryption_bits(&bytes_to_bits(&key), &client_key);
    let round_keys = encrypted_key_expansion(key_state.bits, &server_key);
    let state = AESStateBoolean::tfhe_encryption_bits(&bytes_to_bits(&block), &client_key);
    let result = encrypted_aes(&state, &server_key, &round_keys, &client_key);
    assert_eq!(result, hex_to_bytes("69c4e0d86a7b0430d8cdb78070b4c55a"));
}

#[test]
fn zero_counter_block_matches_oracle() {
    // one block, all-zero counter: homomorphic result equals the oracle
    let key = String::from("000102030405060708090a0b0c0d0e0f");
    let iv = String::from("00000000000000000000000000000000");
    let clear = clear_aes_ctr(1, &iv, &key).unwrap();
    let homomorphic = encrypted_aes_ctr(1, &iv, &key).unwrap();
    assert_eq!(clear.len(), 1);
    assert_eq!(homomorphic, clear);
    assert_eq!(homomorphic[0], hex_to_bytes("c6a13b37878f5b826f4f8162a1c8d879"));
}

#[test]
fn three_blocks_roll_the_counter_over() {
    // counters ...fe, ...ff and 00...00: full rollover across 16 bytes
    let key = String::from("2b7e151628aed2a6abf7158809cf4f3c");
    let iv = String::from("fffffffffffffffffffffffffffffffe");
    let clear = clear_aes_ctr(3, &iv, &key).unwrap();
    let homomorphic = encrypted_aes_ctr(3, &iv, &key).unwrap();
    assert_eq!(clear.len(), 3);
    assert_eq!(homomorphic, clear);
    // each block equals the oracle for its own counter value
    let c0 = clear_aes_ctr(1, &String::from("fffffffffffffffffffffffffffffffe"), &key).unwrap();
    let c1 = clear_aes_ctr(1, &String::from("ffffffffffffffffffffffffffffffff"), &key).unwrap();
    let c2 = clear_aes_ctr(1, &String::from("00000000000000000000000000000000"), &key).unwrap();
    assert_eq!(homomorphic[0], c0[0]);
    assert_eq!(homomorphic[1], c1[0]);
    assert_eq!(homomorphic[2], c2[0]);
}

#[test]
fn several_counters_match_oracle() {
    let key = String::from("8899aabbccddeeff0011223344556677");
    let iv = String::from("000000000000000000000000000000f9");
    let clear = clear_aes_ctr(10, &iv, &key).unwrap();
    let homomorphic = encrypted_aes_ctr(10, &iv, &key).unwrap();
    assert_eq!(clear.len(), 10);
    assert_eq!(homomorphic, clear);
}

#[test]
fn hex_decoding_is_case_insensitive() {
    let lower = String::from("000102030405060708090a0b0c0d0e0f");
    let upper = String::from("000102030405060708090A0B0C0D0E0F");
    let iv = String::from("00000000000000000000000000000000");
    assert_eq!(clear_aes_ctr(1, &iv, &lower), clear_aes_ctr(1, &iv, &upper));
}

#[test]
fn invalid_hex_key_is_rejected() {
    let iv = String::from("00000000000000000000000000000000");
    // a non-hex character
    let bad = String::from("zz0102030405060708090a0b0c0d0e0f");
    assert!(clear_aes_ctr(1, &iv, &bad).is_none());
    assert!(encrypted_aes_ctr(1, &iv, &bad).is_none());
    // odd length
    let odd = String::from("00102030405060708090a0b0c0d0e0f");
    assert!(clear_aes_ctr(1, &iv, &odd).is_none());
    assert!(encrypted_aes_ctr(1, &iv, &odd).is_none());
    // valid hex of the wrong length
    let short = String::from("0001");
    assert!(clear_aes_ctr(1, &iv, &short).is_none());
    assert!(encrypted_aes_ctr(1, &iv, &short).is_none());
}

#[test]
fn invalid_hex_iv_is_rejected() {
    let key = String::from("000102030405060708090a0b0c0d0e0f");
    let bad = String::from("0000000000000000000000000000000g");
    assert!(clear_aes_ctr(1, &bad, &key).is_none());
    assert!(encrypted_aes_ctr(1, &bad, &key).is_none());
}

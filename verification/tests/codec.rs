// Encoding conversions: recompose/decompose round trips and the S-box
// table, exercised with the real backend model.

use hippogriph::backend::gen_keys;
use hippogriph::backend::Ciphertext;
use hippogriph::casts::decomposer;
use hippogriph::casts::recomposer;
use hippogriph::clear::clear_sub_bytes;
use hippogriph::clear::sbox_table;
use hippogriph::aes_spec::ROUND_CONSTANTS;
use hippogriph::aes_spec::SBOX;
use hippogriph::Encoding;

#[test]
fn sbox_spot_values() {
    assert_eq!(SBOX[0x00], 0x63);
    assert_eq!(SBOX[0x01], 0x7c);
    assert_eq!(SBOX[0x53], 0xed);
    assert_eq!(SBOX[0xff], 0x16);
    assert_eq!(clear_sub_bytes(0x53), 0xed);
    assert_eq!(clear_sub_bytes(0x00), 0x63);
}

#[test]
fn sbox_table_matches_constant() {
    let t = sbox_table();
    assert_eq!(t.len(), 256);
    for i in 0..256 {
        assert_eq!(t[i], SBOX[i]);
    }
}

#[test]
fn round_constants_are_standard() {
    let expected: [u8; 11] = [0x00, 0x01, 0x02, 0x04, 0x08, 0x10, 0x20, 0x40, 0x80, 0x1b, 0x36];
    for i in 0..11 {
        assert_eq!(ROUND_CONSTANTS[i], expected[i]);
    }
}

#[test]
fn recompose_decompose_nibble_roundtrip() {
    let (client_key, server_key) = gen_keys();
    let parity = Encoding::parity_encoding();
    let arithmetic = Encoding::new_canonical(16, 17);
    for n in 0..16u64 {
        let nibble = client_key.encrypt_arithmetic(n, &arithmetic);
        let bits = decomposer(&nibble, &parity, &server_key);
        assert_eq!(bits.len(), 4);
        for k in 0..4 {
            let expected = (n >> (3 - k)) & 1;
            assert_eq!(client_key.decrypt(&bits[k as usize]), expected);
        }
        let back = recomposer(&bits, &arithmetic, &server_key);
        assert_eq!(client_key.decrypt(&back), n);
    }
}

#[test]
fn decompose_recompose_bits_roundtrip() {
    let (client_key, server_key) = gen_keys();
    let parity = Encoding::parity_encoding();
    let arithmetic = Encoding::new_canonical(16, 17);
    for n in 0..16u64 {
        let mut bits: Vec<Ciphertext> = Vec::new();
        for k in 0..4 {
            bits.push(client_key.encrypt_arithmetic((n >> (3 - k)) & 1, &parity));
        }
        let nibble = recomposer(&bits, &arithmetic, &server_key);
        assert_eq!(client_key.decrypt(&nibble), n);
        let back = decomposer(&nibble, &parity, &server_key);
        for k in 0..4 {
            assert_eq!(client_key.decrypt(&back[k]), (n >> (3 - k as u64)) & 1);
        }
    }
}

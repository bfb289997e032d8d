// The homomorphic round steps, one at a time: each decrypts to the
// textbook transformation of its input state.

use hippogriph::backend::gen_keys;
use hippogriph::backend::ClientKey;
use hippogriph::encrypted_aes::add_round_key;
use hippogriph::encrypted_aes::bits_to_bytes;
use hippogriph::encrypted_aes::bytes_to_bits;
use hippogriph::encrypted_aes::mix_columns;
use hippogriph::encrypted_aes::shift_rows;
use hippogriph::encrypted_aes::sub_bytes;
use hippogriph::encrypted_aes::AESStateBoolean;
use hippogriph::linear_circuit::LinearCircuit;
use hippogriph::Encoding;

fn state_from_bytes(bytes: &[u8], client_key: &ClientKey) -> AESStateBoolean {
    let v: Vec<u8> = bytes.to_vec();
    let bits = bytes_to_bits(&v);
    AESStateBoolean::tfhe_encryption_bits(&bits, client_key)
}

fn state_to_bytes(state: &AESStateBoolean, client_key: &ClientKey) -> Vec<u8> {
    bits_to_bytes(&state.tfhe_decryption_bits(client_key))
}

#[test]
fn encryption_decryption_roundtrip() {
    let (client_key, _server_key) = gen_keys();
    let bytes: Vec<u8> = (0..16).map(|i| (i * 17 + 3) as u8).collect();
    let state = state_from_bytes(&bytes, &client_key);
    assert_eq!(state_to_bytes(&state, &client_key), bytes);
}

#[test]
fn square_getter_addresses_column_major_bits() {
    let (client_key, _server_key) = gen_keys();
    // byte at (row, col) has value col * 4 + row, so its bits are known
    let mut bytes: Vec<u8> = vec![0; 16];
    for col in 0..4 {
        for row in 0..4 {
            bytes[col * 4 + row] = (col * 4 + row) as u8;
        }
    }
    let state = state_from_bytes(&bytes, &client_key);
    for col in 0..4 {
        for row in 0..4 {
            for bit in 0..8 {
                let c = state.square_getter(row, col, bit);
                let byte = (col * 4 + row) as u8;
                let expected = ((byte >> (7 - bit)) & 1) as u64;
                assert_eq!(client_key.decrypt(c), expected);
            }
        }
    }
}

#[test]
fn state_conversion_roundtrip() {
    let (client_key, server_key) = gen_keys();
    let bytes: Vec<u8> = (0..16).map(|i| (31 * i + 7) as u8).collect();
    let state = state_from_bytes(&bytes, &client_key);
    let arith = state.aes_recomposer(&server_key);
    let back = arith.aes_decomposer(&server_key);
    assert_eq!(state_to_bytes(&back, &client_key), bytes);
}

#[test]
fn sub_bytes_substitutes_every_byte() {
    let (client_key, server_key) = gen_keys();
    let bytes: Vec<u8> = (0..16).map(|i| (i * 13) as u8).collect();
    let state = state_from_bytes(&bytes, &client_key);
    let arith = state.aes_recomposer(&server_key);
    let subbed = sub_bytes(&arith, &server_key);
    let out = state_to_bytes(&subbed.aes_decomposer(&server_key), &client_key);
    for i in 0..16 {
        assert_eq!(out[i], hippogriph::aes_spec::SBOX[bytes[i] as usize]);
    }
}

#[test]
fn shift_rows_rotates_each_row() {
    let (client_key, _server_key) = gen_keys();
    let bytes: Vec<u8> = (0..16).map(|i| i as u8).collect();
    let state = state_from_bytes(&bytes, &client_key);
    let shifted = shift_rows(&state);
    let out = state_to_bytes(&shifted, &client_key);
    for col in 0..4 {
        for row in 0..4 {
            // the byte at (row, col) comes from (row, col + row)
            assert_eq!(out[col * 4 + row], bytes[((col + row) % 4) * 4 + row]);
        }
    }
}

#[test]
fn mix_columns_matches_standard_vector() {
    let (client_key, server_key) = gen_keys();
    // a known MixColumns test column followed by three zero columns
    let mut bytes: Vec<u8> = vec![0; 16];
    bytes[0] = 0xd4;
    bytes[1] = 0xbf;
    bytes[2] = 0x5d;
    bytes[3] = 0x30;
    let state = state_from_bytes(&bytes, &client_key);
    let mixed = mix_columns(&state, &server_key);
    let out = state_to_bytes(&mixed, &client_key);
    assert_eq!(&out[0..4], &[0x04, 0x66, 0x81, 0xe5]);
    assert_eq!(&out[4..16], &[0u8; 12][..]);
}

#[test]
fn linear_circuit_computes_one_column() {
    let (client_key, server_key) = gen_keys();
    let column: Vec<u8> = vec![0xdb, 0x13, 0x53, 0x45];
    let bits = bytes_to_bits(&column);
    let parity = Encoding::parity_encoding();
    let mut cts = Vec::new();
    for b in 0..bits.len() {
        cts.push(client_key.encrypt_arithmetic(bits[b], &parity));
    }
    let mut circuit = LinearCircuit::new(&cts);
    circuit.execute_circuit(&server_key);
    let mut out_bits: Vec<u64> = Vec::new();
    for c in 0..32 {
        out_bits.push(client_key.decrypt(&circuit.y[c]));
    }
    let out = bits_to_bytes(&out_bits);
    assert_eq!(out, vec![0x8e, 0x4d, 0xa1, 0xbc]);
}

#[test]
fn add_round_key_is_bitwise_xor() {
    let (client_key, server_key) = gen_keys();
    let a: Vec<u8> = (0..16).map(|i| (i * 7 + 1) as u8).collect();
    let b: Vec<u8> = (0..16).map(|i| (255 - i * 9) as u8).collect();
    let state = state_from_bytes(&a, &client_key);
    let key_state = state_from_bytes(&b, &client_key);
    let xored = add_round_key(&state, &key_state.bits, &server_key);
    let out = state_to_bytes(&xored, &client_key);
    for i in 0..16 {
        assert_eq!(out[i], a[i] ^ b[i]);
    }
}

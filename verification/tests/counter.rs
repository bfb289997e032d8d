// The big-endian counter: per-byte wrap, carry propagation, and the full
// rollover of an all-0xff counter.

use hippogriph::clear_aes::increment_iv_u8;
use hippogriph::clear_aes::increment_iv_u64;

#[test]
fn increment_simple() {
    let mut iv: Vec<u8> = vec![0; 16];
    increment_iv_u8(&mut iv);
    let mut expected: Vec<u8> = vec![0; 16];
    expected[15] = 1;
    assert_eq!(iv, expected);
}

#[test]
fn increment_carries_through_trailing_ff() {
    let mut iv: Vec<u8> = vec![0; 16];
    iv[13] = 0x01;
    iv[14] = 0xff;
    iv[15] = 0xff;
    increment_iv_u8(&mut iv);
    let mut expected: Vec<u8> = vec![0; 16];
    expected[13] = 0x02;
    assert_eq!(iv, expected);
}

#[test]
fn increment_all_ff_wraps_to_zero() {
    let mut iv: Vec<u8> = vec![0xff; 16];
    increment_iv_u8(&mut iv);
    assert_eq!(iv, vec![0x00; 16]);
}

#[test]
fn increment_u64_simple() {
    let mut iv: Vec<u64> = vec![0; 16];
    increment_iv_u64(&mut iv);
    let mut expected: Vec<u64> = vec![0; 16];
    expected[15] = 1;
    assert_eq!(iv, expected);
}

#[test]
fn increment_u64_all_ff_wraps_to_zero() {
    let mut iv: Vec<u64> = vec![0xff; 16];
    increment_iv_u64(&mut iv);
    assert_eq!(iv, vec![0u64; 16]);
}

#[test]
fn increment_u64_carries() {
    let mut iv: Vec<u64> = vec![0; 16];
    iv[14] = 0x42;
    iv[15] = 0xff;
    increment_iv_u64(&mut iv);
    let mut expected: Vec<u64> = vec![0; 16];
    expected[14] = 0x43;
    assert_eq!(iv, expected);
}

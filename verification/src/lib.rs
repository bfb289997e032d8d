//! Homomorphic evaluation of AES-128 in counter mode.
//!
//! A 128-bit counter block is encrypted bit by bit and pushed through the ten
//! AES rounds without ever being decrypted: the linear steps (ShiftRows,
//! MixColumns, AddRoundKey) act on a boolean state of 128 bit ciphertexts,
//! while SubBytes acts on an arithmetic state of 32 nibble ciphertexts via
//! programmable lookup tables.  The key schedule is evaluated homomorphically
//! as well.  Every step carries a contract relating the decrypted state to
//! the textbook AES-128 transformation, so the whole pipeline is proved to
//! compute AES-128 on the underlying plaintexts.

pub mod aes_spec;
pub mod backend;
pub mod bits;
pub mod casts;
pub mod clear;
pub mod clear_aes;
pub mod encrypted_aes;
pub mod key_expansion;
pub mod linear_circuit;
mod parallel;

pub use backend::Ciphertext;
pub use backend::ClientKey;
pub use backend::Encoding;
pub use backend::ServerKey;

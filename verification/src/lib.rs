//! An "Enhanced DES" block cipher: a 16-round Feistel network over 8-byte
//! blocks, whose round substitution tables are derived deterministically from
//! a 32-byte key, combined with PKCS#7-style padding under ECB processing.
//!
//! The cipher is bespoke and makes no security claim; the library's point is
//! that the algorithm is specified and machine-checked: S-box generation
//! yields permutations, encryption pads to a positive multiple of the block
//! size, and decryption exactly inverts encryption.

pub mod edes;
pub mod errors;
pub mod feistel;
pub mod padding;
pub mod sbox;

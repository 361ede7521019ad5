//! Deterministic promoter generation, the fingerprint built on it, and the
//! passphrase-derived key and keystream cipher.

pub mod digest;
pub mod engine;
pub mod keys;
pub mod primitives;
pub mod queue;
pub mod seed;
pub mod signature;

pub use digest::p_hash;
pub use keys::{decrypt, encrypt, generate_keypair, EncryptedPackage, PrivateKey, PublicKey};

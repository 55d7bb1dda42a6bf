//! The Paillier additively homomorphic public-key cryptosystem over
//! arbitrary-precision integers, with its arithmetic contracts proved.
//!
//! Integers are `num_bigint::BigInt`. GMP, which `rug` binds, cannot be built
//! in this project's build environment, so the pure-Rust `num-bigint` stands
//! in for it. One thing is lost with that: `BigInt::modpow` does not promise
//! to run in time independent of its operands, as GMP's `secure_pow_mod`
//! does, so exponentiation by the secret `lambda` is not side-channel hardened.

pub mod cipher;
pub mod error;
mod integer;
pub mod keys;
pub mod laws;
pub mod math;
pub mod sampling;

pub use cipher::{
    check_homomorphism, decrypt, encrypt, encrypt_with_blinding, verify_homomorphism,
    VerificationReport,
};
pub use error::{Law, PaillierError};
pub use integer::value_of;
pub use keys::{generate_keypair, keypair_from_primes, PrivateKey, PublicKey};
pub use sampling::{
    accept_coprime, random_below, random_below_coprime, sample_buffer, value_from_bytes,
    SAMPLING_ATTEMPTS,
};

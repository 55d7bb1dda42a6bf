use vstd::prelude::*;

verus! {

/// The algebraic laws that a key pair is checked against.
#[derive(Debug, Clone, Copy, PartialEq, Eq, Structural)]
pub enum Law {
    /// Each plaintext decrypts back from its own ciphertext.
    RoundTrip,
    /// The product of two ciphertexts decrypts to the sum of the plaintexts.
    CiphertextProduct,
    /// A ciphertext times `g^m2` decrypts to the sum of the plaintexts.
    GeneratorPower,
    /// The first ciphertext raised to the second plaintext decrypts to their product.
    FirstScaled,
    /// The second ciphertext raised to the first plaintext decrypts to their product.
    SecondScaled,
}

/// Everything that can go wrong in key generation, encryption, decryption
/// and the homomorphism check.
#[derive(Debug, Clone, Copy, PartialEq, Eq, Structural)]
pub enum PaillierError {
    /// The plaintext is not in `[0, n)`.
    PlaintextOutOfRange,
    /// The ciphertext is not in `[0, n^2)`.
    CiphertextOutOfRange,
    /// The primes are unusable or `L(g^lambda mod n^2)` has no inverse modulo `n`.
    KeyGenerationFailure,
    /// `g^lambda mod n^2` is not congruent to one modulo `n`.
    KeyGenerationInvariantViolation,
    /// Rejection sampling ran out of attempts.
    RandomSamplingExhausted,
    /// The named law failed on the sampled ciphertexts.
    HomomorphismViolation(Law),
}

} // verus!

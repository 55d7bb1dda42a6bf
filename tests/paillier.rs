use num_bigint::BigInt;
use paillier::{
    accept_coprime, sample_buffer, value_from_bytes,
    check_homomorphism, decrypt, encrypt, encrypt_with_blinding, generate_keypair,
    keypair_from_primes, random_below, random_below_coprime, verify_homomorphism, Law,
    PaillierError, PrivateKey, PublicKey,
};
use ring::rand::SystemRandom;

fn big(v: i64) -> BigInt {
    BigInt::from(v)
}

fn small_keys() -> (PublicKey, PrivateKey) {
    keypair_from_primes(&big(11), &big(13), &big(144)).unwrap()
}

#[test]
fn small_primes_give_expected_keys() {
    let (pk, sk) = small_keys();
    assert_eq!(pk.n, big(143));
    assert_eq!(pk.g, big(144));
    assert_eq!(sk.lambda, big(60));
    assert_eq!(sk.mu, big(31));
}

#[test]
fn generator_two_gives_expected_mu() {
    let (pk, sk) = keypair_from_primes(&big(11), &big(13), &big(2)).unwrap();
    assert_eq!(pk.g, big(2));
    assert_eq!(sk.lambda, big(60));
    assert_eq!(sk.mu, big(25));
}

#[test]
fn encryption_with_fixed_blinding_is_exact() {
    let (pk, _) = small_keys();
    assert_eq!(encrypt_with_blinding(&big(5), &pk, &big(2)), Ok(big(13098)));
    assert_eq!(encrypt_with_blinding(&big(3), &pk, &big(7)), Ok(big(7867)));
}

#[test]
fn decryption_of_fixed_ciphertexts_is_exact() {
    let (pk, sk) = small_keys();
    assert_eq!(decrypt(&big(13098), &sk, &pk.n), Ok(big(5)));
    assert_eq!(decrypt(&big(7867), &sk, &pk.n), Ok(big(3)));
    assert_eq!(decrypt(&big((13098 * 7867) % 20449), &sk, &pk.n), Ok(big(8)));
}

#[test]
fn small_key_round_trip_and_sum() {
    let rng = SystemRandom::new();
    let (pk, sk) = small_keys();
    let c5 = encrypt(&big(5), &pk, &rng).unwrap();
    let c3 = encrypt(&big(3), &pk, &rng).unwrap();
    assert_eq!(decrypt(&c5, &sk, &pk.n), Ok(big(5)));
    assert_eq!(decrypt(&c3, &sk, &pk.n), Ok(big(3)));
    let product = (&c3 * &c5) % big(20449);
    assert_eq!(decrypt(&product, &sk, &pk.n), Ok(big(8)));
}

#[test]
fn every_small_plaintext_round_trips() {
    let rng = SystemRandom::new();
    let (pk, sk) = small_keys();
    for m in 0..143 {
        let c = encrypt(&big(m), &pk, &rng).unwrap();
        assert!(c >= big(0) && c < big(20449));
        assert_eq!(decrypt(&c, &sk, &pk.n), Ok(big(m)));
    }
}

#[test]
fn plaintext_at_modulus_is_rejected() {
    let rng = SystemRandom::new();
    let (pk, _) = small_keys();
    assert_eq!(encrypt(&big(143), &pk, &rng), Err(PaillierError::PlaintextOutOfRange));
    assert_eq!(
        encrypt_with_blinding(&big(143), &pk, &big(2)),
        Err(PaillierError::PlaintextOutOfRange)
    );
}

#[test]
fn negative_plaintext_is_rejected() {
    let rng = SystemRandom::new();
    let (pk, _) = small_keys();
    assert_eq!(encrypt(&big(-1), &pk, &rng), Err(PaillierError::PlaintextOutOfRange));
}

#[test]
fn ciphertext_out_of_range_is_rejected() {
    let (pk, sk) = small_keys();
    assert_eq!(decrypt(&big(20449), &sk, &pk.n), Err(PaillierError::CiphertextOutOfRange));
    assert_eq!(decrypt(&big(-1), &sk, &pk.n), Err(PaillierError::CiphertextOutOfRange));
    assert!(decrypt(&big(20448), &sk, &pk.n).is_ok());
}

#[test]
fn equal_primes_violate_the_key_invariant() {
    let r = keypair_from_primes(&big(3), &big(3), &big(2));
    assert!(matches!(r, Err(PaillierError::KeyGenerationInvariantViolation)));
}

#[test]
fn generator_one_has_no_inverse() {
    let r = keypair_from_primes(&big(11), &big(13), &big(1));
    assert!(matches!(r, Err(PaillierError::KeyGenerationFailure)));
}

#[test]
fn sampling_stays_below_bound() {
    let rng = SystemRandom::new();
    for _ in 0..200 {
        let x = random_below(&big(1000), &rng).unwrap();
        assert!(x >= big(0) && x < big(1000));
        let y = random_below_coprime(&big(143), &big(143), &rng).unwrap();
        assert!(y >= big(0) && y < big(143));
        assert!(&y % big(11) != big(0) && &y % big(13) != big(0));
    }
}

#[test]
fn sampling_with_bound_one_gives_zero() {
    let rng = SystemRandom::new();
    assert_eq!(random_below(&big(1), &rng), Ok(big(0)));
}

#[test]
fn sampling_gives_up_on_degenerate_modulus() {
    let rng = SystemRandom::new();
    assert_eq!(
        random_below_coprime(&big(1), &big(2), &rng),
        Err(PaillierError::RandomSamplingExhausted)
    );
}

#[test]
fn generated_keys_round_trip() {
    let rng = SystemRandom::new();
    let (pk, sk) = generate_keypair(64, &rng).unwrap();
    let m = big(123456789);
    let c = encrypt(&m, &pk, &rng).unwrap();
    assert_eq!(decrypt(&c, &sk, &pk.n), Ok(m));
}

#[test]
fn encryption_is_probabilistic() {
    let rng = SystemRandom::new();
    let (pk, sk) = generate_keypair(64, &rng).unwrap();
    let m = big(42);
    let c1 = encrypt(&m, &pk, &rng).unwrap();
    let c2 = encrypt(&m, &pk, &rng).unwrap();
    assert_ne!(c1, c2);
    assert_eq!(decrypt(&c1, &sk, &pk.n), Ok(m.clone()));
    assert_eq!(decrypt(&c2, &sk, &pk.n), Ok(m));
}

#[test]
fn generated_keys_pass_homomorphism_check() {
    let rng = SystemRandom::new();
    let (pk, sk) = generate_keypair(64, &rng).unwrap();
    let rep = verify_homomorphism(&big(1234), &big(5678), &pk, &sk, &rng).unwrap();
    assert!(rep.all_hold());
}

#[test]
fn small_keys_pass_homomorphism_check() {
    let rng = SystemRandom::new();
    let (pk, sk) = small_keys();
    let rep = verify_homomorphism(&big(100), &big(77), &pk, &sk, &rng).unwrap();
    assert!(rep.round_trip && rep.ciphertext_product && rep.generator_power);
    assert!(rep.first_scaled && rep.second_scaled);
    let zero = verify_homomorphism(&big(0), &big(0), &pk, &sk, &rng).unwrap();
    assert!(zero.all_hold());
}

#[test]
fn homomorphism_check_rejects_out_of_range_plaintext() {
    let rng = SystemRandom::new();
    let (pk, sk) = small_keys();
    assert!(matches!(
        verify_homomorphism(&big(143), &big(1), &pk, &sk, &rng),
        Err(PaillierError::PlaintextOutOfRange)
    ));
}

#[test]
fn homomorphism_check_names_failing_law() {
    let rng = SystemRandom::new();
    let (pk, _) = small_keys();
    let wrong = PrivateKey { lambda: big(60), mu: big(30) };
    assert!(matches!(
        verify_homomorphism(&big(5), &big(3), &pk, &wrong, &rng),
        Err(PaillierError::HomomorphismViolation(Law::RoundTrip))
    ));
}

#[test]
fn report_records_each_law() {
    let (pk, sk) = small_keys();
    let good = check_homomorphism(&big(5), &big(3), &pk, &sk, &big(13098), &big(7867));
    assert!(good.all_hold());
    let bad = check_homomorphism(&big(5), &big(3), &pk, &sk, &big(13098), &big(1));
    assert!(!bad.round_trip);
    assert!(!bad.ciphertext_product);
    assert!(bad.generator_power);
    assert!(bad.first_scaled);
    assert!(!bad.second_scaled);
}

#[test]
fn generator_power_adds_on_small_key() {
    let (pk, sk) = small_keys();
    let nsq = big(20449);
    let c = (big(13098) * big(144).modpow(&big(3), &nsq)) % &nsq;
    assert_eq!(c, big(8665));
    assert_eq!(decrypt(&c, &sk, &pk.n), Ok(big(8)));
}

#[test]
fn ciphertext_power_scales_on_small_key() {
    let (pk, sk) = small_keys();
    let nsq = big(20449);
    let s1 = big(13098).modpow(&big(3), &nsq);
    let s2 = big(7867).modpow(&big(5), &nsq);
    assert_eq!(decrypt(&s1, &sk, &pk.n), Ok(big(15)));
    assert_eq!(decrypt(&s2, &sk, &pk.n), Ok(big(15)));
}

#[test]
fn sums_wrap_modulo_n() {
    let (pk, sk) = small_keys();
    let a = encrypt_with_blinding(&big(100), &pk, &big(5)).unwrap();
    let b = encrypt_with_blinding(&big(100), &pk, &big(9)).unwrap();
    let c = (&a * &b) % big(20449);
    assert_eq!(decrypt(&c, &sk, &pk.n), Ok(big(57)));
}

#[test]
fn generated_keys_round_trip_many_plaintexts() {
    let rng = SystemRandom::new();
    let (pk, sk) = generate_keypair(64, &rng).unwrap();
    let top = &pk.n - big(1);
    for m in [big(0), big(1), big(2), big(65535), top] {
        let c = encrypt(&m, &pk, &rng).unwrap();
        assert_eq!(decrypt(&c, &sk, &pk.n), Ok(m));
    }
    assert_eq!(encrypt(&pk.n, &pk, &rng), Err(PaillierError::PlaintextOutOfRange));
}

#[test]
fn bytes_are_read_little_endian_and_rejected_at_bound() {
    assert_eq!(value_from_bytes(vec![200], 0, &big(143)), None);
    assert_eq!(value_from_bytes(vec![5], 0, &big(143)), Some(big(5)));
    assert_eq!(value_from_bytes(vec![0x34, 0x12], 0, &big(100000)), Some(big(0x1234)));
    assert_eq!(value_from_bytes(vec![], 0, &big(1)), Some(big(0)));
}

#[test]
fn bits_above_bound_width_are_cleared() {
    // 5 has three significant bits: only the low three bits of the top byte count.
    assert_eq!(value_from_bytes(vec![0xfa], 3, &big(5)), Some(big(2)));
    assert_eq!(value_from_bytes(vec![0xfd], 3, &big(5)), None);
    assert_eq!(value_from_bytes(vec![0xff, 0xff], 1, &big(500)), None);
    assert_eq!(value_from_bytes(vec![0xff, 0xff], 1, &big(1000)), Some(big(511)));
    assert_eq!(value_from_bytes(vec![0xff, 0xfe], 1, &big(1000)), Some(big(255)));
}

#[test]
fn sample_buffer_is_as_wide_as_the_bound() {
    assert_eq!(sample_buffer(0).len(), 0);
    assert_eq!(sample_buffer(1).len(), 1);
    assert_eq!(sample_buffer(8).len(), 1);
    assert_eq!(sample_buffer(9).len(), 2);
    assert!(sample_buffer(17).iter().all(|b| *b == 0));
}

#[test]
fn coprime_samples_are_accepted() {
    assert_eq!(accept_coprime(big(7), &big(143)), Some(big(7)));
    assert_eq!(accept_coprime(big(26), &big(143)), None);
    assert_eq!(accept_coprime(big(0), &big(143)), None);
}

#[test]
fn non_positive_bound_is_an_error() {
    let rng = SystemRandom::new();
    assert_eq!(random_below(&big(0), &rng), Err(PaillierError::RandomSamplingExhausted));
    assert_eq!(random_below(&big(-5), &rng), Err(PaillierError::RandomSamplingExhausted));
    assert_eq!(
        random_below_coprime(&big(0), &big(7), &rng),
        Err(PaillierError::RandomSamplingExhausted)
    );
}

#[test]
fn unusable_primes_fail_key_generation() {
    assert!(matches!(
        keypair_from_primes(&big(4), &big(13), &big(1)),
        Err(PaillierError::KeyGenerationFailure)
    ));
    assert!(matches!(
        keypair_from_primes(&big(1), &big(13), &big(2)),
        Err(PaillierError::KeyGenerationFailure)
    ));
}

#[test]
fn residue_zero_decrypts_to_zero() {
    let (pk, sk) = small_keys();
    assert_eq!(decrypt(&big(0), &sk, &pk.n), Ok(big(0)));
    assert_eq!(decrypt(&big(143), &sk, &pk.n), Ok(big(0)));
}

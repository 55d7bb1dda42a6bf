use crate::error::{Law, PaillierError};
use crate::integer::{big_add, big_div_rem_euc, big_eq, big_from_i64, big_lt, big_mul, big_pow_mod, big_sub, value_of};
use crate::keys::{ell, PrivateKey, PublicKey};
use crate::math::{abs, gcd};
use crate::sampling::random_below_coprime;
use num_bigint::BigInt;
use ring::rand::SystemRandom;
use vstd::arithmetic::div_mod::lemma_mul_mod_noop;
use vstd::arithmetic::power::pow;
use vstd::prelude::*;

verus! {

/// `g^m * r^n mod n^2`: the ciphertext of `m` under blinding factor `r`.
pub open spec fn encrypt_value(m: int, n: int, g: int, r: int) -> int {
    (pow(g, m as nat) * pow(r, n as nat)) % (n * n)
}

/// `L(c^lambda mod n^2) * mu mod n`: the plaintext that `c` decrypts to.
pub open spec fn decrypt_value(c: int, lambda: int, mu: int, n: int) -> int {
    (ell(pow(c, lambda as nat) % (n * n), n) * mu) % n
}

/// `c` is an encryption of `m` under `pk` with some blinding factor from
/// `[0, n)` coprime to `n`.
pub open spec fn is_encryption(pk: PublicKey, m: int, c: int) -> bool {
    exists|r: int|
        0 <= r < pk.n_val() && gcd(r as nat, pk.n_val() as nat) == 1 && c
            == #[trigger] encrypt_value(m, pk.n_val(), pk.g_val(), r)
}

/// `c1` and `c2` are encryptions of `m1` and `m2` under `pk`.
pub open spec fn encryption_pair(pk: PublicKey, m1: int, m2: int, c1: int, c2: int) -> bool {
    is_encryption(pk, m1, c1) && is_encryption(pk, m2, c2)
}

/// Whether `law` holds of plaintexts `m1`, `m2` and their ciphertexts `c1`,
/// `c2` under the key pair.
pub open spec fn law_holds(
    law: Law,
    pk: PublicKey,
    sk: PrivateKey,
    m1: int,
    m2: int,
    c1: int,
    c2: int,
) -> bool {
    let n = pk.n_val();
    let nsq = n * n;
    let dec = |c: int| decrypt_value(c, sk.lambda_val(), sk.mu_val(), n);
    match law {
        Law::RoundTrip => dec(c1) == m1 && dec(c2) == m2,
        Law::CiphertextProduct => dec((c1 * c2) % nsq) == (m1 + m2) % n,
        Law::GeneratorPower => dec(((c1 % nsq) * (pow(pk.g_val(), m2 as nat) % nsq)) % nsq) == (m1
            + m2) % n,
        Law::FirstScaled => dec(pow(c1, m2 as nat) % nsq) == (m1 * m2) % n,
        Law::SecondScaled => dec(pow(c2, m1 as nat) % nsq) == (m1 * m2) % n,
    }
}

/// The first law, in the order of `Law`, that fails on `c1` and `c2`.
pub open spec fn first_failing(
    pk: PublicKey,
    sk: PrivateKey,
    m1: int,
    m2: int,
    c1: int,
    c2: int,
) -> Option<Law> {
    let holds = |law: Law| law_holds(law, pk, sk, m1, m2, c1, c2);
    if !holds(Law::RoundTrip) {
        Some(Law::RoundTrip)
    } else if !holds(Law::CiphertextProduct) {
        Some(Law::CiphertextProduct)
    } else if !holds(Law::GeneratorPower) {
        Some(Law::GeneratorPower)
    } else if !holds(Law::FirstScaled) {
        Some(Law::FirstScaled)
    } else if !holds(Law::SecondScaled) {
        Some(Law::SecondScaled)
    } else {
        None
    }
}

/// The verdict that `first_failing` calls for: a report in which every law
/// held, or the violation of the law that failed first.
pub open spec fn verdict(res: Result<VerificationReport, PaillierError>, fail: Option<Law>) -> bool {
    match fail {
        None => res.is_ok() && forall|law: Law| #[trigger] res.unwrap().outcome(law),
        Some(law) => res == Err::<VerificationReport, PaillierError>(
            PaillierError::HomomorphismViolation(law),
        ),
    }
}

/// The outcome of each law on one pair of plaintexts and ciphertexts.
pub struct VerificationReport {
    pub round_trip: bool,
    pub ciphertext_product: bool,
    pub generator_power: bool,
    pub first_scaled: bool,
    pub second_scaled: bool,
}

impl VerificationReport {
    /// The outcome recorded for `law`.
    pub open spec fn outcome(&self, law: Law) -> bool {
        match law {
            Law::RoundTrip => self.round_trip,
            Law::CiphertextProduct => self.ciphertext_product,
            Law::GeneratorPower => self.generator_power,
            Law::FirstScaled => self.first_scaled,
            Law::SecondScaled => self.second_scaled,
        }
    }

    /// Whether every law held.
    pub fn all_hold(&self) -> (r: bool)
        ensures
            r == forall|law: Law| #[trigger] self.outcome(law),
    {
        let r = self.round_trip && self.ciphertext_product && self.generator_power
            && self.first_scaled && self.second_scaled;
        proof {
            if !r {
                if !self.round_trip {
                    assert(!self.outcome(Law::RoundTrip));
                } else if !self.ciphertext_product {
                    assert(!self.outcome(Law::CiphertextProduct));
                } else if !self.generator_power {
                    assert(!self.outcome(Law::GeneratorPower));
                } else if !self.first_scaled {
                    assert(!self.outcome(Law::FirstScaled));
                } else {
                    assert(!self.outcome(Law::SecondScaled));
                }
            }
        }
        r
    }
}

/// Whether `0 <= a < bound`.
fn in_range(a: &BigInt, bound: &BigInt) -> (r: bool)
    ensures
        r == (0 <= value_of(*a) < value_of(*bound)),
{
    let zero = big_from_i64(0);
    !big_lt(a, &zero) && big_lt(a, bound)
}

/// `(a * b) mod m`.
fn mul_mod(a: &BigInt, b: &BigInt, m: &BigInt) -> (r: BigInt)
    requires
        value_of(*m) > 0,
    ensures
        value_of(r) == (value_of(*a) * value_of(*b)) % value_of(*m),
{
    let prod = big_mul(a, b);
    let (_, rem) = big_div_rem_euc(&prod, m);
    rem
}

/// Encrypts `m` with the given blinding factor `r`: `g^m * r^n mod n^2`.
/// Fails with `PlaintextOutOfRange` exactly when `m` is not in `[0, n)`.
pub fn encrypt_with_blinding(m: &BigInt, pk: &PublicKey, r: &BigInt) -> (res: Result<
    BigInt,
    PaillierError,
>)
    requires
        pk.wf(),
        0 <= value_of(*r) < pk.n_val(),
    ensures
        match res {
            Ok(c) => 0 <= value_of(*m) < pk.n_val() && value_of(c) == encrypt_value(
                value_of(*m),
                pk.n_val(),
                pk.g_val(),
                value_of(*r),
            ),
            Err(e) => !(0 <= value_of(*m) < pk.n_val()) && e == PaillierError::PlaintextOutOfRange,
        },
{
    if !in_range(m, &pk.n) {
        return Err(PaillierError::PlaintextOutOfRange);
    }
    let nsq = big_mul(&pk.n, &pk.n);
    proof {
        assert(pk.n_val() * pk.n_val() > 1) by (nonlinear_arith)
            requires pk.n_val() > 1;
    }
    let gm = big_pow_mod(&pk.g, m, &nsq);
    let rn = big_pow_mod(r, &pk.n, &nsq);
    let c = mul_mod(&gm, &rn, &nsq);
    proof {
        lemma_mul_mod_noop(
            pow(pk.g_val(), value_of(*m) as nat),
            pow(value_of(*r), pk.n_val() as nat),
            value_of(nsq),
        );
    }
    Ok(c)
}

/// Encrypts `m` under `pk` with a fresh blinding factor drawn from `[0, n)`
/// and coprime to `n`. Fails with `PlaintextOutOfRange` exactly when `m` is
/// not in `[0, n)`, and otherwise only with `RandomSamplingExhausted`.
pub fn encrypt(m: &BigInt, pk: &PublicKey, rng: &SystemRandom) -> (res: Result<
    BigInt,
    PaillierError,
>)
    requires
        pk.wf(),
    ensures
        (res == Err::<BigInt, PaillierError>(PaillierError::PlaintextOutOfRange)) <==> !(0
            <= value_of(*m) < pk.n_val()),
        match res {
            Ok(c) => is_encryption(*pk, value_of(*m), value_of(c)),
            Err(e) => e == PaillierError::PlaintextOutOfRange || e
                == PaillierError::RandomSamplingExhausted,
        },
{
    if !in_range(m, &pk.n) {
        return Err(PaillierError::PlaintextOutOfRange);
    }
    let r = random_below_coprime(&pk.n, &pk.n, rng)?;
    let res = encrypt_with_blinding(m, pk, &r);
    proof {
        if res.is_ok() {
            assert(abs(pk.n_val()) == pk.n_val() as nat);
            assert(value_of(res.unwrap()) == encrypt_value(
                value_of(*m),
                pk.n_val(),
                pk.g_val(),
                value_of(r),
            ));
        }
    }
    res
}

/// `L(c^lambda mod n^2) * mu mod n`, for `c` already known to be in range.
fn decrypt_in_range(c: &BigInt, sk: &PrivateKey, n: &BigInt, nsq: &BigInt) -> (r: BigInt)
    requires
        value_of(*n) > 1,
        value_of(*nsq) == value_of(*n) * value_of(*n),
        sk.lambda_val() >= 0,
    ensures
        value_of(r) == decrypt_value(value_of(*c), sk.lambda_val(), sk.mu_val(), value_of(*n)),
{
    proof {
        assert(value_of(*n) * value_of(*n) > 1) by (nonlinear_arith)
            requires value_of(*n) > 1;
    }
    let one = big_from_i64(1);
    let x = big_pow_mod(c, &sk.lambda, nsq);
    proof {
        vstd::arithmetic::div_mod::lemma_mod_bound(
            pow(value_of(*c), sk.lambda_val() as nat),
            value_of(*nsq),
        );
    }
    let l = if big_lt(&x, &one) {
        proof {
            vstd::arithmetic::div_mod::lemma_basic_div(1, value_of(*n));
        }
        big_from_i64(0)
    } else {
        let xm1 = big_sub(&x, &one);
        let (l, _) = big_div_rem_euc(&xm1, n);
        l
    };
    mul_mod(&l, &sk.mu, n)
}

/// Decrypts `c` with the private key and the modulus `n`. Fails with
/// `CiphertextOutOfRange` exactly when `c` is not in `[0, n^2)`.
pub fn decrypt(c: &BigInt, sk: &PrivateKey, n: &BigInt) -> (res: Result<BigInt, PaillierError>)
    requires
        value_of(*n) > 1,
        sk.lambda_val() >= 0,
    ensures
        match res {
            Ok(m) => 0 <= value_of(*c) < value_of(*n) * value_of(*n) && value_of(m)
                == decrypt_value(value_of(*c), sk.lambda_val(), sk.mu_val(), value_of(*n)),
            Err(e) => !(0 <= value_of(*c) < value_of(*n) * value_of(*n)) && e
                == PaillierError::CiphertextOutOfRange,
        },
{
    let nsq = big_mul(n, n);
    if !in_range(c, &nsq) {
        return Err(PaillierError::CiphertextOutOfRange);
    }
    Ok(decrypt_in_range(c, sk, n, &nsq))
}

/// Decrypts the ciphertext-space combinations of `c1` and `c2` that the
/// laws name and records, law by law, whether each gave the expected
/// plaintext.
pub fn check_homomorphism(
    m1: &BigInt,
    m2: &BigInt,
    pk: &PublicKey,
    sk: &PrivateKey,
    c1: &BigInt,
    c2: &BigInt,
) -> (rep: VerificationReport)
    requires
        pk.wf(),
        sk.lambda_val() >= 0,
        0 <= value_of(*m1),
        0 <= value_of(*m2),
    ensures
        forall|law: Law|
            #[trigger] rep.outcome(law) == law_holds(
                law,
                *pk,
                *sk,
                value_of(*m1),
                value_of(*m2),
                value_of(*c1),
                value_of(*c2),
            ),
{
    let n = &pk.n;
    let nsq = big_mul(n, n);
    proof {
        assert(pk.n_val() * pk.n_val() > 1) by (nonlinear_arith)
            requires pk.n_val() > 1;
    }
    let sum_raw = big_add(m1, m2);
    let (_, sum) = big_div_rem_euc(&sum_raw, n);
    let product = mul_mod(m1, m2, n);

    let d1 = decrypt_in_range(c1, sk, n, &nsq);
    let d2 = decrypt_in_range(c2, sk, n, &nsq);
    let round_trip = big_eq(&d1, m1) && big_eq(&d2, m2);

    let cc = mul_mod(c1, c2, &nsq);
    let ciphertext_product = big_eq(&decrypt_in_range(&cc, sk, n, &nsq), &sum);

    let (_, c1_reduced) = big_div_rem_euc(c1, &nsq);
    let gm2 = big_pow_mod(&pk.g, m2, &nsq);
    let cg = mul_mod(&c1_reduced, &gm2, &nsq);
    let generator_power = big_eq(&decrypt_in_range(&cg, sk, n, &nsq), &sum);

    let s1 = big_pow_mod(c1, m2, &nsq);
    let first_scaled = big_eq(&decrypt_in_range(&s1, sk, n, &nsq), &product);
    let s2 = big_pow_mod(c2, m1, &nsq);
    let second_scaled = big_eq(&decrypt_in_range(&s2, sk, n, &nsq), &product);

    VerificationReport { round_trip, ciphertext_product, generator_power, first_scaled, second_scaled }
}

/// Encrypts `m1` and `m2` afresh and checks every law on the result.
///
/// Fails with `PlaintextOutOfRange` exactly when either plaintext is not in
/// `[0, n)`, with `RandomSamplingExhausted` when a blinding factor could not
/// be drawn, and with `HomomorphismViolation` naming the first law, in the
/// order of `Law`, that failed on the sampled ciphertexts.
pub fn verify_homomorphism(
    m1: &BigInt,
    m2: &BigInt,
    pk: &PublicKey,
    sk: &PrivateKey,
    rng: &SystemRandom,
) -> (res: Result<VerificationReport, PaillierError>)
    requires
        pk.wf(),
        sk.lambda_val() >= 0,
    ensures
        (res == Err::<VerificationReport, PaillierError>(PaillierError::PlaintextOutOfRange)) <==> !(0
            <= value_of(*m1) < pk.n_val() && 0 <= value_of(*m2) < pk.n_val()),
        match res {
            Err(PaillierError::PlaintextOutOfRange) => true,
            Err(PaillierError::RandomSamplingExhausted) => true,
            _ => exists|c1: int, c2: int|
                #[trigger] encryption_pair(*pk, value_of(*m1), value_of(*m2), c1, c2) && verdict(
                    res,
                    first_failing(*pk, *sk, value_of(*m1), value_of(*m2), c1, c2),
                ),
        },
{
    if !in_range(m1, &pk.n) || !in_range(m2, &pk.n) {
        return Err(PaillierError::PlaintextOutOfRange);
    }
    let c1 = match encrypt(m1, pk, rng) {
        Ok(c) => c,
        Err(_) => return Err(PaillierError::RandomSamplingExhausted),
    };
    let c2 = match encrypt(m2, pk, rng) {
        Ok(c) => c,
        Err(_) => return Err(PaillierError::RandomSamplingExhausted),
    };
    let rep = check_homomorphism(m1, m2, pk, sk, &c1, &c2);
    let ghost fail = first_failing(
        *pk,
        *sk,
        value_of(*m1),
        value_of(*m2),
        value_of(c1),
        value_of(c2),
    );
    proof {
        assert(encryption_pair(*pk, value_of(*m1), value_of(*m2), value_of(c1), value_of(c2)));
    }
    let res = if !rep.round_trip {
        Err(PaillierError::HomomorphismViolation(Law::RoundTrip))
    } else if !rep.ciphertext_product {
        Err(PaillierError::HomomorphismViolation(Law::CiphertextProduct))
    } else if !rep.generator_power {
        Err(PaillierError::HomomorphismViolation(Law::GeneratorPower))
    } else if !rep.first_scaled {
        Err(PaillierError::HomomorphismViolation(Law::FirstScaled))
    } else if !rep.second_scaled {
        Err(PaillierError::HomomorphismViolation(Law::SecondScaled))
    } else {
        Ok(rep)
    };
    proof {
        assert(rep.outcome(Law::RoundTrip) == rep.round_trip);
        assert(rep.outcome(Law::CiphertextProduct) == rep.ciphertext_product);
        assert(rep.outcome(Law::GeneratorPower) == rep.generator_power);
        assert(rep.outcome(Law::FirstScaled) == rep.first_scaled);
        assert(rep.outcome(Law::SecondScaled) == rep.second_scaled);
        assert(verdict(res, fail));
    }
    res
}

} // verus!

use crate::error::PaillierError;
use crate::integer::{
    big_div_rem_euc, big_eq, big_from_i64, big_invert, big_lcm, big_lt, big_mul, big_pow_mod,
    big_sub, safe_prime, value_of,
};
use crate::math::{abs, gcd, lcm, lemma_lcm_positive, lemma_odd_product};
use crate::sampling::random_below_coprime;
use num_bigint::BigInt;
use ring::rand::SystemRandom;
use vstd::arithmetic::power::pow;
use vstd::prelude::*;

verus! {

/// The public half of a key pair: the modulus `n = p * q` and a unit `g`
/// of the integers modulo `n^2`.
pub struct PublicKey {
    pub n: BigInt,
    pub g: BigInt,
}

/// The private half of a key pair: `lambda = lcm(p - 1, q - 1)` and `mu`,
/// the inverse modulo `n` of `L(g^lambda mod n^2)`.
pub struct PrivateKey {
    pub lambda: BigInt,
    pub mu: BigInt,
}

/// `L(x) = (x - 1) / n`, the quotient rounded toward zero.
pub open spec fn ell(x: int, n: int) -> int {
    if x >= 1 { (x - 1) / n } else { -((1 - x) / n) }
}

/// A residue in `[0, n^2)` that is one modulo `n` is at least one, so its
/// `L` is the exact quotient `(x - 1) / n`.
pub proof fn lemma_residue_at_least_one(x: int, n: int)
    requires
        x >= 0,
        n > 1,
        (x - 1) % n == 0,
    ensures
        x >= 1,
        ell(x, n) == (x - 1) / n,
{
    if x == 0 {
        vstd::arithmetic::div_mod::lemma_fundamental_div_mod_converse(-1, n, -1, n - 1);
    }
}

/// Both primes are odd and at least three.
pub open spec fn usable_primes(p: int, q: int) -> bool {
    p >= 3 && p % 2 == 1 && q >= 3 && q % 2 == 1
}

/// `g^lambda mod n^2`, whose `L` the private key inverts.
pub open spec fn key_residue(n: int, g: int, lambda: int) -> int {
    pow(g, lambda as nat) % (n * n)
}

/// `lcm(p - 1, q - 1)`.
pub open spec fn carmichael_lambda(p: int, q: int) -> int {
    lcm((p - 1) as nat, (q - 1) as nat) as int
}

impl PublicKey {
    pub open spec fn n_val(&self) -> int {
        value_of(self.n)
    }

    pub open spec fn g_val(&self) -> int {
        value_of(self.g)
    }

    /// `n` is odd and above one, and `g` is a unit modulo `n^2` reduced into `[0, n^2)`.
    pub open spec fn wf(&self) -> bool {
        &&& self.n_val() > 1
        &&& self.n_val() % 2 == 1
        &&& 0 <= self.g_val() < self.n_val() * self.n_val()
        &&& gcd(self.g_val() as nat, (self.n_val() * self.n_val()) as nat) == 1
    }
}

impl PrivateKey {
    pub open spec fn lambda_val(&self) -> int {
        value_of(self.lambda)
    }

    pub open spec fn mu_val(&self) -> int {
        value_of(self.mu)
    }
}

/// The private key fits the public one: `g^lambda mod n^2` is one modulo `n`,
/// and `mu` is the inverse of its `L` modulo `n`.
pub open spec fn keys_match(pk: PublicKey, sk: PrivateKey) -> bool {
    let x = key_residue(pk.n_val(), pk.g_val(), sk.lambda_val());
    &&& sk.lambda_val() > 0
    &&& (x - 1) % pk.n_val() == 0
    &&& 0 <= sk.mu_val() < pk.n_val()
    &&& (ell(x, pk.n_val()) * sk.mu_val()) % pk.n_val() == 1
}

/// A key pair as made from two odd primes `p`, `q`: `n = p * q` and
/// `lambda = lcm(p - 1, q - 1)`, with the keys well formed and matching.
pub open spec fn keys_from(pk: PublicKey, sk: PrivateKey, p: int, q: int) -> bool {
    &&& p >= 3 && p % 2 == 1
    &&& q >= 3 && q % 2 == 1
    &&& pk.n_val() == p * q
    &&& sk.lambda_val() == carmichael_lambda(p, q)
    &&& pk.wf()
    &&& keys_match(pk, sk)
}

/// Derives the key pair from the primes `p`, `q` and the unit `g`.
///
/// Fails with `KeyGenerationFailure` when a prime is even or below three,
/// with `KeyGenerationInvariantViolation` when `g^lambda mod n^2` is not one
/// modulo `n`, and with `KeyGenerationFailure` when its `L` has no inverse
/// modulo `n`.
pub fn keypair_from_primes(p: &BigInt, q: &BigInt, g: &BigInt) -> (r: Result<
    (PublicKey, PrivateKey),
    PaillierError,
>)
    requires
        0 <= value_of(*g) < (value_of(*p) * value_of(*q)) * (value_of(*p) * value_of(*q)),
        gcd(
            value_of(*g) as nat,
            ((value_of(*p) * value_of(*q)) * (value_of(*p) * value_of(*q))) as nat,
        ) == 1,
    ensures
        !usable_primes(value_of(*p), value_of(*q)) ==> r == Err::<(PublicKey, PrivateKey), PaillierError>(
            PaillierError::KeyGenerationFailure,
        ),
        usable_primes(value_of(*p), value_of(*q)) ==> ({
            let n = value_of(*p) * value_of(*q);
            let x = key_residue(n, value_of(*g), carmichael_lambda(value_of(*p), value_of(*q)));
            match r {
                Ok((pk, sk)) => {
                    &&& keys_from(pk, sk, value_of(*p), value_of(*q))
                    &&& pk.g_val() == value_of(*g)
                },
                Err(e) => if (x - 1) % n != 0 {
                    e == PaillierError::KeyGenerationInvariantViolation
                } else {
                    e == PaillierError::KeyGenerationFailure && gcd(abs(ell(x, n)), n as nat) != 1
                },
            }
        }),
        r.is_ok() <==> usable_primes(value_of(*p), value_of(*q)) && ({
            let n = value_of(*p) * value_of(*q);
            let x = key_residue(n, value_of(*g), carmichael_lambda(value_of(*p), value_of(*q)));
            (x - 1) % n == 0 && gcd(abs(ell(x, n)), n as nat) == 1
        }),
{
    let two = big_from_i64(2);
    let three = big_from_i64(3);
    let zero = big_from_i64(0);
    let (_, p_parity) = big_div_rem_euc(p, &two);
    let (_, q_parity) = big_div_rem_euc(q, &two);
    if big_lt(p, &three) || big_lt(q, &three) || big_eq(&p_parity, &zero) || big_eq(
        &q_parity,
        &zero,
    ) {
        return Err(PaillierError::KeyGenerationFailure);
    }
    let one = big_from_i64(1);
    let n = big_mul(p, q);
    let nsq = big_mul(&n, &n);
    let pm1 = big_sub(p, &one);
    let qm1 = big_sub(q, &one);
    let lambda = big_lcm(&pm1, &qm1);
    proof {
        lemma_odd_product(value_of(*p), value_of(*q));
        lemma_lcm_positive(abs(value_of(pm1)), abs(value_of(qm1)));
        assert(value_of(n) * value_of(n) > 1) by (nonlinear_arith)
            requires value_of(n) > 1;
    }
    let x = big_pow_mod(g, &lambda, &nsq);
    let xm1 = big_sub(&x, &one);
    let (l, rem) = big_div_rem_euc(&xm1, &n);
    if !big_eq(&rem, &zero) {
        return Err(PaillierError::KeyGenerationInvariantViolation);
    }
    proof {
        vstd::arithmetic::div_mod::lemma_mod_bound(
            pow(value_of(*g), value_of(lambda) as nat),
            value_of(nsq),
        );
        lemma_residue_at_least_one(value_of(x), value_of(n));
    }
    match big_invert(&l, &n) {
        None => Err(PaillierError::KeyGenerationFailure),
        Some(mu) => {
            let pk = PublicKey { n, g: g.clone() };
            let sk = PrivateKey { lambda, mu };
            Ok((pk, sk))
        },
    }
}

/// Generates a key pair from two safe primes of `bits` bits each and a unit
/// `g` drawn at random modulo `n^2`.
///
/// `g` is drawn with `random_below_coprime` from `[0, n^2)`, and the keys are
/// then derived by `keypair_from_primes`, which rejects a number from the
/// generator that is even or below three. Fails with
/// `RandomSamplingExhausted` when no unit `g` was drawn.
pub fn generate_keypair(bits: usize, rng: &SystemRandom) -> (r: Result<
    (PublicKey, PrivateKey),
    PaillierError,
>)
    requires
        bits >= 64,
    ensures
        match r {
            Ok((pk, sk)) => exists|p: int, q: int| #[trigger] keys_from(pk, sk, p, q),
            Err(e) => e == PaillierError::KeyGenerationFailure || e
                == PaillierError::KeyGenerationInvariantViolation || e
                == PaillierError::RandomSamplingExhausted,
        },
{
    let p = safe_prime(bits);
    let q = safe_prime(bits);
    let n = big_mul(&p, &q);
    let nsq = big_mul(&n, &n);
    let g = match random_below_coprime(&nsq, &nsq, rng) {
        Ok(g) => g,
        Err(_) => return Err(PaillierError::RandomSamplingExhausted),
    };
    let r = keypair_from_primes(&p, &q, &g);
    proof {
        if r.is_ok() {
            assert(keys_from(r.unwrap().0, r.unwrap().1, value_of(p), value_of(q)));
        }
    }
    r
}

} // verus!

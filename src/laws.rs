use crate::cipher::{decrypt_value, encrypt_value, encryption_pair, first_failing, law_holds};
use crate::error::Law;
use crate::keys::{ell, key_residue, keys_match, lemma_residue_at_least_one, PrivateKey, PublicKey};
use crate::math::gcd;
use vstd::arithmetic::div_mod::{
    lemma_div_multiples_vanish, lemma_fundamental_div_mod, lemma_fundamental_div_mod_converse,
    lemma_mod_bound, lemma_mod_multiples_vanish, lemma_mod_twice, lemma_mul_mod_noop,
    lemma_mul_mod_noop_left, lemma_mul_mod_noop_right, lemma_small_mod,
};
use vstd::arithmetic::power::{
    lemma1_pow, lemma_pow1, lemma_pow_adds, lemma_pow_distributes, lemma_pow_mod_noop,
    lemma_pow_multiplies, pow,
};
use vstd::prelude::*;

verus! {

/// `s^(n * lambda)` is one modulo `n^2`. When `n` is the product of two
/// distinct odd primes and `lambda = lcm(p - 1, q - 1)`, this holds of every
/// `s` coprime to `n` (Carmichael's theorem); this library takes it as a
/// hypothesis on the blinding factors and does not prove it.
pub open spec fn annihilates(n: int, lambda: int, s: int) -> bool {
    pow(s, (n * lambda) as nat) % (n * n) == 1
}

/// `(1 + a * n)^k` is `1 + k * a * n` modulo `n^2`.
pub proof fn lemma_binomial_mod_square(a: int, n: int, k: nat)
    requires
        n > 0,
    ensures
        pow(1 + a * n, k) % (n * n) == (1 + k * a * n) % (n * n),
    decreases k,
{
    let m = n * n;
    assert(m > 0) by (nonlinear_arith)
        requires n > 0, m == n * n;
    if k == 0 {
        assert(pow(1 + a * n, 0) == 1) by {
            reveal(pow);
        }
        assert(1 + (k as int) * a * n == 1) by (nonlinear_arith)
            requires k == 0;
    } else {
        let j = (k - 1) as nat;
        lemma_binomial_mod_square(a, n, j);
        lemma_pow_adds(1 + a * n, j, 1);
        lemma_pow1(1 + a * n);
        let p = pow(1 + a * n, j);
        assert(pow(1 + a * n, k) == p * (1 + a * n));
        lemma_mul_mod_noop_left(p, 1 + a * n, m);
        lemma_mul_mod_noop_left(1 + j * a * n, 1 + a * n, m);
        assert((1 + j * a * n) * (1 + a * n) == m * (j * a * a) + (1 + k * a * n))
            by (nonlinear_arith)
            requires m == n * n, k == j + 1;
        lemma_mod_multiples_vanish(j * a * a, 1 + k * a * n, m);
    }
}

/// `1 + t * n` reduced modulo `n^2` is `1 + (t mod n) * n`, whose `L` is
/// `t mod n`.
pub proof fn lemma_ell_of_linear(t: int, n: int)
    requires
        n > 1,
    ensures
        (1 + t * n) % (n * n) == 1 + (t % n) * n,
        ell((1 + t * n) % (n * n), n) == t % n,
{
    let m = n * n;
    lemma_mod_bound(t, n);
    lemma_fundamental_div_mod(t, n);
    let q = t / n;
    let u = t % n;
    assert(1 + t * n == q * m + (1 + u * n)) by (nonlinear_arith)
        requires t == n * q + u, m == n * n;
    assert(0 <= 1 + u * n < m) by (nonlinear_arith)
        requires 0 <= u < n, n > 1, m == n * n;
    lemma_fundamental_div_mod_converse(1 + t * n, m, q, 1 + u * n);
    lemma_div_multiples_vanish(u, n);
    assert(n * u == u * n) by (nonlinear_arith);
}

/// A value congruent modulo `n^2` to `g^k * s^n`, with `s` annihilated,
/// decrypts to `k mod n`.
pub proof fn lemma_decrypt_of_congruent(pk: PublicKey, sk: PrivateKey, c: int, k: nat, s: int)
    requires
        pk.wf(),
        keys_match(pk, sk),
        annihilates(pk.n_val(), sk.lambda_val(), s),
        c % (pk.n_val() * pk.n_val()) == (pow(pk.g_val(), k) * pow(s, pk.n_val() as nat)) % (
        pk.n_val() * pk.n_val()),
    ensures
        decrypt_value(c, sk.lambda_val(), sk.mu_val(), pk.n_val()) == k as int % pk.n_val(),
{
    let n = pk.n_val();
    let g = pk.g_val();
    let lam = sk.lambda_val();
    let mu = sk.mu_val();
    let m = n * n;
    assert(m > 1) by (nonlinear_arith)
        requires n > 1, m == n * n;
    let ln = lam as nat;
    let nn = n as nat;
    let x = key_residue(n, g, lam);
    let gk = pow(g, k);
    let sn = pow(s, nn);
    // c^lambda is congruent to (g^k)^lambda * (s^n)^lambda.
    lemma_pow_mod_noop(c, ln, m);
    lemma_pow_mod_noop(gk * sn, ln, m);
    lemma_pow_distributes(gk, sn, ln);
    lemma_pow_multiplies(g, k, ln);
    lemma_pow_multiplies(g, ln, k);
    assert(k * ln == ln * k) by (nonlinear_arith);
    lemma_pow_multiplies(s, nn, ln);
    assert(nn * ln == (n * lam) as nat) by (nonlinear_arith)
        requires nn == n, ln == lam, n > 0, lam > 0;
    // (g^lambda)^k is congruent to x^k.
    lemma_pow_mod_noop(pow(g, ln), k, m);
    let xk = pow(x, k);
    lemma_mul_mod_noop(pow(pow(g, ln), k), pow(s, nn * ln), m);
    lemma_small_mod(1, m as nat);
    lemma_mod_bound(xk, m);
    lemma_mod_twice(xk, m);
    assert(pow(c, ln) % m == xk % m) by {
        assert(pow(c, ln) % m == pow(gk * sn, ln) % m);
        assert(pow(gk * sn, ln) == pow(pow(g, ln), k) * pow(s, nn * ln));
        assert((pow(pow(g, ln), k) % m) * (pow(s, nn * ln) % m) % m == (xk % m) * 1 % m);
    }
    // x is 1 + a * n.
    lemma_mod_bound(pow(g, ln), m);
    lemma_residue_at_least_one(x, n);
    let a = ell(x, n);
    lemma_fundamental_div_mod(x - 1, n);
    assert(x == 1 + a * n) by (nonlinear_arith)
        requires x - 1 == n * ((x - 1) / n) + (x - 1) % n, (x - 1) % n == 0, a == (x - 1) / n;
    lemma_binomial_mod_square(a, n, k);
    assert((k as int) * a * n == (k * a) * n) by (nonlinear_arith);
    lemma_ell_of_linear(k * a, n);
    let t = (k * a) % n;
    assert(ell(pow(c, ln) % m, n) == t);
    // L times mu is k modulo n.
    lemma_mul_mod_noop_left(k * a, mu, n);
    assert((k * a) * mu == k * (a * mu)) by (nonlinear_arith);
    lemma_mul_mod_noop_right(k as int, a * mu, n);
}

/// Decryption inverts encryption: every `m` in `[0, n)` encrypted under a
/// blinding factor `r` that the key annihilates decrypts back to `m`.
pub proof fn lemma_round_trip(pk: PublicKey, sk: PrivateKey, m: int, r: int)
    requires
        pk.wf(),
        keys_match(pk, sk),
        0 <= m < pk.n_val(),
        annihilates(pk.n_val(), sk.lambda_val(), r),
    ensures
        decrypt_value(
            encrypt_value(m, pk.n_val(), pk.g_val(), r),
            sk.lambda_val(),
            sk.mu_val(),
            pk.n_val(),
        ) == m,
{
    let n = pk.n_val();
    let nsq = n * n;
    assert(nsq > 1) by (nonlinear_arith)
        requires n > 1, nsq == n * n;
    let prod = pow(pk.g_val(), m as nat) * pow(r, n as nat);
    lemma_mod_twice(prod, nsq);
    lemma_decrypt_of_congruent(pk, sk, prod % nsq, m as nat, r);
    lemma_small_mod(m as nat, n as nat);
}

/// The product of two annihilated values is annihilated.
pub proof fn lemma_annihilates_product(n: int, lambda: int, s1: int, s2: int)
    requires
        n > 1,
        annihilates(n, lambda, s1),
        annihilates(n, lambda, s2),
    ensures
        annihilates(n, lambda, s1 * s2),
{
    let m = n * n;
    assert(m > 1) by (nonlinear_arith)
        requires n > 1, m == n * n;
    let e = (n * lambda) as nat;
    lemma_pow_distributes(s1, s2, e);
    lemma_mul_mod_noop(pow(s1, e), pow(s2, e), m);
    lemma_small_mod(1, m as nat);
}

/// A power of an annihilated value is annihilated.
pub proof fn lemma_annihilates_power(n: int, lambda: int, s: int, k: nat)
    requires
        n > 1,
        annihilates(n, lambda, s),
    ensures
        annihilates(n, lambda, pow(s, k)),
{
    let m = n * n;
    assert(m > 1) by (nonlinear_arith)
        requires n > 1, m == n * n;
    let e = (n * lambda) as nat;
    lemma_pow_multiplies(s, k, e);
    lemma_pow_multiplies(s, e, k);
    assert(k * e == e * k) by (nonlinear_arith);
    lemma_pow_mod_noop(pow(s, e), k, m);
    lemma1_pow(k);
    lemma_small_mod(1, m as nat);
}

/// An encryption is congruent modulo `n^2` to `g^m * r^n`.
proof fn lemma_encryption_congruent(pk: PublicKey, m: int, r: int)
    requires
        pk.wf(),
        0 <= m,
    ensures
        encrypt_value(m, pk.n_val(), pk.g_val(), r) % (pk.n_val() * pk.n_val()) == (pow(
            pk.g_val(),
            m as nat,
        ) * pow(r, pk.n_val() as nat)) % (pk.n_val() * pk.n_val()),
{
    let n = pk.n_val();
    let nsq = n * n;
    assert(nsq > 1) by (nonlinear_arith)
        requires n > 1, nsq == n * n;
    lemma_mod_twice(pow(pk.g_val(), m as nat) * pow(r, n as nat), nsq);
}

/// Multiplying ciphertexts adds plaintexts: the product modulo `n^2` of the
/// encryptions of `m1` and `m2` decrypts to `(m1 + m2) mod n`.
pub proof fn lemma_ciphertext_product_adds(
    pk: PublicKey,
    sk: PrivateKey,
    m1: int,
    m2: int,
    r1: int,
    r2: int,
)
    requires
        pk.wf(),
        keys_match(pk, sk),
        0 <= m1 < pk.n_val(),
        0 <= m2 < pk.n_val(),
        annihilates(pk.n_val(), sk.lambda_val(), r1),
        annihilates(pk.n_val(), sk.lambda_val(), r2),
    ensures
        decrypt_value(
            (encrypt_value(m1, pk.n_val(), pk.g_val(), r1) * encrypt_value(
                m2,
                pk.n_val(),
                pk.g_val(),
                r2,
            )) % (pk.n_val() * pk.n_val()),
            sk.lambda_val(),
            sk.mu_val(),
            pk.n_val(),
        ) == (m1 + m2) % pk.n_val(),
{
    let n = pk.n_val();
    let g = pk.g_val();
    let nsq = n * n;
    assert(nsq > 1) by (nonlinear_arith)
        requires n > 1, nsq == n * n;
    let nn = n as nat;
    let p1 = pow(g, m1 as nat) * pow(r1, nn);
    let p2 = pow(g, m2 as nat) * pow(r2, nn);
    let c = (p1 % nsq) * (p2 % nsq) % nsq;
    lemma_mul_mod_noop(p1, p2, nsq);
    lemma_mod_twice(p1 * p2, nsq);
    lemma_pow_adds(g, m1 as nat, m2 as nat);
    lemma_pow_distributes(r1, r2, nn);
    assert(p1 * p2 == pow(g, (m1 + m2) as nat) * pow(r1 * r2, nn)) by (nonlinear_arith)
        requires
            p1 == pow(g, m1 as nat) * pow(r1, nn),
            p2 == pow(g, m2 as nat) * pow(r2, nn),
            pow(g, (m1 + m2) as nat) == pow(g, m1 as nat) * pow(g, m2 as nat),
            pow(r1 * r2, nn) == pow(r1, nn) * pow(r2, nn),
    ;
    lemma_annihilates_product(n, sk.lambda_val(), r1, r2);
    lemma_decrypt_of_congruent(pk, sk, c, (m1 + m2) as nat, r1 * r2);
}

/// Multiplying a ciphertext by a power of `g` adds plaintexts: the
/// encryption of `m1` times `g^m2`, modulo `n^2`, decrypts to
/// `(m1 + m2) mod n`.
pub proof fn lemma_generator_power_adds(pk: PublicKey, sk: PrivateKey, m1: int, m2: int, r1: int)
    requires
        pk.wf(),
        keys_match(pk, sk),
        0 <= m1 < pk.n_val(),
        0 <= m2 < pk.n_val(),
        annihilates(pk.n_val(), sk.lambda_val(), r1),
    ensures
        decrypt_value(
            ((encrypt_value(m1, pk.n_val(), pk.g_val(), r1) % (pk.n_val() * pk.n_val())) * (pow(
                pk.g_val(),
                m2 as nat,
            ) % (pk.n_val() * pk.n_val()))) % (pk.n_val() * pk.n_val()),
            sk.lambda_val(),
            sk.mu_val(),
            pk.n_val(),
        ) == (m1 + m2) % pk.n_val(),
{
    let n = pk.n_val();
    let g = pk.g_val();
    let nsq = n * n;
    assert(nsq > 1) by (nonlinear_arith)
        requires n > 1, nsq == n * n;
    let nn = n as nat;
    let p1 = pow(g, m1 as nat) * pow(r1, nn);
    let c1 = encrypt_value(m1, n, g, r1);
    lemma_encryption_congruent(pk, m1, r1);
    let gm2 = pow(g, m2 as nat);
    let c = ((c1 % nsq) * (gm2 % nsq)) % nsq;
    lemma_mul_mod_noop(p1, gm2, nsq);
    lemma_mod_twice(p1 * gm2, nsq);
    lemma_pow_adds(g, m1 as nat, m2 as nat);
    assert(p1 * gm2 == pow(g, (m1 + m2) as nat) * pow(r1, nn)) by (nonlinear_arith)
        requires
            p1 == pow(g, m1 as nat) * pow(r1, nn),
            gm2 == pow(g, m2 as nat),
            pow(g, (m1 + m2) as nat) == pow(g, m1 as nat) * pow(g, m2 as nat),
    ;
    lemma_decrypt_of_congruent(pk, sk, c, (m1 + m2) as nat, r1);
}

/// Raising the encryption of `m1` to `k`, modulo `n^2`, decrypts to
/// `(m1 * k) mod n`.
proof fn lemma_power_scales(pk: PublicKey, sk: PrivateKey, m1: int, k: nat, r1: int)
    requires
        pk.wf(),
        keys_match(pk, sk),
        0 <= m1 < pk.n_val(),
        annihilates(pk.n_val(), sk.lambda_val(), r1),
    ensures
        decrypt_value(
            pow(encrypt_value(m1, pk.n_val(), pk.g_val(), r1), k) % (pk.n_val() * pk.n_val()),
            sk.lambda_val(),
            sk.mu_val(),
            pk.n_val(),
        ) == (m1 * k) % pk.n_val(),
{
    let n = pk.n_val();
    let g = pk.g_val();
    let nsq = n * n;
    assert(nsq > 1) by (nonlinear_arith)
        requires n > 1, nsq == n * n;
    let nn = n as nat;
    let m1n = m1 as nat;
    let p1 = pow(g, m1n) * pow(r1, nn);
    let c1 = encrypt_value(m1, n, g, r1);
    let c = pow(c1, k) % nsq;
    lemma_pow_mod_noop(p1, k, nsq);
    lemma_mod_twice(pow(p1, k), nsq);
    lemma_pow_distributes(pow(g, m1n), pow(r1, nn), k);
    lemma_pow_multiplies(g, m1n, k);
    lemma_pow_multiplies(r1, nn, k);
    lemma_pow_multiplies(r1, k, nn);
    assert(nn * k == k * nn) by (nonlinear_arith);
    assert(m1n * k == (m1 * k) as nat) by (nonlinear_arith)
        requires m1n == m1, m1 >= 0;
    lemma_annihilates_power(n, sk.lambda_val(), r1, k);
    lemma_decrypt_of_congruent(pk, sk, c, (m1 * k) as nat, pow(r1, k));
}

/// Raising a ciphertext to a plaintext multiplies plaintexts, either way
/// round: the encryption of `m1` raised to `m2`, and that of `m2` raised to
/// `m1`, modulo `n^2`, both decrypt to `(m1 * m2) mod n`.
pub proof fn lemma_ciphertext_power_scales(
    pk: PublicKey,
    sk: PrivateKey,
    m1: int,
    m2: int,
    r1: int,
    r2: int,
)
    requires
        pk.wf(),
        keys_match(pk, sk),
        0 <= m1 < pk.n_val(),
        0 <= m2 < pk.n_val(),
        annihilates(pk.n_val(), sk.lambda_val(), r1),
        annihilates(pk.n_val(), sk.lambda_val(), r2),
    ensures
        decrypt_value(
            pow(encrypt_value(m1, pk.n_val(), pk.g_val(), r1), m2 as nat) % (pk.n_val()
                * pk.n_val()),
            sk.lambda_val(),
            sk.mu_val(),
            pk.n_val(),
        ) == (m1 * m2) % pk.n_val(),
        decrypt_value(
            pow(encrypt_value(m2, pk.n_val(), pk.g_val(), r2), m1 as nat) % (pk.n_val()
                * pk.n_val()),
            sk.lambda_val(),
            sk.mu_val(),
            pk.n_val(),
        ) == (m1 * m2) % pk.n_val(),
{
    lemma_power_scales(pk, sk, m1, m2 as nat, r1);
    lemma_power_scales(pk, sk, m2, m1 as nat, r2);
    assert(m2 * m1 == m1 * m2) by (nonlinear_arith);
}

/// Every unit modulo `n` is annihilated: `s^(n * lambda)` is one modulo `n^2`
/// for every `s` coprime to `n`. Carmichael's theorem gives this when `n` is
/// the product of two distinct odd primes and `lambda = lcm(p - 1, q - 1)`;
/// this library takes it as a hypothesis and does not prove it.
pub open spec fn units_annihilated(n: int, lambda: int) -> bool {
    forall|s: int|
        0 <= s && gcd(s as nat, n as nat) == 1 ==> #[trigger] annihilates(n, lambda, s)
}

/// Every law holds of any two encryptions of in-range plaintexts under
/// matching keys whose units are annihilated; so on such keys
/// `verify_homomorphism` never reports a violation.
pub proof fn lemma_laws_hold(pk: PublicKey, sk: PrivateKey, m1: int, m2: int, c1: int, c2: int)
    requires
        pk.wf(),
        keys_match(pk, sk),
        units_annihilated(pk.n_val(), sk.lambda_val()),
        0 <= m1 < pk.n_val(),
        0 <= m2 < pk.n_val(),
        encryption_pair(pk, m1, m2, c1, c2),
    ensures
        forall|law: Law| #[trigger] law_holds(law, pk, sk, m1, m2, c1, c2),
        first_failing(pk, sk, m1, m2, c1, c2) == None::<Law>,
{
    let n = pk.n_val();
    let r1 = choose|r: int|
        0 <= r < n && gcd(r as nat, n as nat) == 1 && c1 == #[trigger] encrypt_value(
            m1,
            n,
            pk.g_val(),
            r,
        );
    let r2 = choose|r: int|
        0 <= r < n && gcd(r as nat, n as nat) == 1 && c2 == #[trigger] encrypt_value(
            m2,
            n,
            pk.g_val(),
            r,
        );
    assert(annihilates(n, sk.lambda_val(), r1));
    assert(annihilates(n, sk.lambda_val(), r2));
    lemma_round_trip(pk, sk, m1, r1);
    lemma_round_trip(pk, sk, m2, r2);
    lemma_ciphertext_product_adds(pk, sk, m1, m2, r1, r2);
    lemma_generator_power_adds(pk, sk, m1, m2, r1);
    lemma_ciphertext_power_scales(pk, sk, m1, m2, r1, r2);
    assert forall|law: Law| #[trigger] law_holds(law, pk, sk, m1, m2, c1, c2) by {
        match law {
            Law::RoundTrip => {},
            Law::CiphertextProduct => {},
            Law::GeneratorPower => {},
            Law::FirstScaled => {},
            Law::SecondScaled => {},
        }
    }
}

} // verus!

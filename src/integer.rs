use crate::math::{abs, gcd, le_value, lcm};
use num_primes::Generator;
use ring::rand::{SecureRandom, SystemRandom};
use num_bigint::{BigInt, Sign};
use num_integer::Integer;
use num_traits::Euclid;
use vstd::arithmetic::power::pow;
use vstd::prelude::*;

verus! {

#[verifier::external_type_specification]
#[verifier::external_body]
pub struct ExBigInt(num_bigint::BigInt);

#[verifier::external_type_specification]
#[verifier::external_body]
pub struct ExSystemRandom(ring::rand::SystemRandom);

/// The mathematical value held by an arbitrary-precision integer.
pub uninterp spec fn value_of(x: num_bigint::BigInt) -> int;

/// Relies on `BigInt`'s `Clone`: the copy holds the same value.
pub assume_specification[ <num_bigint::BigInt as Clone>::clone ](x: &num_bigint::BigInt) -> (r: num_bigint::BigInt)
    ensures
        value_of(r) == value_of(*x),
;

/// Relies on `BigInt::from(i64)`: the value is kept.
#[verifier::external_body]
pub(crate) fn big_from_i64(v: i64) -> (r: BigInt)
    ensures
        value_of(r) == v as int,
{
    BigInt::from(v)
}

/// Relies on `&BigInt + &BigInt`: the exact sum.
#[verifier::external_body]
pub(crate) fn big_add(a: &BigInt, b: &BigInt) -> (r: BigInt)
    ensures
        value_of(r) == value_of(*a) + value_of(*b),
{
    a + b
}

/// Relies on `&BigInt - &BigInt`: the exact difference.
#[verifier::external_body]
pub(crate) fn big_sub(a: &BigInt, b: &BigInt) -> (r: BigInt)
    ensures
        value_of(r) == value_of(*a) - value_of(*b),
{
    a - b
}

/// Relies on `&BigInt * &BigInt`: the exact product.
#[verifier::external_body]
pub(crate) fn big_mul(a: &BigInt, b: &BigInt) -> (r: BigInt)
    ensures
        value_of(r) == value_of(*a) * value_of(*b),
{
    a * b
}

/// Relies on `Euclid::div_rem_euclid` for `BigInt`: Euclidean quotient and remainder, the
/// remainder never negative. It panics on a zero divisor.
#[verifier::external_body]
pub(crate) fn big_div_rem_euc(a: &BigInt, b: &BigInt) -> (r: (BigInt, BigInt))
    requires
        value_of(*b) > 0,
    ensures
        value_of(r.0) == value_of(*a) / value_of(*b),
        value_of(r.1) == value_of(*a) % value_of(*b),
{
    a.div_rem_euclid(b)
}

/// Relies on `BigInt`'s `PartialOrd`: numeric order.
#[verifier::external_body]
pub(crate) fn big_lt(a: &BigInt, b: &BigInt) -> (r: bool)
    ensures
        r == (value_of(*a) < value_of(*b)),
{
    a < b
}

/// Relies on `BigInt`'s `PartialEq`: numeric equality.
#[verifier::external_body]
pub(crate) fn big_eq(a: &BigInt, b: &BigInt) -> (r: bool)
    ensures
        r == (value_of(*a) == value_of(*b)),
{
    a == b
}

/// Relies on `num_integer::Integer::gcd` for `BigInt`: the greatest common divisor of the absolute
/// values (zero only when both are zero).
#[verifier::external_body]
pub(crate) fn big_gcd(a: &BigInt, b: &BigInt) -> (r: BigInt)
    ensures
        value_of(r) == gcd(abs(value_of(*a)), abs(value_of(*b))) as int,
{
    a.gcd(b)
}

/// Relies on `num_integer::Integer::lcm` for `BigInt`: the least common multiple of the absolute
/// values, zero when either is zero.
#[verifier::external_body]
pub(crate) fn big_lcm(a: &BigInt, b: &BigInt) -> (r: BigInt)
    ensures
        value_of(r) == lcm(abs(value_of(*a)), abs(value_of(*b))) as int,
{
    a.lcm(b)
}

/// Relies on `BigInt::modinv`: an inverse exists exactly when `a` and the
/// modulus are coprime, and is then reduced into `[0, m)`.
#[verifier::external_body]
pub(crate) fn big_invert(a: &BigInt, m: &BigInt) -> (r: Option<BigInt>)
    requires
        value_of(*m) > 1,
    ensures
        r.is_some() == (gcd(abs(value_of(*a)), value_of(*m) as nat) == 1),
        r.is_some() ==> 0 <= value_of(r.unwrap()) < value_of(*m),
        r.is_some() ==> (value_of(*a) * value_of(r.unwrap())) % value_of(*m) == 1,
{
    a.modinv(m)
}

/// Relies on `BigInt::modpow`: `b^e` reduced into `[0, m)`. It panics on a
/// negative exponent or a zero modulus.
#[verifier::external_body]
pub(crate) fn big_pow_mod(b: &BigInt, e: &BigInt, m: &BigInt) -> (r: BigInt)
    requires
        value_of(*e) >= 0,
        value_of(*m) > 1,
    ensures
        value_of(r) == pow(value_of(*b), value_of(*e) as nat) % value_of(*m),
{
    b.modpow(e, m)
}

/// Relies on `BigInt::bits`: the number of bits of `|a|`.
#[verifier::external_body]
pub(crate) fn big_bits(a: &BigInt) -> (r: u64)
    ensures
        abs(value_of(*a)) < pow(2, r as nat),
        r == 0 || pow(2, (r - 1) as nat) <= abs(value_of(*a)),
{
    a.bits()
}

/// Relies on `BigInt::from_bytes_le` with a positive sign: the bytes are
/// read least significant first.
#[verifier::external_body]
pub(crate) fn big_from_le_bytes(b: &Vec<u8>) -> (r: BigInt)
    ensures
        value_of(r) == le_value(b@) as int,
{
    BigInt::from_bytes_le(Sign::Plus, b.as_slice())
}

/// Relies on `SystemRandom::fill` to overwrite the buffer with bytes from the
/// operating system's secure source; `false` when that source failed.
#[verifier::external_body]
pub(crate) fn fill_random(rng: &SystemRandom, buf: &mut Vec<u8>) -> (r: bool)
    ensures
        final(buf)@.len() == old(buf)@.len(),
{
    rng.fill(buf.as_mut_slice()).is_ok()
}

/// Relies on `num_primes::Generator::safe_prime` for a candidate safe prime
/// of at most the given size. It is tested probabilistically, so nothing is
/// promised of it here; callers check what they need. Its Miller-Rabin test
/// panics when a draw reaches 3 (directly, or through the check on 7), so
/// sizes small enough to draw those are left out.
#[verifier::external_body]
pub(crate) fn safe_prime(bits: usize) -> (r: BigInt)
    requires
        bits >= 64,
{
    BigInt::from_bytes_le(Sign::Plus, &Generator::safe_prime(bits).to_bytes_le())
}

} // verus!

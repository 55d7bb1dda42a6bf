use crate::error::PaillierError;
use crate::integer::{
    big_bits, big_eq, big_from_i64, big_from_le_bytes, big_gcd, big_lt, fill_random, value_of,
};
use crate::math::{abs, gcd, le_value};
use num_bigint::BigInt;
use ring::rand::SystemRandom;
use vstd::prelude::*;

verus! {

/// How many draws a rejection-sampling loop makes before it gives up.
pub const SAMPLING_ATTEMPTS: u32 = 64;

/// The mask that keeps the low `spare` bits of a byte, or all of it when
/// `spare` is zero.
pub open spec fn top_mask(spare: u64) -> u8 {
    if spare == 0 { 0xffu8 } else { 0xffu8 >> ((8 - spare) as u8) }
}

/// The little-endian value of `s` once the bits of its last byte above
/// `spare` are cleared.
pub open spec fn masked_value(s: Seq<u8>, spare: u64) -> nat {
    if s.len() == 0 {
        0
    } else {
        le_value(s.update(s.len() - 1, s[s.len() - 1] & top_mask(spare)))
    }
}

/// A zeroed buffer of `(bits + 7) / 8` bytes, as wide as a number of `bits` bits.
pub fn sample_buffer(bits: u64) -> (buf: Vec<u8>)
    ensures
        buf@.len() == (bits as int + 7) / 8,
        forall|i: int| 0 <= i < buf@.len() ==> buf@[i] == 0u8,
{
    let len: u64 = bits / 8 + if bits % 8 == 0 { 0 } else { 1 };
    assert(len as int == (bits as int + 7) / 8);
    let mut buf: Vec<u8> = Vec::new();
    while (buf.len() as u64) < len
        invariant
            buf@.len() <= len,
            forall|i: int| 0 <= i < buf@.len() ==> buf@[i] == 0u8,
        decreases len - buf@.len(),
    {
        buf.push(0u8);
    }
    buf
}

/// Reads a filled buffer as a candidate below `bound`: the bits of the last
/// byte above `spare` are cleared, the bytes are read least significant
/// first, and the value is kept only when it is below `bound`.
pub fn value_from_bytes(buf: Vec<u8>, spare: u64, bound: &BigInt) -> (r: Option<BigInt>)
    requires
        spare < 8,
    ensures
        match r {
            Some(x) => value_of(x) == masked_value(buf@, spare) && masked_value(buf@, spare)
                < value_of(*bound),
            None => masked_value(buf@, spare) >= value_of(*bound),
        },
{
    let mut bytes = buf;
    let ghost original = bytes@;
    if bytes.len() > 0 {
        let last = bytes.len() - 1;
        let mask: u8 = if spare == 0 { 0xffu8 } else { 0xffu8 >> ((8 - spare) as u8) };
        let top: u8 = bytes[last] & mask;
        bytes.set(last, top);
    }
    assert(le_value(bytes@) == masked_value(original, spare));
    let x = big_from_le_bytes(&bytes);
    if big_lt(&x, bound) {
        Some(x)
    } else {
        None
    }
}

/// Keeps `x` when it is coprime to `modulus`.
pub fn accept_coprime(x: BigInt, modulus: &BigInt) -> (r: Option<BigInt>)
    ensures
        r.is_some() <==> gcd(abs(value_of(x)), abs(value_of(*modulus))) == 1,
        r.is_some() ==> value_of(r.unwrap()) == value_of(x),
{
    let one = big_from_i64(1);
    let d = big_gcd(&x, modulus);
    if big_eq(&d, &one) {
        Some(x)
    } else {
        None
    }
}

/// Draws an integer from `[0, bound)`. Each attempt fills a fresh
/// `sample_buffer` as wide as `bound` and reads it with `value_from_bytes`;
/// the first value kept is returned. Fails with `RandomSamplingExhausted`
/// when `bound <= 0`, and after `SAMPLING_ATTEMPTS` rejected attempts.
pub fn random_below(bound: &BigInt, rng: &SystemRandom) -> (r: Result<BigInt, PaillierError>)
    ensures
        value_of(*bound) <= 0 ==> r == Err::<BigInt, PaillierError>(
            PaillierError::RandomSamplingExhausted,
        ),
        match r {
            Ok(x) => 0 <= value_of(x) < value_of(*bound),
            Err(e) => e == PaillierError::RandomSamplingExhausted,
        },
{
    let zero = big_from_i64(0);
    if !big_lt(&zero, bound) {
        return Err(PaillierError::RandomSamplingExhausted);
    }
    let bits = big_bits(bound);
    let spare: u64 = bits % 8;
    let mut attempt: u32 = 0;
    while attempt < SAMPLING_ATTEMPTS
        invariant
            value_of(*bound) > 0,
            spare < 8,
        decreases SAMPLING_ATTEMPTS - attempt,
    {
        let mut buf = sample_buffer(bits);
        if fill_random(rng, &mut buf) {
            if let Some(x) = value_from_bytes(buf, spare, bound) {
                return Ok(x);
            }
        }
        attempt = attempt + 1;
    }
    Err(PaillierError::RandomSamplingExhausted)
}

/// Draws an integer from `[0, bound)` that is coprime to `modulus`: each
/// attempt draws with `random_below` and keeps the sample only if
/// `accept_coprime` does. Fails with `RandomSamplingExhausted` when
/// `bound <= 0`, and after `SAMPLING_ATTEMPTS` rejected samples.
pub fn random_below_coprime(bound: &BigInt, modulus: &BigInt, rng: &SystemRandom) -> (r: Result<
    BigInt,
    PaillierError,
>)
    ensures
        value_of(*bound) <= 0 ==> r == Err::<BigInt, PaillierError>(
            PaillierError::RandomSamplingExhausted,
        ),
        match r {
            Ok(x) => 0 <= value_of(x) < value_of(*bound) && gcd(
                abs(value_of(x)),
                abs(value_of(*modulus)),
            ) == 1,
            Err(e) => e == PaillierError::RandomSamplingExhausted,
        },
{
    let zero = big_from_i64(0);
    if !big_lt(&zero, bound) {
        return Err(PaillierError::RandomSamplingExhausted);
    }
    let mut attempt: u32 = 0;
    while attempt < SAMPLING_ATTEMPTS
        invariant
            value_of(*bound) > 0,
        decreases SAMPLING_ATTEMPTS - attempt,
    {
        let x = random_below(bound, rng)?;
        if let Some(y) = accept_coprime(x, modulus) {
            return Ok(y);
        }
        attempt = attempt + 1;
    }
    Err(PaillierError::RandomSamplingExhausted)
}

} // verus!

use vstd::prelude::*;

verus! {

/// Absolute value as a natural number.
pub open spec fn abs(a: int) -> nat {
    if a < 0 { (-a) as nat } else { a as nat }
}

/// Greatest common divisor, by Euclid's recursion; `gcd(a, 0) == a`.
pub open spec fn gcd(a: nat, b: nat) -> nat
    decreases b,
{
    if b == 0 { a } else { gcd(b, a % b) }
}

/// Least common multiple; zero when either argument is zero.
pub open spec fn lcm(a: nat, b: nat) -> nat {
    if a == 0 || b == 0 { 0 } else { (a * b) / gcd(a, b) }
}

/// The value of a little-endian sequence of bytes.
pub open spec fn le_value(s: Seq<u8>) -> nat
    decreases s.len(),
{
    if s.len() == 0 { 0 } else { s[0] as nat + 256 * le_value(s.drop_first()) }
}

} // verus!

verus! {

/// For `b > 0` the greatest common divisor is positive and at most `b`.
pub proof fn lemma_gcd_bounds(a: nat, b: nat)
    requires
        b > 0,
    ensures
        0 < gcd(a, b) <= b,
    decreases b,
{
    assert(gcd(a, b) == gcd(b, a % b));
    if a % b != 0 {
        lemma_gcd_bounds(b, a % b);
    } else {
        assert(gcd(b, 0) == b);
    }
}

/// The least common multiple of two positive numbers is positive.
pub proof fn lemma_lcm_positive(a: nat, b: nat)
    requires
        a > 0,
        b > 0,
    ensures
        lcm(a, b) > 0,
{
    lemma_gcd_bounds(a, b);
    let g = gcd(a, b);
    assert(a * b >= g) by (nonlinear_arith)
        requires a >= 1, b >= g;
    vstd::arithmetic::div_mod::lemma_div_is_ordered(g as int, (a * b) as int, g as int);
    vstd::arithmetic::div_mod::lemma_div_by_self(g as int);
}

/// The product of two odd numbers of at least three is odd and above one.
pub proof fn lemma_odd_product(p: int, q: int)
    requires
        p >= 3 && p % 2 == 1,
        q >= 3 && q % 2 == 1,
    ensures
        p * q > 1,
        (p * q) % 2 == 1,
{
    let a = p / 2;
    let b = q / 2;
    assert(p * q == 2 * (2 * a * b + a + b) + 1) by (nonlinear_arith)
        requires p == 2 * a + 1, q == 2 * b + 1;
    assert(p * q > 1) by (nonlinear_arith)
        requires p >= 3, q >= 3;
}

} // verus!

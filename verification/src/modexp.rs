//! Fixed-width modular exponentiation, the arithmetic core of the
//! Diffie-Hellman handshake.

use vstd::prelude::*;
use vstd::arithmetic::power::{
    lemma_pow0, lemma_pow1, lemma_pow_adds, lemma_pow_mod_noop, lemma_pow_multiplies, pow,
};
use vstd::arithmetic::div_mod::{
    lemma_mod_bound, lemma_mul_mod_noop_general, lemma_mul_mod_noop_right, lemma_small_mod,
};
use vstd::arithmetic::mul::lemma_mul_is_commutative;

verus! {

/// `base ^ exponent mod modulus` as mathematics.  A modulus of 1 yields 0,
/// since every integer is congruent to 0 modulo 1.
pub open spec fn pow_mod(base: u64, exponent: u64, modulus: u64) -> u64
    recommends
        modulus >= 1,
{
    (pow(base as int, exponent as nat) % (modulus as int)) as u64
}

/// One reduced product, taken in 128 bits so the multiplication can never
/// silently wrap before the reduction.
fn mul_mod(x: u64, y: u64, m: u64) -> (r: u64)
    requires
        m >= 1,
    ensures
        r as int == (x as int * y as int) % (m as int),
        r < m,
{
    proof {
        assert(0 <= (x as int) * (y as int)
            < 0x100000000000000000000000000000000) by (nonlinear_arith)
            requires
                x <= 0xFFFFFFFFFFFFFFFFu64,
                y <= 0xFFFFFFFFFFFFFFFFu64,
        ;
        lemma_mod_bound((x as int) * (y as int), m as int);
    }
    ((x as u128 * y as u128) % (m as u128)) as u64
}

/// Square-and-multiply modular exponentiation over 64-bit operands.
/// Intermediate products are taken in 128 bits, so no reduction is ever
/// applied to a silently truncated product.
pub fn mod_pow(base: u64, exp: u64, modulus: u64) -> (result: u64)
    requires
        modulus >= 1,
    ensures
        result == pow_mod(base, exp, modulus),
        modulus == 1 ==> result == 0,
{
    let ghost m = modulus as int;
    if modulus == 1 {
        return 0;
    }
    let mut result: u64 = 1;
    let mut b: u64 = base % modulus;
    let mut e: u64 = exp;
    proof {
        lemma_pow_mod_noop(base as int, exp as nat, m);
        lemma_mod_bound(pow(base as int, exp as nat), m);
    }
    while e > 0
        invariant
            modulus >= 2,
            m == modulus as int,
            b < modulus,
            result < modulus,
            pow_mod(base, exp, modulus) as int == (result as int * pow(b as int, e as nat)) % m,
        decreases e,
    {
        let ghost r0 = result as int;
        let ghost b0 = b as int;
        let ghost e0 = e as nat;
        let odd = e % 2 == 1;
        if odd {
            result = mul_mod(result, b, modulus);
        }
        e = e / 2;
        b = mul_mod(b, b, modulus);
        proof {
            let q = e as nat;
            let sq = pow(b0 * b0, q);
            let rr = if odd { r0 * b0 } else { r0 };
            // pow(b0, e0) == sq * pow(b0, e0 % 2)
            lemma_pow_multiplies(b0, 2, q);
            lemma_pow1(b0);
            lemma_pow_adds(b0, 1, 1);
            lemma_pow_adds(b0, (2 * q) as nat, (e0 % 2) as nat);
            assert(pow(b0, e0) == sq * pow(b0, (e0 % 2) as nat));
            // r0 * pow(b0, e0) == rr * sq
            if odd {
                lemma_pow1(b0);
                assert(r0 * (sq * b0) == (r0 * b0) * sq) by (nonlinear_arith);
            } else {
                lemma_pow0(b0);
            }
            assert(r0 * pow(b0, e0) == rr * sq);
            // the new accumulator is rr reduced modulo m
            lemma_small_mod(r0 as nat, m as nat);
            assert(result as int == rr % m);
            // (result * pow(b, q)) % m == (rr * sq) % m
            lemma_pow_mod_noop(b0 * b0, q, m);
            assert(pow(b as int, q) % m == sq % m);
            lemma_mul_mod_noop_right(result as int, pow(b as int, q), m);
            lemma_mul_mod_noop_right(result as int, sq, m);
            assert((result as int * pow(b as int, q)) % m == (result as int * sq) % m);
            lemma_mul_mod_noop_general(rr, sq, m);
            assert((result as int * sq) % m == (rr * sq) % m);
        }
    }
    proof {
        lemma_pow0(b as int);
        lemma_small_mod(result as nat, m as nat);
    }
    result
}

/// Diffie-Hellman agreement: raising the generator by the two private keys
/// in either order reaches the same value, so both peers derive one secret.
pub proof fn lemma_dh_agreement(g: u64, a: u64, b: u64, p: u64)
    requires
        p >= 1,
    ensures
        pow_mod(pow_mod(g, a, p), b, p) == pow_mod(pow_mod(g, b, p), a, p),
{
    lemma_pow_mod_one_side(g, a, b, p);
    lemma_pow_mod_one_side(g, b, a, p);
    lemma_mul_is_commutative(a as int, b as int);
}

/// A modulus of 1 collapses every result to 0.
pub proof fn lemma_pow_mod_trivial_modulus(base: u64, exponent: u64)
    ensures
        pow_mod(base, exponent, 1) == 0,
{
}

proof fn lemma_pow_mod_one_side(g: u64, x: u64, y: u64, p: u64)
    requires
        p >= 1,
    ensures
        pow_mod(pow_mod(g, x, p), y, p) == (pow(g as int, (x as nat * y as nat)) % (p as int)) as u64,
{
    let m = p as int;
    let inner = pow(g as int, x as nat) % m;
    lemma_mod_bound(pow(g as int, x as nat), m);
    assert(pow_mod(g, x, p) as int == inner);
    lemma_pow_mod_noop(pow(g as int, x as nat), y as nat, m);
    assert(pow(inner, y as nat) % m == pow(pow(g as int, x as nat), y as nat) % m);
    lemma_pow_multiplies(g as int, x as nat, y as nat);
}

} // verus!

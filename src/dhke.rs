use vstd::arithmetic::div_mod::{lemma_mod_twice, lemma_mul_mod_noop_general, lemma_small_mod};
use vstd::arithmetic::power::{
    lemma_pow0, lemma_pow1, lemma_pow_adds, lemma_pow_mod_noop, lemma_pow_multiplies,
    lemma_square_is_pow2, pow,
};
use vstd::prelude::*;

verus! {

pub type Int = u64;

/// The generator of the key agreement.
pub const BASE: Int = 7;

/// The modulus of the key agreement: the Mersenne prime 2^31 - 1.
pub const MODULUS: Int = 2147483647;

/// `base` to the power `exponent`, modulo `modulus`.
pub open spec fn pow_mod(base: int, exponent: nat, modulus: int) -> int {
    pow(base, exponent) % modulus
}

/// The value a peer sends for the private value `a`: `BASE^a mod MODULUS`.
pub open spec fn offer_of(a: u32) -> int {
    pow_mod(BASE as int, a as nat, MODULUS as int)
}

/// The session key a peer with private value `a` derives from the value
/// `received` from the other side: `received^a mod MODULUS`.
pub open spec fn key_of(received: int, a: u32) -> int {
    pow_mod(received, a as nat, MODULUS as int)
}

/// One squaring step of the right-to-left method keeps the product
/// `r * b^e` modulo `m`.
proof fn lemma_square_step(r: int, b: int, e: nat, m: int)
    requires
        m > 0,
    ensures
        (((r * pow(b, e % 2)) % m) * pow((b * b) % m, e / 2)) % m == (r * pow(b, e)) % m,
{
    let k = e / 2;
    let x = r * pow(b, e % 2);
    assert(e == e % 2 + 2 * k);
    lemma_pow_adds(b, e % 2, 2 * k);
    lemma_pow_multiplies(b, 2, k);
    lemma_square_is_pow2(b);
    lemma_pow_mod_noop(b * b, k, m);
    lemma_mul_mod_noop_general(x, pow((b * b) % m, k), m);
    lemma_mul_mod_noop_general(x, pow(b * b, k), m);
    assert(x * pow(b * b, k) == r * pow(b, e)) by (nonlinear_arith)
        requires
            x == r * pow(b, e % 2),
            pow(b, e) == pow(b, e % 2) * pow(b, 2 * k),
            pow(b, 2 * k) == pow(b * b, k),
    ;
}

/// Modular exponentiation by the right-to-left binary method.
pub fn modular_pow(base: Int, exponent: Int, modulus: Int) -> (r: Int)
    requires
        0 < modulus <= 0x1_0000_0000,
    ensures
        r == pow_mod(base as int, exponent as nat, modulus as int),
{
    let m = modulus;
    if m == 1 {
        return 0;
    }
    let ghost b0 = base as int;
    let ghost e0 = exponent as nat;
    let mut b = base;
    let mut e = exponent;
    let mut result: Int = 1;
    b = b % m;
    proof {
        lemma_pow_mod_noop(b0, e0, m as int);
        lemma_pow0(b as int);
    }
    while e > 0
        invariant
            1 < m <= 0x1_0000_0000,
            b < m,
            result < m,
            (result as int * pow(b as int, e as nat)) % (m as int) == pow(b0, e0) % (m as int),
        decreases e,
    {
        let ghost r0 = result as int;
        let ghost bb = b as int;
        let ghost ee = e as nat;
        proof {
            lemma_square_step(r0, bb, ee, m as int);
            lemma_pow0(bb);
            lemma_pow1(bb);
            lemma_small_mod(result as nat, m as nat);
            lemma_small_mod(b as nat, m as nat);
            lemma_mod_twice(r0 * bb, m as int);
            lemma_mod_twice(bb * bb, m as int);
        }
        assert((result % m) * b <= 0xffff_ffff_ffff_ffff) by (nonlinear_arith)
            requires
                result % m < m,
                b < m,
                m <= 0x1_0000_0000,
        ;
        if e % 2 == 1 {
            result = (result % m * b % m) % m;
            assert(result as int == (r0 * pow(bb, ee % 2)) % (m as int));
        } else {
            assert(result as int == (r0 * pow(bb, ee % 2)) % (m as int));
        }
        e = e / 2;
        assert(b % m * b <= 0xffff_ffff_ffff_ffff) by (nonlinear_arith)
            requires
                b % m < m,
                b < m,
                m <= 0x1_0000_0000,
        ;
        b = (b % m * b % m) % m;
        assert(b as int == (bb * bb) % (m as int));
    }
    proof {
        lemma_pow0(b as int);
        lemma_small_mod(result as nat, m as nat);
    }
    result
}

/// The value to send for the private value `a`.
pub fn handshake_offer(a: u32) -> (r: u32)
    ensures
        r == offer_of(a),
{
    modular_pow(BASE, a as Int, MODULUS) as u32
}

/// The session key derived from the peer's value `received` and the private
/// value `a`.
pub fn session_key(received: u32, a: u32) -> (r: u32)
    ensures
        r == key_of(received as int, a),
{
    modular_pow(received as Int, a as Int, MODULUS) as u32
}

/// Two peers that each send the value of their private value and derive the
/// key from what the other sent arrive at the same key.
pub proof fn lemma_keys_agree(a: u32, b: u32)
    ensures
        key_of(offer_of(a), b) == key_of(offer_of(b), a),
{
    let g = BASE as int;
    let p = MODULUS as int;
    lemma_pow_mod_noop(pow(g, a as nat), b as nat, p);
    lemma_pow_mod_noop(pow(g, b as nat), a as nat, p);
    lemma_pow_multiplies(g, a as nat, b as nat);
    lemma_pow_multiplies(g, b as nat, a as nat);
    assert(a as nat * b as nat == b as nat * a as nat) by (nonlinear_arith);
}

} // verus!

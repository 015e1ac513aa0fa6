use vstd::arithmetic::div_mod::*;
use vstd::arithmetic::power::*;
use vstd::prelude::*;

use num_bigint::BigInt;
use num_traits::ToPrimitive;

use crate::error::ShareError;

verus! {

/// `base^exponent mod modulus` as a mathematical value.
pub open spec fn pow_mod(base: int, exponent: nat, modulus: int) -> int {
    pow(base, exponent) % modulus
}

/// One step of square-and-multiply: an exponent splits into its low bit and
/// the remaining half, applied to the squared base.
proof fn lemma_pow_halve(b: int, e: nat)
    ensures
        pow(b, e) == pow(b, e % 2) * pow(b * b, e / 2),
{
    lemma_square_is_pow2(b);
    lemma_pow_multiplies(b, 2, e / 2);
    lemma_pow_adds(b, e % 2, 2 * (e / 2));
    assert(e == e % 2 + 2 * (e / 2));
}

/// Computes `base^exponent mod modulus` by square-and-multiply.
///
/// A negative exponent is refused with `InvalidExponent`; otherwise the
/// result lies in `[0, modulus)`.
pub fn mod_exp(base: u64, exponent: i64, modulus: u64) -> (r: Result<u64, ShareError>)
    requires
        modulus > 1,
    ensures
        exponent < 0 <==> r == Err::<u64, ShareError>(ShareError::InvalidExponent),
        exponent >= 0 <==> r is Ok,
        r matches Ok(v) ==> v < modulus && v as int == pow_mod(
            base as int,
            exponent as nat,
            modulus as int,
        ),
{
    if exponent < 0 {
        return Err(ShareError::InvalidExponent);
    }
    let m: u128 = modulus as u128;
    let mut result: u128 = 1;
    let mut b: u128 = (base as u128) % m;
    let mut e: u64 = exponent as u64;
    proof {
        lemma_pow_mod_noop(base as int, e as nat, m as int);
        lemma_small_mod(1, m as nat);
    }
    while e > 0
        invariant
            m == modulus as u128,
            m > 1,
            m <= 0xffff_ffff_ffff_ffffu128,
            exponent >= 0,
            result < m,
            b < m,
            (result * pow(b as int, e as nat)) % (m as int) == pow(base as int, exponent as nat)
                % (m as int),
        decreases e,
    {
        let ghost old_b = b as int;
        let ghost old_e = e as nat;
        let ghost old_result = result as int;
        proof {
            lemma_pow_halve(old_b, old_e);
        }
        if e % 2 == 1 {
            assert(result * b < 0xffff_ffff_ffff_ffffu128 * 0xffff_ffff_ffff_ffffu128)
                by (nonlinear_arith)
                requires result < m, b < m, m <= 0xffff_ffff_ffff_ffffu128;
            result = (result * b) % m;
        }
        assert(b * b < 0xffff_ffff_ffff_ffffu128 * 0xffff_ffff_ffff_ffffu128)
            by (nonlinear_arith)
            requires b < m, m <= 0xffff_ffff_ffff_ffffu128;
        b = (b * b) % m;
        e = e / 2;
        proof {
            let mi = m as int;
            let rest = pow(old_b * old_b, e as nat);
            // old_result * old_b^old_e == (old_result * old_b^(bit)) * (old_b^2)^e
            assert(old_result * pow(old_b, old_e) == (old_result * pow(old_b, old_e % 2)) * rest)
                by (nonlinear_arith)
                requires pow(old_b, old_e) == pow(old_b, old_e % 2) * rest;
            if old_e % 2 == 1 {
                lemma_pow1(old_b);
                assert(result as int == (old_result * pow(old_b, old_e % 2)) % mi);
            } else {
                lemma_pow0(old_b);
                lemma_small_mod(old_result as nat, mi as nat);
                assert(result as int == (old_result * pow(old_b, old_e % 2)) % mi);
            }
            let big_r = old_result * pow(old_b, old_e % 2);
            lemma_pow_mod_noop(old_b * old_b, e as nat, mi);
            assert(b as int == (old_b * old_b) % mi);
            assert(pow(b as int, e as nat) % mi == rest % mi);
            lemma_small_mod(result as nat, mi as nat);
            lemma_mul_mod_noop(big_r, rest, mi);
            lemma_mul_mod_noop(result as int, pow(b as int, e as nat), mi);
            assert((result * pow(b as int, e as nat)) % mi == (big_r * rest) % mi);
        }
    }
    proof {
        lemma_pow0(b as int);
        lemma_small_mod(result as nat, m as nat);
    }
    Ok(result as u64)
}

} // verus!

verus! {

/// Relies on `num_bigint::BigInt::modpow`: for a positive modulus and a
/// non-negative exponent it returns `base^exponent` reduced into
/// `[0, modulus)`; the conversion back to `u64` cannot fail since the result
/// is below the modulus.
#[verifier::external_body]
pub(crate) fn big_modpow(base: u64, exponent: u64, modulus: u64) -> (r: u64)
    requires
        modulus > 0,
    ensures
        r < modulus,
        r as int == pow_mod(base as int, exponent as nat, modulus as int),
{
    let r = BigInt::from(base).modpow(&BigInt::from(exponent), &BigInt::from(modulus));
    r.to_u64().unwrap()
}

/// Multiplies two residues modulo `m` without leaving `u64`.
pub(crate) fn mul_mod(a: u64, b: u64, m: u64) -> (r: u64)
    requires
        m > 0,
    ensures
        r < m,
        r as int == (a as int * b as int) % (m as int),
{
    assert(a as u128 * b as u128 <= 0xffff_ffff_ffff_ffffu128 * 0xffff_ffff_ffff_ffffu128)
        by (nonlinear_arith);
    ((a as u128 * b as u128) % (m as u128)) as u64
}

/// Adds two residues modulo `m` without leaving `u64`.
pub(crate) fn add_mod(a: u64, b: u64, m: u64) -> (r: u64)
    requires
        m > 0,
    ensures
        r < m,
        r as int == (a as int + b as int) % (m as int),
{
    ((a as u128 + b as u128) % (m as u128)) as u64
}

/// `pow(base, e) % m` unfolds by one factor of the base.
pub proof fn lemma_pow_mod_step(base: int, e: nat, m: int)
    requires
        m > 0,
    ensures
        pow(base, e + 1) % m == ((pow(base, e) % m) * base) % m,
{
    lemma_pow1(base);
    lemma_pow_adds(base, e, 1);
    lemma_mul_mod_noop_left(pow(base, e), base, m);
}

/// `pow(base, 2e) % m` is the square of `pow(base, e) % m`, reduced.
pub proof fn lemma_pow_mod_double(base: int, e: nat, m: int)
    requires
        m > 0,
    ensures
        pow(base, 2 * e) % m == ((pow(base, e) % m) * (pow(base, e) % m)) % m,
{
    lemma_pow_adds(base, e, e);
    assert(2 * e == e + e);
    lemma_mul_mod_noop(pow(base, e), pow(base, e), m);
}

} // verus!

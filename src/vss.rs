use vstd::arithmetic::div_mod::*;
use vstd::arithmetic::power::*;
use vstd::prelude::*;

use crate::error::ShareError;
use crate::field::{big_modpow, lemma_pow_mod_double, lemma_pow_mod_step, mul_mod, pow_mod};
use crate::polynomial::{eval_mod, poly_value};

verus! {

/// The public field setup of the commitment scheme: commitments live in the
/// multiplicative group modulo the prime `p`, and `g` generates a subgroup
/// whose order divides `q`, so that shares are field elements modulo `q`.
#[derive(Debug, Clone, Copy, PartialEq, Eq, Structural)]
pub struct VSSParams {
    /// The modulus of the commitment group.
    pub p: u64,
    /// The modulus of the share field: `g^q = 1 (mod p)`.
    pub q: u64,
    /// The generator raised to the polynomial's coefficients.
    pub g: u64,
}

impl VSSParams {
    /// The conditions under which commitments verify honest shares.
    pub open spec fn wf(&self) -> bool {
        &&& self.p > 1
        &&& self.q > 2
        &&& self.q < 0x8000_0000_0000_0000
        &&& self.g < self.p
        &&& pow_mod(self.g as int, self.q as nat, self.p as int) == 1
    }

    /// Distinct field elements give distinct commitments: `g` has order
    /// exactly `q`, so no altered share value can pass as the honest one.
    pub open spec fn collision_free(&self) -> bool {
        forall|a: int, b: int|
            0 <= a < b < self.q ==> #[trigger] pow_mod(self.g as int, a as nat, self.p as int)
                != #[trigger] pow_mod(self.g as int, b as nat, self.p as int)
    }

    /// The illustrative setup of `new`.
    pub open spec fn new_spec() -> Self {
        VSSParams { p: 2039, q: 1019, g: 2 }
    }

    /// The illustrative setup: `p = 2039`, `q = 1019 = (p - 1) / 2`, `g = 2`.
    /// Far too small to protect a real secret.
    pub fn new() -> (r: Self)
        ensures
            r.wf(),
            r.p == 2039 && r.q == 1019 && r.g == 2,
    {
        proof {
            lemma_default_generator_order();
        }
        VSSParams { p: 2039, q: 1019, g: 2 }
    }

    /// Builds a setup from given values, checking every condition of `wf`.
    ///
    /// Primality of `p` and `q` is not checked: reconstruction inverts
    /// modulo `q` by Fermat's little theorem and so relies on `q` prime.
    pub fn from_values(p: u64, q: u64, g: u64) -> (r: Option<Self>)
        ensures
            r is Some <==> (VSSParams { p, q, g }).wf(),
            r matches Some(v) ==> v == (VSSParams { p, q, g }),
    {
        if p <= 1 || q <= 2 || q >= 0x8000_0000_0000_0000 || g >= p {
            return None;
        }
        if big_modpow(g, q, p) != 1 {
            return None;
        }
        Some(VSSParams { p, q, g })
    }
}

/// `2^1019 = 1 (mod 2039)`, by repeated squaring along the bits of 1019.
proof fn lemma_default_generator_order()
    ensures
        pow_mod(2, 1019, 2039) == 1,
{
    let m: int = 2039;
    lemma_pow1(2);
    assert(pow(2, 1) % m == 2);
    lemma_pow_mod_double(2, 1, m);
    lemma_pow_mod_step(2, 2, m);
    assert(pow(2, 3) % m == 8);
    lemma_pow_mod_double(2, 3, m);
    lemma_pow_mod_step(2, 6, m);
    assert(pow(2, 7) % m == 128);
    lemma_pow_mod_double(2, 7, m);
    lemma_pow_mod_step(2, 14, m);
    assert(pow(2, 15) % m == 144);
    lemma_pow_mod_double(2, 15, m);
    lemma_pow_mod_step(2, 30, m);
    assert(pow(2, 31) % m == 692);
    lemma_pow_mod_double(2, 31, m);
    lemma_pow_mod_step(2, 62, m);
    assert(pow(2, 63) % m == 1437);
    lemma_pow_mod_double(2, 63, m);
    lemma_pow_mod_step(2, 126, m);
    assert(pow(2, 127) % m == 963);
    lemma_pow_mod_double(2, 127, m);
    assert(pow(2, 254) % m == 1663);
    lemma_pow_mod_double(2, 254, m);
    lemma_pow_mod_step(2, 508, m);
    assert(pow(2, 509) % m == 1370);
    lemma_pow_mod_double(2, 509, m);
    lemma_pow_mod_step(2, 1018, m);
    assert(pow(2, 1019) % m == 1);
}

/// The product `C_0^(x^0 mod q) * ... * C_(n-1)^(x^(n-1) mod q)` modulo `p`,
/// against which a share at `x` is checked.
pub open spec fn commitment_product(cs: Seq<u64>, x: int, params: VSSParams, n: int) -> int
    decreases n,
{
    if n <= 0 {
        1
    } else {
        (commitment_product(cs, x, params, n - 1) * pow_mod(
            cs[n - 1] as int,
            pow_mod(x, (n - 1) as nat, params.q as int) as nat,
            params.p as int,
        )) % (params.p as int)
    }
}

/// A share `(x, y)` is consistent with commitments `cs` when
/// `g^y mod p` equals their product at `x`.
pub open spec fn share_consistent(cs: Seq<u64>, x: int, y: int, params: VSSParams) -> bool {
    pow_mod(params.g as int, y as nat, params.p as int) == commitment_product(
        cs,
        x,
        params,
        cs.len() as int,
    )
}

/// The commitments `g^(a_i) mod p` to the coefficients `a_i`, in order.
pub open spec fn commit_spec(coefficients: Seq<u64>, params: VSSParams) -> Seq<u64> {
    Seq::new(
        coefficients.len(),
        |i: int| pow_mod(params.g as int, coefficients[i] as nat, params.p as int) as u64,
    )
}

/// The published commitments of one sharing session, together with the field
/// setup they were made under.
#[derive(Debug, Clone)]
pub struct VSSCommitments {
    commitments: Vec<u64>,
    params: VSSParams,
}

impl VSSCommitments {
    /// The commitment values, in coefficient order.
    pub closed spec fn values(&self) -> Seq<u64> {
        self.commitments@
    }

    /// The field setup the commitments were made under.
    pub closed spec fn params(&self) -> VSSParams {
        self.params
    }

    /// The commitment values, in coefficient order.
    pub fn commitment_list(&self) -> (r: &Vec<u64>)
        ensures
            r@ == self.values(),
    {
        &self.commitments
    }

    /// Commits to each coefficient: `C_i = g^(a_i) mod p`.
    pub fn new(coefficients: &Vec<u64>, params: &VSSParams) -> (r: Self)
        requires
            params.wf(),
        ensures
            r.values() == commit_spec(coefficients@, *params),
            r.params() == *params,
    {
        let mut commitments: Vec<u64> = Vec::new();
        let mut i: usize = 0;
        while i < coefficients.len()
            invariant
                params.wf(),
                i <= coefficients@.len(),
                commitments@ == commit_spec(coefficients@, *params).take(i as int),
            decreases coefficients@.len() - i,
        {
            let c = big_modpow(params.g, coefficients[i], params.p);
            commitments.push(c);
            i = i + 1;
            proof {
                assert(commitments@ =~= commit_spec(coefficients@, *params).take(i as int));
            }
        }
        proof {
            assert(commitments@ =~= commit_spec(coefficients@, *params));
        }
        VSSCommitments { commitments, params: *params }
    }

    /// Checks the share `(x, share)` against the commitments: `g^share mod p`
    /// must equal the product of `C_i^(x^i mod q)` modulo `p`.
    ///
    /// Checking under a setup other than the one the commitments were made
    /// under is a usage error, `ParameterMismatch`, and not a rejected share.
    pub fn verify_share(&self, x: u64, share: u64, params: &VSSParams) -> (r: Result<
        bool,
        ShareError,
    >)
        requires
            self.params().wf(),
        ensures
            *params != self.params() <==> r == Err::<bool, ShareError>(
                ShareError::ParameterMismatch,
            ),
            *params == self.params() <==> r is Ok,
            r matches Ok(b) ==> b == share_consistent(
                self.values(),
                x as int,
                share as int,
                *params,
            ),
    {
        if *params != self.params {
            return Err(ShareError::ParameterMismatch);
        }
        let mut expected: u64 = 1;
        let mut i: usize = 0;
        while i < self.commitments.len()
            invariant
                *params == self.params,
                params.wf(),
                i <= self.commitments@.len(),
                expected as int == commitment_product(self.commitments@, x as int, *params, i as int),
            decreases self.commitments@.len() - i,
        {
            let power = big_modpow(x, i as u64, params.q);
            let term = big_modpow(self.commitments[i], power, params.p);
            expected = mul_mod(expected, term, params.p);
            i = i + 1;
        }
        let actual = big_modpow(params.g, share, params.p);
        Ok(expected == actual)
    }
}

/// The exponent `a_0*(x^0 mod q) + ... + a_(n-1)*(x^(n-1) mod q)` that the
/// commitment product raises `g` to.
spec fn exponent_sum(coefficients: Seq<u64>, x: int, q: int, n: int) -> int
    decreases n,
{
    if n <= 0 {
        0
    } else {
        exponent_sum(coefficients, x, q, n - 1) + coefficients[n - 1] * pow_mod(
            x,
            (n - 1) as nat,
            q,
        )
    }
}

/// Exponents of `g` may be reduced modulo `q`, since `g^q = 1 (mod p)`.
proof fn lemma_reduce_exponent(params: VSSParams, a: nat)
    requires
        params.wf(),
    ensures
        pow_mod(params.g as int, a, params.p as int) == pow_mod(
            params.g as int,
            a % (params.q as nat),
            params.p as int,
        ),
{
    let g = params.g as int;
    let p = params.p as int;
    let q = params.q as nat;
    let k = a / q;
    let r = a % q;
    lemma_fundamental_div_mod(a as int, q as int);
    assert(a == q * k + r);
    lemma_pow_multiplies(g, q, k);
    lemma_pow_adds(g, q * k, r);
    lemma_pow_mod_noop(pow(g, q), k, p);
    lemma1_pow(k);
    lemma_small_mod(1, p as nat);
    lemma_mul_mod_noop_left(pow(pow(g, q), k), pow(g, r), p);
    lemma_mod_twice(pow(g, r), p);
}

/// The commitment product at `x` is `g` raised to the exponent sum.
proof fn lemma_product_is_power(coefficients: Seq<u64>, x: int, params: VSSParams, n: int)
    requires
        params.wf(),
        0 <= n <= coefficients.len(),
    ensures
        exponent_sum(coefficients, x, params.q as int, n) >= 0,
        commitment_product(commit_spec(coefficients, params), x, params, n) == pow_mod(
            params.g as int,
            exponent_sum(coefficients, x, params.q as int, n) as nat,
            params.p as int,
        ),
    decreases n,
{
    let g = params.g as int;
    let p = params.p as int;
    let q = params.q as int;
    let cs = commit_spec(coefficients, params);
    if n == 0 {
        lemma_pow0(g);
        lemma_small_mod(1, p as nat);
    } else {
        lemma_product_is_power(coefficients, x, params, n - 1);
        let s = exponent_sum(coefficients, x, q, n - 1);
        let a = coefficients[n - 1] as int;
        let e = pow_mod(x, (n - 1) as nat, q);
        assert(0 <= e < q);
        assert(a * e >= 0) by (nonlinear_arith)
            requires a >= 0, e >= 0;
        assert(cs[n - 1] as int == pow(g, a as nat) % p);
        lemma_pow_mod_noop(pow(g, a as nat), e as nat, p);
        lemma_pow_multiplies(g, a as nat, e as nat);
        lemma_mul_mod_noop(pow(g, s as nat), pow(g, (a * e) as nat), p);
        lemma_pow_adds(g, s as nat, (a * e) as nat);
    }
}

/// The exponent sum agrees with the polynomial's value modulo `q`.
proof fn lemma_exponent_sum_mod(coefficients: Seq<u64>, x: int, q: int, n: int)
    requires
        q > 0,
        0 <= n <= coefficients.len(),
    ensures
        exponent_sum(coefficients, x, q, n) % q == poly_value(coefficients, x, n) % q,
    decreases n,
{
    if n > 0 {
        lemma_exponent_sum_mod(coefficients, x, q, n - 1);
        let s = exponent_sum(coefficients, x, q, n - 1);
        let v = poly_value(coefficients, x, n - 1);
        let a = coefficients[n - 1] as int;
        let w = pow(x, (n - 1) as nat);
        lemma_mul_mod_noop_right(a, w, q);
        lemma_add_mod_noop(s, a * (w % q), q);
        lemma_add_mod_noop(v, a * w, q);
    }
}

/// Every share that the dealer computes from a polynomial passes
/// verification against the commitments to that polynomial.
pub proof fn lemma_commitment_soundness(coefficients: Seq<u64>, x: int, params: VSSParams)
    requires
        params.wf(),
    ensures
        share_consistent(
            commit_spec(coefficients, params),
            x,
            eval_mod(coefficients, x, params.q as int),
            params,
        ),
{
    let n = coefficients.len() as int;
    let q = params.q as int;
    lemma_product_is_power(coefficients, x, params, n);
    lemma_exponent_sum_mod(coefficients, x, q, n);
    let s = exponent_sum(coefficients, x, q, n);
    lemma_reduce_exponent(params, s as nat);
    let y = eval_mod(coefficients, x, q);
    lemma_reduce_exponent(params, y as nat);
    lemma_mod_twice(poly_value(coefficients, x, n), q);
}

/// Under a collision-free setup, a share whose value differs from the honest
/// one as a field element fails verification.
pub proof fn lemma_altered_share_rejected(
    coefficients: Seq<u64>,
    x: int,
    y: nat,
    params: VSSParams,
)
    requires
        params.wf(),
        params.collision_free(),
        y % (params.q as nat) != eval_mod(coefficients, x, params.q as int),
    ensures
        !share_consistent(commit_spec(coefficients, params), x, y as int, params),
{
    let q = params.q as int;
    let g = params.g as int;
    let p = params.p as int;
    lemma_commitment_soundness(coefficients, x, params);
    let honest = eval_mod(coefficients, x, q);
    let r = (y % (q as nat)) as int;
    lemma_reduce_exponent(params, y);
    lemma_reduce_exponent(params, honest as nat);
    if r < honest {
        assert(pow_mod(g, r as nat, p) != pow_mod(g, honest as nat, p));
    } else {
        assert(pow_mod(g, honest as nat, p) != pow_mod(g, r as nat, p));
    }
}

} // verus!

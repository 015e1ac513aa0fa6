use vstd::arithmetic::div_mod::*;
use vstd::arithmetic::power::*;
use vstd::prelude::*;

use crate::field::{add_mod, mul_mod};

verus! {

/// `c[0] + c[1]*x + ... + c[n-1]*x^(n-1)` over the integers.
pub open spec fn poly_value(c: Seq<u64>, x: int, n: int) -> int
    decreases n,
{
    if n <= 0 {
        0
    } else {
        poly_value(c, x, n - 1) + c[n - 1] * pow(x, (n - 1) as nat)
    }
}

/// The value of the polynomial with coefficients `c` at `x`, as a residue
/// modulo `m`.
pub open spec fn eval_mod(c: Seq<u64>, x: int, m: int) -> int {
    poly_value(c, x, c.len() as int) % m
}

/// Evaluates the polynomial with coefficients `coefficients` (constant term
/// first) at `x`, reducing every step modulo `m`.
pub fn evaluate(coefficients: &Vec<u64>, x: u64, m: u64) -> (r: u64)
    requires
        m > 0,
    ensures
        r < m,
        r as int == eval_mod(coefficients@, x as int, m as int),
{
    let n = coefficients.len();
    let mut acc: u64 = 0;
    let mut xp: u64 = 1 % m;
    let mut i: usize = 0;
    proof {
        lemma_pow0(x as int);
        assert(poly_value(coefficients@, x as int, 0) == 0);
        lemma_small_mod(0, m as nat);
    }
    while i < n
        invariant
            n == coefficients@.len(),
            m > 0,
            i <= n,
            acc < m,
            xp < m,
            acc as int == poly_value(coefficients@, x as int, i as int) % (m as int),
            xp as int == pow(x as int, i as nat) % (m as int),
        decreases n - i,
    {
        let c = coefficients[i];
        let term = mul_mod(c, xp, m);
        let new_acc = add_mod(acc, term, m);
        proof {
            let mi = m as int;
            let pv = poly_value(coefficients@, x as int, i as int);
            let pw = pow(x as int, i as nat);
            lemma_mul_mod_noop_right(c as int, pw, mi);
            lemma_add_mod_noop(pv, c * pw, mi);
            lemma_mod_twice(pv, mi);
            lemma_mod_twice(c * pw, mi);
            assert(poly_value(coefficients@, x as int, i + 1) == pv + c * pw);
        }
        let new_xp = mul_mod(xp, x, m);
        proof {
            crate::field::lemma_pow_mod_step(x as int, i as nat, m as int);
        }
        acc = new_acc;
        xp = new_xp;
        i = i + 1;
    }
    acc
}

} // verus!

use vstd::arithmetic::div_mod::*;
use vstd::prelude::*;

use crate::error::ShareError;
use crate::field::{add_mod, mod_exp, mul_mod, pow_mod};

verus! {

/// The x-coordinate of share `i` as a field element.
pub open spec fn coord(s: Seq<(u64, u64)>, i: int, q: int) -> int {
    s[i].0 as int % q
}

/// Some share sits at the coordinate zero of the field.
pub open spec fn has_zero_coord(s: Seq<(u64, u64)>, q: int) -> bool {
    exists|i: int| 0 <= i < s.len() && #[trigger] coord(s, i, q) == 0
}

/// Two shares sit at the same coordinate of the field.
pub open spec fn has_duplicate_coord(s: Seq<(u64, u64)>, q: int) -> bool {
    exists|i: int, j: int|
        0 <= i < j < s.len() && #[trigger] coord(s, i, q) == #[trigger] coord(s, j, q)
}

/// The product of the coordinates `x_j` over `j < n`, `j != i`, modulo `q`.
pub open spec fn basis_numerator(s: Seq<(u64, u64)>, i: int, n: int, q: int) -> int
    decreases n,
{
    if n <= 0 {
        1
    } else if n - 1 == i {
        basis_numerator(s, i, n - 1, q)
    } else {
        (basis_numerator(s, i, n - 1, q) * coord(s, n - 1, q)) % q
    }
}

/// The product of the differences `x_j - x_i` over `j < n`, `j != i`,
/// modulo `q`.
pub open spec fn basis_denominator(s: Seq<(u64, u64)>, i: int, n: int, q: int) -> int
    decreases n,
{
    if n <= 0 {
        1
    } else if n - 1 == i {
        basis_denominator(s, i, n - 1, q)
    } else {
        (basis_denominator(s, i, n - 1, q) * ((coord(s, n - 1, q) - coord(s, i, q)) % q)) % q
    }
}

/// The inverse of `a` modulo the prime `q`, by Fermat: `a^(q-2) mod q`.
pub open spec fn field_inverse(a: int, q: int) -> int {
    pow_mod(a, (q - 2) as nat, q)
}

/// The contribution `y_i * L_i(0)` of share `i`, where `L_i` is the Lagrange
/// basis polynomial of the coordinates of `s`.
pub open spec fn lagrange_term(s: Seq<(u64, u64)>, i: int, q: int) -> int {
    ((((s[i].1 as int % q) * basis_numerator(s, i, s.len() as int, q)) % q) * field_inverse(
        basis_denominator(s, i, s.len() as int, q),
        q,
    )) % q
}

/// The sum of the first `n` Lagrange terms, modulo `q`.
pub open spec fn lagrange_sum(s: Seq<(u64, u64)>, n: int, q: int) -> int
    decreases n,
{
    if n <= 0 {
        0
    } else {
        (lagrange_sum(s, n - 1, q) + lagrange_term(s, n - 1, q)) % q
    }
}

/// The value at zero of the interpolating polynomial through the shares `s`.
pub open spec fn interpolated_secret(s: Seq<(u64, u64)>, q: int) -> int {
    lagrange_sum(s, s.len() as int, q)
}

/// Finds whether some share has the coordinate zero modulo `q`.
fn find_zero_coord(shares: &Vec<(u64, u64)>, q: u64) -> (r: bool)
    requires
        q > 0,
    ensures
        r == has_zero_coord(shares@, q as int),
{
    let mut i: usize = 0;
    while i < shares.len()
        invariant
            q > 0,
            i <= shares@.len(),
            forall|k: int| 0 <= k < i ==> #[trigger] coord(shares@, k, q as int) != 0,
        decreases shares@.len() - i,
    {
        if shares[i].0 % q == 0 {
            assert(coord(shares@, i as int, q as int) == 0);
            return true;
        }
        i = i + 1;
    }
    false
}

/// Finds whether two shares have the same coordinate modulo `q`.
fn find_duplicate_coord(shares: &Vec<(u64, u64)>, q: u64) -> (r: bool)
    requires
        q > 0,
    ensures
        r == has_duplicate_coord(shares@, q as int),
{
    let n = shares.len();
    let mut i: usize = 0;
    while i < n
        invariant
            q > 0,
            n == shares@.len(),
            i <= n,
            forall|a: int, b: int|
                0 <= a < i && a < b < n ==> #[trigger] coord(shares@, a, q as int) != #[trigger] coord(
                    shares@,
                    b,
                    q as int,
                ),
        decreases n - i,
    {
        let mut j: usize = i + 1;
        while j < n
            invariant
                q > 0,
                n == shares@.len(),
                i < n,
                i + 1 <= j <= n,
                forall|a: int, b: int|
                    0 <= a < i && a < b < n ==> #[trigger] coord(shares@, a, q as int)
                        != #[trigger] coord(shares@, b, q as int),
                forall|b: int|
                    i < b < j ==> coord(shares@, i as int, q as int) != #[trigger] coord(
                        shares@,
                        b,
                        q as int,
                    ),
            decreases n - j,
        {
            if shares[i].0 % q == shares[j].0 % q {
                assert(coord(shares@, i as int, q as int) == coord(shares@, j as int, q as int));
                return true;
            }
            j = j + 1;
        }
        i = i + 1;
    }
    false
}

/// Computes the Lagrange term of share `i`.
fn lagrange_term_exec(shares: &Vec<(u64, u64)>, i: usize, q: u64) -> (r: u64)
    requires
        2 < q < 0x8000_0000_0000_0000,
        i < shares@.len(),
    ensures
        r as int == lagrange_term(shares@, i as int, q as int),
{
    let n = shares.len();
    let xi = shares[i].0 % q;
    let mut num: u64 = 1;
    let mut den: u64 = 1;
    let mut j: usize = 0;
    while j < n
        invariant
            2 < q < 0x8000_0000_0000_0000,
            n == shares@.len(),
            i < n,
            j <= n,
            xi < q,
            xi as int == coord(shares@, i as int, q as int),
            num as int == basis_numerator(shares@, i as int, j as int, q as int),
            den as int == basis_denominator(shares@, i as int, j as int, q as int),
            num < q,
            den < q,
        decreases n - j,
    {
        if j != i {
            let xj = shares[j].0 % q;
            num = mul_mod(num, xj, q);
            let diff = (xj + (q - xi)) % q;
            proof {
                let d = xj as int - xi as int;
                lemma_mod_multiples_vanish(1, d, q as int);
                assert(diff as int == (coord(shares@, j as int, q as int) - coord(
                    shares@,
                    i as int,
                    q as int,
                )) % (q as int));
            }
            den = mul_mod(den, diff, q);
        }
        j = j + 1;
    }
    assert(num as int == basis_numerator(shares@, i as int, shares@.len() as int, q as int));
    assert(den as int == basis_denominator(shares@, i as int, shares@.len() as int, q as int));
    let inv = match mod_exp(den, (q - 2) as i64, q) {
        Ok(v) => v,
        Err(_) => 0,
    };
    assert(inv as int == field_inverse(den as int, q as int));
    let y = shares[i].1 % q;
    mul_mod(mul_mod(y, num, q), inv, q)
}

/// Evaluates at zero the polynomial that interpolates the shares, in the
/// field of integers modulo `q`.
///
/// A share at coordinate zero is refused with `ZeroCoordinate`; two shares at
/// one coordinate with `DuplicateCoordinate`, as the basis would divide by
/// zero.
pub fn interpolate_at_zero(shares: &Vec<(u64, u64)>, q: u64) -> (r: Result<u64, ShareError>)
    requires
        2 < q < 0x8000_0000_0000_0000,
    ensures
        r == Err::<u64, ShareError>(ShareError::ZeroCoordinate) <==> has_zero_coord(
            shares@,
            q as int,
        ),
        r == Err::<u64, ShareError>(ShareError::DuplicateCoordinate) <==> !has_zero_coord(
            shares@,
            q as int,
        ) && has_duplicate_coord(shares@, q as int),
        r is Ok <==> !has_zero_coord(shares@, q as int) && !has_duplicate_coord(
            shares@,
            q as int,
        ),
        r matches Ok(v) ==> v < q && v as int == interpolated_secret(shares@, q as int),
{
    if find_zero_coord(shares, q) {
        return Err(ShareError::ZeroCoordinate);
    }
    if find_duplicate_coord(shares, q) {
        return Err(ShareError::DuplicateCoordinate);
    }
    let mut acc: u64 = 0;
    let mut i: usize = 0;
    while i < shares.len()
        invariant
            2 < q < 0x8000_0000_0000_0000,
            i <= shares@.len(),
            acc < q,
            acc as int == lagrange_sum(shares@, i as int, q as int),
        decreases shares@.len() - i,
    {
        let t = lagrange_term_exec(shares, i, q);
        acc = add_mod(acc, t, q);
        i = i + 1;
    }
    Ok(acc)
}

} // verus!

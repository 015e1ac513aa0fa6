use vstd::arithmetic::div_mod::lemma_small_mod;
use vstd::arithmetic::power::*;
use vstd::prelude::*;

use rand::rngs::StdRng;

use crate::error::ShareError;
use crate::lagrange::{
    basis_denominator, basis_numerator, coord, field_inverse, has_duplicate_coord, has_zero_coord,
    interpolate_at_zero, interpolated_secret, lagrange_sum, lagrange_term,
};
use crate::polynomial::{eval_mod, evaluate, poly_value};
use crate::random::draw_below;
use crate::vss::{commit_spec, share_consistent, VSSCommitments, VSSParams};

verus! {

/// The shares `(x, f(x) mod q)` at the coordinates `x = 1..=n`.
pub open spec fn share_seq(coefficients: Seq<u64>, n: int, q: int) -> Seq<(u64, u64)> {
    Seq::new(n as nat, |i: int| ((i + 1) as u64, eval_mod(coefficients, i + 1, q) as u64))
}

/// One dealer's sharing session: the secret, the share count and threshold,
/// the polynomial once drawn, its commitments and the shares handed out.
#[derive(Debug, Clone)]
pub struct SharmirModel {
    secret: u64,
    shares: usize,
    threshold: usize,
    generated_shares: Vec<(u64, u64)>,
    coefficients: Vec<u64>,
    vss_commitments: Option<VSSCommitments>,
    vss_params: VSSParams,
}

impl SharmirModel {
    pub closed spec fn secret(&self) -> u64 {
        self.secret
    }

    pub closed spec fn share_count(&self) -> usize {
        self.shares
    }

    pub closed spec fn threshold(&self) -> usize {
        self.threshold
    }

    pub closed spec fn params(&self) -> VSSParams {
        self.vss_params
    }

    /// The polynomial's coefficients, constant term first; empty until drawn.
    pub closed spec fn coefficients(&self) -> Seq<u64> {
        self.coefficients@
    }

    /// The shares distributed so far; empty until distributed.
    pub closed spec fn distributed(&self) -> Seq<(u64, u64)> {
        self.generated_shares@
    }

    /// The published commitments, once the polynomial is drawn.
    pub closed spec fn commitments(&self) -> Option<VSSCommitments> {
        self.vss_commitments
    }

    /// The polynomial has been drawn.
    pub open spec fn has_polynomial(&self) -> bool {
        self.coefficients().len() > 0
    }

    /// The session's invariant.
    pub open spec fn wf(&self) -> bool {
        let q = self.params().q as int;
        &&& self.params().wf()
        &&& 1 <= self.threshold() <= self.share_count()
        &&& self.share_count() < q
        &&& self.secret() < q
        &&& self.has_polynomial() ==> {
            &&& self.coefficients().len() == self.threshold()
            &&& self.coefficients()[0] == self.secret()
            &&& forall|i: int|
                0 <= i < self.coefficients().len() ==> #[trigger] self.coefficients()[i] < q
        }
        &&& self.commitments() is Some <==> self.has_polynomial()
        &&& self.commitments() matches Some(c) ==> c.params() == self.params() && c.values()
            == commit_spec(self.coefficients(), self.params())
        &&& self.distributed().len() > 0 ==> self.has_polynomial() && self.distributed()
            == share_seq(self.coefficients(), self.share_count() as int, q)
    }

    /// Starts a session under the given field setup. The threshold must be
    /// at least one and at most the share count, else `InvalidThreshold`.
    pub fn with_params(secret: u64, shares: usize, threshold: usize, params: VSSParams) -> (r:
        Result<Self, ShareError>)
        requires
            params.wf(),
            secret < params.q,
            shares < params.q,
        ensures
            r is Err <==> threshold == 0 || threshold > shares,
            r matches Err(e) ==> e == ShareError::InvalidThreshold,
            r matches Ok(m) ==> {
                &&& m.wf()
                &&& m.secret() == secret
                &&& m.share_count() == shares
                &&& m.threshold() == threshold
                &&& m.params() == params
                &&& !m.has_polynomial()
                &&& m.distributed().len() == 0
            },
    {
        if threshold == 0 || threshold > shares {
            return Err(ShareError::InvalidThreshold);
        }
        Ok(SharmirModel {
            secret,
            shares,
            threshold,
            generated_shares: Vec::new(),
            coefficients: Vec::new(),
            vss_commitments: None,
            vss_params: params,
        })
    }

    /// Starts a session under the default illustrative field setup
    /// (`q = 1019`), which bounds the secret and the share count.
    pub fn new(secret: u64, shares: usize, threshold: usize) -> (r: Result<Self, ShareError>)
        requires
            secret < 1019,
            shares < 1019,
        ensures
            r is Err <==> threshold == 0 || threshold > shares,
            r matches Err(e) ==> e == ShareError::InvalidThreshold,
            r matches Ok(m) ==> {
                &&& m.wf()
                &&& m.secret() == secret
                &&& m.share_count() == shares
                &&& m.threshold() == threshold
                &&& m.params() == VSSParams::new_spec()
                &&& !m.has_polynomial()
                &&& m.distributed().len() == 0
            },
    {
        Self::with_params(secret, shares, threshold, VSSParams::new())
    }

    /// Draws the polynomial once per session: the secret as constant term and
    /// `threshold - 1` coefficients uniformly from the field, then commits to
    /// it. An already drawn polynomial is kept as it is.
    fn ensure_polynomial(&mut self, rng: &mut StdRng)
        requires
            old(self).wf(),
        ensures
            final(self).wf(),
            final(self).has_polynomial(),
            old(self).has_polynomial() ==> final(self).coefficients() == old(self).coefficients(),
            final(self).secret() == old(self).secret(),
            final(self).share_count() == old(self).share_count(),
            final(self).threshold() == old(self).threshold(),
            final(self).params() == old(self).params(),
            final(self).distributed() == old(self).distributed(),
    {
        if self.coefficients.len() > 0 {
            return;
        }
        let q = self.vss_params.q;
        let mut coefficients: Vec<u64> = Vec::new();
        coefficients.push(self.secret);
        let mut i: usize = 1;
        while i < self.threshold
            invariant
                self.wf(),
                q == self.params().q,
                1 <= i <= self.threshold(),
                coefficients@.len() == i,
                coefficients@[0] == self.secret(),
                forall|k: int| 0 <= k < i ==> #[trigger] coefficients@[k] < q,
            decreases self.threshold() - i,
        {
            let c = draw_below(rng, q);
            coefficients.push(c);
            i = i + 1;
        }
        let commitments = VSSCommitments::new(&coefficients, &self.vss_params);
        self.coefficients = coefficients;
        self.vss_commitments = Some(commitments);
    }

    /// Draws the polynomial if this session has none yet, then returns its
    /// value at `x` in the field. Later calls reuse the same polynomial.
    pub fn construct_polynomial(&mut self, rng: &mut StdRng, x: u64) -> (r: u64)
        requires
            old(self).wf(),
        ensures
            final(self).wf(),
            final(self).has_polynomial(),
            old(self).has_polynomial() ==> final(self).coefficients() == old(self).coefficients(),
            final(self).secret() == old(self).secret(),
            final(self).share_count() == old(self).share_count(),
            final(self).threshold() == old(self).threshold(),
            final(self).params() == old(self).params(),
            final(self).distributed() == old(self).distributed(),
            r as int == eval_mod(final(self).coefficients(), x as int, final(self).params().q as int),
    {
        self.ensure_polynomial(rng);
        evaluate(&self.coefficients, x, self.vss_params.q)
    }

    /// Hands out the shares `(x, f(x) mod q)` at `x = 1..=n`, drawing the
    /// polynomial first if this session has none yet.
    pub fn generate_shares(&mut self, rng: &mut StdRng)
        requires
            old(self).wf(),
        ensures
            final(self).wf(),
            final(self).has_polynomial(),
            old(self).has_polynomial() ==> final(self).coefficients() == old(self).coefficients(),
            final(self).secret() == old(self).secret(),
            final(self).share_count() == old(self).share_count(),
            final(self).threshold() == old(self).threshold(),
            final(self).params() == old(self).params(),
            final(self).distributed() == share_seq(
                final(self).coefficients(),
                final(self).share_count() as int,
                final(self).params().q as int,
            ),
    {
        self.ensure_polynomial(rng);
        let q = self.vss_params.q;
        let n = self.shares;
        let mut new_shares: Vec<(u64, u64)> = Vec::new();
        let mut i: usize = 0;
        while i < n
            invariant
                self.wf(),
                self.has_polynomial(),
                q == self.params().q,
                n == self.share_count(),
                i <= n,
                new_shares@ == share_seq(self.coefficients(), n as int, q as int).take(i as int),
            decreases n - i,
        {
            let x = (i + 1) as u64;
            let y = evaluate(&self.coefficients, x, q);
            new_shares.push((x, y));
            i = i + 1;
            proof {
                assert(new_shares@ =~= share_seq(self.coefficients(), n as int, q as int).take(
                    i as int,
                ));
            }
        }
        proof {
            assert(new_shares@ =~= share_seq(self.coefficients(), n as int, q as int));
        }
        self.generated_shares = new_shares;
    }

    /// The shares distributed so far.
    pub fn get_shares(&self) -> (r: &Vec<(u64, u64)>)
        ensures
            r@ == self.distributed(),
    {
        &self.generated_shares
    }

    /// The published commitments, once the polynomial is drawn.
    pub fn get_commitments(&self) -> (r: Option<&VSSCommitments>)
        ensures
            r is Some <==> self.commitments() is Some,
            r matches Some(c) ==> *c == self.commitments()->0,
    {
        match &self.vss_commitments {
            Some(c) => Some(c),
            None => None,
        }
    }

    /// The field setup of this session.
    pub fn get_params(&self) -> (r: VSSParams)
        ensures
            r == self.params(),
    {
        self.vss_params
    }

    /// Checks a share against this session's commitments; before the
    /// polynomial is drawn there is nothing to check against, and the answer
    /// is `false`.
    pub fn verify_share(&self, x: u64, share: u64) -> (r: bool)
        requires
            self.wf(),
        ensures
            r == (self.has_polynomial() && share_consistent(
                commit_spec(self.coefficients(), self.params()),
                x as int,
                share as int,
                self.params(),
            )),
    {
        match &self.vss_commitments {
            Some(c) => match c.verify_share(x, share, &self.vss_params) {
                Ok(b) => b,
                Err(_) => false,
            },
            None => false,
        }
    }

    /// Recovers the secret from shares of this session by Lagrange
    /// interpolation at zero in the field.
    ///
    /// Fewer shares than the threshold give `InsufficientShares`; then a
    /// share at coordinate zero gives `ZeroCoordinate`, and two shares at one
    /// coordinate `DuplicateCoordinate`.
    pub fn reconstruct_secret(&self, shares: &Vec<(u64, u64)>) -> (r: Result<u64, ShareError>)
        requires
            self.wf(),
        ensures
            ({
                let q = self.params().q as int;
                let s = shares@;
                &&& r == Err::<u64, ShareError>(ShareError::InsufficientShares) <==> s.len()
                    < self.threshold()
                &&& r == Err::<u64, ShareError>(ShareError::ZeroCoordinate) <==> s.len()
                    >= self.threshold() && has_zero_coord(s, q)
                &&& r == Err::<u64, ShareError>(ShareError::DuplicateCoordinate) <==> s.len()
                    >= self.threshold() && !has_zero_coord(s, q) && has_duplicate_coord(s, q)
                &&& r is Ok <==> s.len() >= self.threshold() && !has_zero_coord(s, q)
                    && !has_duplicate_coord(s, q)
                &&& r matches Ok(v) ==> v as int == interpolated_secret(s, q)
            }),
    {
        if shares.len() < self.threshold {
            return Err(ShareError::InsufficientShares);
        }
        interpolate_at_zero(shares, self.vss_params.q)
    }
}

/// With a threshold of one the polynomial is constant: every share carries
/// the secret itself, and interpolating any single share returns the secret.
pub proof fn lemma_threshold_one(coefficients: Seq<u64>, x: u64, q: int)
    requires
        coefficients.len() == 1,
        2 < q,
        coefficients[0] < q,
    ensures
        eval_mod(coefficients, x as int, q) == coefficients[0],
        interpolated_secret(seq![(x, coefficients[0])], q) == coefficients[0],
{
    let c0 = coefficients[0] as int;
    lemma_pow0(x as int);
    assert(poly_value(coefficients, x as int, 0) == 0);
    assert(poly_value(coefficients, x as int, 1) == c0);
    lemma_small_mod(c0 as nat, q as nat);
    let s = seq![(x, coefficients[0])];
    assert(basis_numerator(s, 0, 0, q) == 1);
    assert(basis_numerator(s, 0, 1, q) == 1);
    assert(basis_denominator(s, 0, 0, q) == 1);
    assert(basis_denominator(s, 0, 1, q) == 1);
    lemma1_pow((q - 2) as nat);
    lemma_small_mod(1, q as nat);
    assert(field_inverse(1, q) == 1);
    assert(lagrange_term(s, 0, q) == c0);
    assert(lagrange_sum(s, 0, q) == 0);
    assert(lagrange_sum(s, 1, q) == c0);
}

/// Any set of distinct shares taken from one distribution has nonzero,
/// pairwise distinct coordinates in the field, so reconstruction from it
/// fails on nothing but a count below the threshold.
pub proof fn lemma_distributed_coordinates_valid(
    coefficients: Seq<u64>,
    n: int,
    q: int,
    subset: Seq<(u64, u64)>,
)
    requires
        0 <= n < q,
        q <= 0xffff_ffff_ffff_ffff,
        forall|i: int|
            0 <= i < subset.len() ==> exists|j: int|
                0 <= j < n && #[trigger] subset[i] == #[trigger] share_seq(coefficients, n, q)[j],
        forall|i: int, j: int| 0 <= i < j < subset.len() ==> subset[i] != subset[j],
    ensures
        !has_zero_coord(subset, q),
        !has_duplicate_coord(subset, q),
{
    let all = share_seq(coefficients, n, q);
    assert forall|i: int| 0 <= i < subset.len() implies 1 <= #[trigger] coord(subset, i, q) <= n
        && subset[i] == all[coord(subset, i, q) - 1] by {
        let j = choose|j: int| 0 <= j < n && subset[i] == all[j];
        assert(subset[i].0 == (j + 1) as u64);
        lemma_small_mod((j + 1) as nat, q as nat);
    }
    assert forall|i: int, j: int|
        0 <= i < j < subset.len() implies #[trigger] coord(subset, i, q) != #[trigger] coord(
        subset,
        j,
        q,
    ) by {
        assert(1 <= coord(subset, i, q) <= n && subset[i] == all[coord(subset, i, q) - 1]);
        assert(1 <= coord(subset, j, q) <= n && subset[j] == all[coord(subset, j, q) - 1]);
    }
}

} // verus!

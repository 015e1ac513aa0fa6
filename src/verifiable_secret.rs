use vstd::prelude::*;

use crate::vss::{commit_spec, share_consistent, VSSCommitments, VSSParams};

verus! {

/// The commitment side of the scheme on its own: a field setup and the
/// commitments most recently published under it.
#[derive(Debug, Clone)]
pub struct VerifiableSecretSharing {
    params: VSSParams,
    commitments: VSSCommitments,
}

impl VerifiableSecretSharing {
    pub closed spec fn params(&self) -> VSSParams {
        self.params
    }

    /// The commitments published so far, in coefficient order.
    pub closed spec fn values(&self) -> Seq<u64> {
        self.commitments.values()
    }

    pub closed spec fn wf(&self) -> bool {
        self.params.wf() && self.commitments.params() == self.params
    }

    /// A scheme under `params` with no commitments yet.
    pub fn new(params: VSSParams) -> (r: Self)
        requires
            params.wf(),
        ensures
            r.wf(),
            r.params() == params,
            r.values() == Seq::<u64>::empty(),
    {
        let none: Vec<u64> = Vec::new();
        let commitments = VSSCommitments::new(&none, &params);
        proof {
            assert(commitments.values() =~= Seq::<u64>::empty());
        }
        VerifiableSecretSharing { params, commitments }
    }

    /// Publishes `g^(a_i) mod p` for each coefficient `a_i`, replacing any
    /// earlier commitments.
    pub fn generate_commitments(&mut self, coefficients: &Vec<u64>)
        requires
            old(self).wf(),
        ensures
            final(self).wf(),
            final(self).params() == old(self).params(),
            final(self).values() == commit_spec(coefficients@, old(self).params()),
    {
        self.commitments = VSSCommitments::new(coefficients, &self.params);
    }

    /// Checks the share `(x, y)`: `g^y mod p` against the product of
    /// `C_i^(x^i mod q)` modulo `p`.
    pub fn verify_share(&self, x: u64, y: u64) -> (r: bool)
        requires
            self.wf(),
        ensures
            r == share_consistent(self.values(), x as int, y as int, self.params()),
    {
        match self.commitments.verify_share(x, y, &self.params) {
            Ok(b) => b,
            Err(_) => false,
        }
    }
}

} // verus!

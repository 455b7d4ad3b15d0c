//! Parameters for the k-nearest-neighbors peer algorithm.  The search
//! itself works on floating-point distances and lives with the
//! training drivers.

use vstd::prelude::*;

verus! {

pub struct KNearestNeighborsParam {
    k: usize,
}

impl KNearestNeighborsParam {
    pub closed spec fn spec_k(&self) -> nat {
        self.k as nat
    }

    /// Default parameters
    pub fn with_default_param() -> (r: KNearestNeighborsParam)
        ensures
            r.spec_k() == 10,
    {
        KNearestNeighborsParam { k: 10 }
    }

    pub fn k(self, k: usize) -> (r: Self)
        ensures
            r.spec_k() == k,
    {
        let mut s = self;
        s.k = k;
        s
    }
}

} // verus!

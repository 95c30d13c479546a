//! A lattice space of a fixed dimension.
use vstd::prelude::*;

verus! {

/// A lattice space, identified by its dimension.
pub struct LatticeSpace {
    dimension: u64,
}

impl LatticeSpace {
    /// The dimension of the space.
    pub closed spec fn dim(&self) -> nat {
        self.dimension as nat
    }

    pub fn new(dimension: u64) -> (r: Self)
        ensures
            r.dim() == dimension,
    {
        Self { dimension }
    }
}

} // verus!

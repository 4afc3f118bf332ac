//! Where a drag starts or ends: on an existing node or on a grid point.

use vstd::prelude::*;

use crate::sim::graph::{NodeId, Pos};

verus! {

#[derive(Clone, Copy, Debug)]
pub enum SnapResult {
    /// Cursor is on an existing node; second field is that node's position.
    Existing(NodeId, Pos),
    /// Cursor snapped to a grid cell at this position.
    Grid(Pos),
}

impl SnapResult {
    pub open spec fn spec_pos(self) -> Pos {
        match self {
            SnapResult::Existing(_, p) => p,
            SnapResult::Grid(p) => p,
        }
    }

    #[verifier::when_used_as_spec(spec_pos)]
    pub fn pos(self) -> (p: Pos)
        ensures
            p == self.spec_pos(),
    {
        match self {
            SnapResult::Existing(_, p) => p,
            SnapResult::Grid(p) => p,
        }
    }
}

} // verus!

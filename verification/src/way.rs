//! A way of the network, with what the statistics need of it.

use osmpbfreader::Tags;
use vstd::prelude::*;

verus! {

/// The number of segments between `nodes` consecutive nodes.
pub open spec fn segment_count(nodes: nat) -> nat {
    if nodes == 0 {
        0
    } else {
        (nodes - 1) as nat
    }
}

/// An ordered path through nodes, with the measured length of each segment
/// between consecutive nodes and the tags that describe the way.
#[derive(Debug)]
pub struct Way {
    pub id: i64,
    /// The ids of the nodes, in order along the way.
    pub nodes: Vec<i64>,
    /// `lengths[i]` is the length of the segment from `nodes[i]` to
    /// `nodes[i + 1]`.
    pub lengths: Vec<u64>,
    pub tags: Tags,
}

impl Way {
    /// A way has one length per segment.
    pub open spec fn well_formed(&self) -> bool {
        self.lengths@.len() == segment_count(self.nodes@.len())
    }

    /// Tests `well_formed`.
    pub fn is_well_formed(&self) -> (r: bool)
        ensures
            r == self.well_formed(),
    {
        if self.nodes.len() == 0 {
            self.lengths.len() == 0
        } else {
            self.lengths.len() == self.nodes.len() - 1
        }
    }
}

} // verus!

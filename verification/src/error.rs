//! The ways in which building or stepping a simulation can fail.

use vstd::prelude::*;

verus! {

/// What is wrong with a rejected configuration.
#[derive(Clone, Copy, PartialEq, Eq, Structural, Debug)]
pub enum ConfigFault {
    /// A node was given a mass that is zero or negative.
    NonPositiveMass,
    /// The topology holds no node.
    EmptyTopology,
    /// A link names a node index beyond the node collection.
    LinkOutOfRange,
    /// A link joins a node to itself.
    SelfLink,
    /// A grid pattern repeats every zero rows or columns.
    ZeroStride,
    /// A grid has more cells than can be indexed.
    TooManyNodes,
}

/// Why an operation of the simulator failed.
#[derive(Clone, Copy, PartialEq, Eq, Structural, Debug)]
pub enum SimError {
    /// The requested nodes, links or grid cannot form a simulation.
    InvalidConfiguration(ConfigFault),
    /// A node index that must be valid was not.
    InvariantViolated,
}

} // verus!

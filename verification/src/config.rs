//! The settings of an engine and the input sampled for each step.

use vstd::prelude::*;
use crate::fixed;
use crate::node::IntegrationRule;
use crate::vec2::Vec2;

verus! {

/// What an engine is built with. Nothing here changes during a run.
#[derive(Clone, Copy, PartialEq, Eq, Debug)]
pub struct Config {
    pub rule: IntegrationRule,
    /// The length of one time step.
    pub dt: i64,
    /// Downward acceleration.
    pub gravity: i64,
    /// Drag force per unit of velocity.
    pub drag: i64,
    /// How much of a link's excess length one relaxation corrects.
    pub rigidity: i64,
    /// The share of that correction that a link shorter than its rest length
    /// receives; `ONE` treats stretch and compression alike.
    pub compressed_gain: i64,
    /// Relaxation passes per step.
    pub passes: usize,
    /// Nodes closer to the pointer than this are pushed by its motion.
    pub capture_radius: i64,
    /// Force per unit of pointer displacement.
    pub impulse_gain: i64,
}

impl Config {
    /// The settings of a hanging cloth that tears.
    pub open spec fn cloth() -> Config {
        Config {
            rule: IntegrationRule::SemiImplicitEuler,
            dt: 150_000,
            gravity: 18_000_000,
            drag: 500_000,
            rigidity: 1_000_000,
            compressed_gain: 500_000,
            passes: 5,
            capture_radius: 30_000_000,
            impulse_gain: 50_000_000,
        }
    }
}

impl Default for Config {
    fn default() -> (r: Config)
        ensures
            r == Config::cloth(),
    {
        Config {
            rule: IntegrationRule::SemiImplicitEuler,
            dt: 150_000,
            gravity: 18 * fixed::ONE,
            drag: fixed::HALF,
            rigidity: fixed::ONE,
            compressed_gain: fixed::HALF,
            passes: 5,
            capture_radius: 30 * fixed::ONE,
            impulse_gain: 50 * fixed::ONE,
        }
    }
}

/// What the host samples before each step.
#[derive(Clone, Copy, PartialEq, Eq, Debug)]
pub struct Input {
    /// Where the pointer is now.
    pub pointer: Vec2,
    /// Whether the pointer is being dragged as a knife.
    pub cutting: bool,
}

} // verus!

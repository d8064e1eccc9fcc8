//! Point masses and the forces and integration rules that move them.

use vstd::prelude::*;
use crate::error::{ConfigFault, SimError};
use crate::fixed;
use crate::vec2::Vec2;

verus! {

/// How a node turns accumulated force into motion.
#[derive(Clone, Copy, PartialEq, Eq, Structural, Debug)]
pub enum IntegrationRule {
    /// Remember the position, advance the velocity by the acceleration, then
    /// advance the position by the new velocity. The velocity is rederived
    /// from the corrected displacement by `differentiate` after relaxation.
    SemiImplicitEuler,
    /// Average the acceleration implied by the last displacement with the
    /// one implied by the current force. Clears the force itself and needs
    /// no `differentiate`.
    VelocityVerlet,
}

/// The mathematical state of a node.
pub struct NodeView {
    /// Position before the latest integration.
    pub last_pos: Vec2,
    pub pos: Vec2,
    pub vel: Vec2,
    /// Force accumulated since it was last cleared.
    pub force: Vec2,
    pub mass: i64,
    /// A fixed node is an anchor: forces and offsets leave it where it is.
    pub fixed: bool,
}

impl NodeView {
    /// A free node at rest at `pos`.
    pub open spec fn at_rest(pos: Vec2, mass: i64) -> NodeView {
        NodeView {
            last_pos: pos,
            pos,
            vel: Vec2::spec_zero(),
            force: Vec2::spec_zero(),
            mass,
            fixed: false,
        }
    }

    /// The mass is positive.
    pub open spec fn wf(self) -> bool {
        self.mass > 0
    }

    /// The weight `(0, g * mass)` joins the force, unless the node is fixed.
    pub open spec fn with_gravity(self, g: i64) -> NodeView {
        if self.fixed {
            self
        } else {
            NodeView {
                force: self.force.spec_plus(Vec2 { x: 0, y: fixed::spec_times(g, self.mass) }),
                ..self
            }
        }
    }

    /// The drag `-vel * k` joins the force, unless the node is fixed.
    pub open spec fn with_drag(self, k: i64) -> NodeView {
        if self.fixed {
            self
        } else {
            NodeView { force: self.force.spec_plus(self.vel.spec_negated().spec_times(k)), ..self }
        }
    }

    /// `f` joins the force, fixed or not.
    pub open spec fn with_impulse(self, f: Vec2) -> NodeView {
        NodeView { force: self.force.spec_plus(f), ..self }
    }

    /// One semi-implicit Euler step of a free node.
    pub open spec fn euler_step(self, dt: i64) -> NodeView {
        let acc = self.force.spec_over(self.mass);
        let vel = self.vel.spec_plus(acc.spec_times(dt));
        NodeView { last_pos: self.pos, vel, pos: self.pos.spec_plus(vel.spec_times(dt)), ..self }
    }

    /// One velocity-Verlet step of a free node.
    pub open spec fn verlet_step(self, dt: i64) -> NodeView {
        let last_vel = self.pos.spec_minus(self.last_pos).spec_over(dt);
        let last_acc = last_vel.spec_minus(self.vel).spec_over(dt);
        let new_acc = self.force.spec_over(self.mass);
        let vel = self.vel.spec_plus(
            last_acc.spec_plus(new_acc).spec_times(fixed::HALF).spec_times(dt),
        );
        NodeView {
            last_pos: self.pos,
            vel,
            pos: self.pos.spec_plus(vel.spec_times(dt)),
            force: Vec2::spec_zero(),
            ..self
        }
    }

    /// The node one time step later; a fixed node stays as it is.
    pub open spec fn integrated(self, rule: IntegrationRule, dt: i64) -> NodeView {
        if self.fixed {
            self
        } else {
            match rule {
                IntegrationRule::SemiImplicitEuler => self.euler_step(dt),
                IntegrationRule::VelocityVerlet => self.verlet_step(dt),
            }
        }
    }

    /// The velocity becomes the displacement since the last integration
    /// divided by `dt`, and the force is cleared, unless the node is fixed.
    pub open spec fn differentiated(self, dt: i64) -> NodeView {
        if self.fixed {
            self
        } else {
            NodeView {
                vel: self.pos.spec_minus(self.last_pos).spec_over(dt),
                force: Vec2::spec_zero(),
                ..self
            }
        }
    }

    /// The position moves by `offs`, unless the node is fixed.
    pub open spec fn with_offset(self, offs: Vec2) -> NodeView {
        if self.fixed {
            self
        } else {
            NodeView { pos: self.pos.spec_plus(offs), ..self }
        }
    }
}

/// The mathematical states of a run of nodes.
pub open spec fn views(nodes: Seq<Node>) -> Seq<NodeView> {
    nodes.map_values(|n: Node| n@)
}

/// Every node has a positive mass.
pub open spec fn masses_positive(nodes: Seq<NodeView>) -> bool {
    forall|k: int| 0 <= k < nodes.len() ==> (#[trigger] nodes[k]).mass > 0
}

/// Gravity of strength zero adds no force to any node.
pub proof fn lemma_zero_gravity(n: NodeView)
    ensures
        n.with_gravity(0) == n,
{
    fixed::lemma_times_zero(n.mass);
}

/// A point mass.
#[derive(Clone, Copy, PartialEq, Eq, Debug)]
pub struct Node {
    last_pos: Vec2,
    pos: Vec2,
    vel: Vec2,
    force: Vec2,
    mass: i64,
    fixed: bool,
}

impl View for Node {
    type V = NodeView;

    closed spec fn view(&self) -> NodeView {
        NodeView {
            last_pos: self.last_pos,
            pos: self.pos,
            vel: self.vel,
            force: self.force,
            mass: self.mass,
            fixed: self.fixed,
        }
    }
}

impl Default for Node {
    /// A free node of mass one at rest at the origin.
    fn default() -> (r: Node)
        ensures
            r@ == NodeView::at_rest(Vec2::spec_zero(), fixed::ONE),
    {
        Node {
            last_pos: Vec2::zero(),
            pos: Vec2::zero(),
            vel: Vec2::zero(),
            force: Vec2::zero(),
            mass: fixed::ONE,
            fixed: false,
        }
    }
}

impl Node {
    /// A free node at rest at `pos`. A mass that is not positive is rejected.
    pub fn with_pos_and_mass(pos: Vec2, mass: i64) -> (r: Result<Node, SimError>)
        ensures
            mass > 0 ==> r is Ok && r->Ok_0@ == NodeView::at_rest(pos, mass),
            mass <= 0 ==> r == Err::<Node, SimError>(
                SimError::InvalidConfiguration(ConfigFault::NonPositiveMass),
            ),
    {
        if mass <= 0 {
            return Err(SimError::InvalidConfiguration(ConfigFault::NonPositiveMass));
        }
        Ok(Node { last_pos: pos, pos, vel: Vec2::zero(), force: Vec2::zero(), mass, fixed: false })
    }

    /// Where the node is.
    pub fn pos(&self) -> (r: Vec2)
        ensures
            r == self@.pos,
    {
        self.pos
    }

    /// Where the node was before the latest integration.
    pub fn last_pos(&self) -> (r: Vec2)
        ensures
            r == self@.last_pos,
    {
        self.last_pos
    }

    /// The velocity.
    pub fn vel(&self) -> (r: Vec2)
        ensures
            r == self@.vel,
    {
        self.vel
    }

    /// The force accumulated since it was last cleared.
    pub fn force(&self) -> (r: Vec2)
        ensures
            r == self@.force,
    {
        self.force
    }

    /// The mass.
    pub fn mass(&self) -> (r: i64)
        ensures
            r == self@.mass,
    {
        self.mass
    }

    /// Whether the node is an anchor.
    pub fn is_fixed(&self) -> (r: bool)
        ensures
            r == self@.fixed,
    {
        self.fixed
    }

    /// Pins the node in place or releases it.
    pub fn set_fixed(&mut self, fixed: bool)
        ensures
            final(self)@ == (NodeView { fixed, ..old(self)@ }),
    {
        self.fixed = fixed;
    }

    /// Puts the node at `pos`, fixed or not, and touches nothing else.
    pub fn set_pos(&mut self, pos: Vec2)
        ensures
            final(self)@ == (NodeView { pos, ..old(self)@ }),
    {
        self.pos = pos;
    }

    /// Adds the weight `(0, g * mass)` to the force of a free node.
    pub fn apply_gravity(&mut self, g: i64)
        ensures
            final(self)@ == old(self)@.with_gravity(g),
            g == 0 ==> final(self)@ == old(self)@,
    {
        proof {
            lemma_zero_gravity(self@);
        }
        if self.fixed {
            return ;
        }
        self.force = self.force.plus(Vec2::new(0, fixed::times(g, self.mass)));
    }

    /// Adds the drag `-vel * k` to the force of a free node.
    pub fn apply_drag(&mut self, k: i64)
        ensures
            final(self)@ == old(self)@.with_drag(k),
    {
        if self.fixed {
            return ;
        }
        self.force = self.force.plus(self.vel.negated().times(k));
    }

    /// Adds `f` to the force, whether the node is fixed or not: it is for
    /// the caller to spare fixed nodes where that is wanted.
    pub fn apply_impulse(&mut self, f: Vec2)
        ensures
            final(self)@ == old(self)@.with_impulse(f),
    {
        self.force = self.force.plus(f);
    }

    /// Advances a free node by one time step of length `dt`.
    pub fn integrate(&mut self, rule: IntegrationRule, dt: i64)
        ensures
            final(self)@ == old(self)@.integrated(rule, dt),
    {
        if self.fixed {
            return ;
        }
        let new_acc: Vec2 = self.force.over(self.mass);
        match rule {
            IntegrationRule::SemiImplicitEuler => {
                self.last_pos = self.pos;
                self.vel = self.vel.plus(new_acc.times(dt));
                self.pos = self.pos.plus(self.vel.times(dt));
            },
            IntegrationRule::VelocityVerlet => {
                let last_vel: Vec2 = self.pos.minus(self.last_pos).over(dt);
                let last_acc: Vec2 = last_vel.minus(self.vel).over(dt);
                self.last_pos = self.pos;
                self.vel = self.vel.plus(last_acc.plus(new_acc).times(fixed::HALF).times(dt));
                self.pos = self.pos.plus(self.vel.times(dt));
                self.force = Vec2::zero();
            },
        }
    }

    /// Rederives the velocity of a free node from its displacement since the
    /// latest integration, and clears its force. To be called after
    /// relaxation, so that the velocity reflects the corrected position.
    pub fn differentiate(&mut self, dt: i64)
        ensures
            final(self)@ == old(self)@.differentiated(dt),
    {
        if self.fixed {
            return ;
        }
        self.vel = self.pos.minus(self.last_pos).over(dt);
        self.force = Vec2::zero();
    }

    /// Moves a free node by `offs`.
    pub fn add_offs(&mut self, offs: Vec2)
        ensures
            final(self)@ == old(self)@.with_offset(offs),
    {
        if !self.fixed {
            self.pos = self.pos.plus(offs);
        }
    }
}

} // verus!

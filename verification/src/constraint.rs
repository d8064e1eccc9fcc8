//! Distance constraints between pairs of nodes.

use vstd::prelude::*;
use crate::error::SimError;
use crate::fixed;
use crate::node::{views, Node, NodeView};
use crate::vec2::{segments_cross, spec_segments_cross, Vec2};

verus! {

/// A link that pulls two nodes of an arena toward a rest distance. The nodes
/// are named by their indices in the arena.
#[derive(Clone, Copy, PartialEq, Eq, Debug)]
pub struct Constraint {
    pub a: usize,
    pub b: usize,
    /// The distance the link tries to keep.
    pub rest_length: i64,
    /// The link snaps once it is longer than this; `None` never snaps.
    pub break_threshold: Option<i64>,
}

/// The correction that one relaxation asks of a link whose ends are `r`
/// apart (from the first end to the second), before it is shared out
/// between the two ends by their masses.
///
/// It points along `r` and grows with the excess of `r`'s length over
/// `rest_length`, times `rigidity`, over the sum of the masses. A link
/// shorter than its rest length is corrected by `compressed_gain` times that.
pub open spec fn correction(
    r: Vec2,
    rest_length: i64,
    mass_a: i64,
    mass_b: i64,
    rigidity: i64,
    compressed_gain: i64,
) -> Vec2 {
    let dist = r.spec_length();
    let diff = fixed::spec_minus(dist, rest_length);
    let full = r.spec_normalize_or_zero().spec_times(diff).spec_times(rigidity).spec_over(
        fixed::spec_plus(mass_a, mass_b),
    );
    if dist < rest_length {
        full.spec_times(compressed_gain)
    } else {
        full
    }
}

/// Every link joins two different nodes of an arena of `len` nodes.
pub open spec fn links_fit(links: Seq<Constraint>, len: nat) -> bool {
    forall|m: int|
        0 <= m < links.len() ==> (#[trigger] links[m]).in_range(len) && links[m].a != links[m].b
}

impl Constraint {
    /// Both ends name nodes of an arena of `len` nodes.
    pub open spec fn in_range(self, len: nat) -> bool {
        self.a < len && self.b < len
    }

    /// The vector from the first end to the second.
    pub open spec fn spec_reach(self, nodes: Seq<NodeView>) -> Vec2 {
        nodes[self.b as int].pos.spec_minus(nodes[self.a as int].pos)
    }

    /// The current distance between the two ends.
    pub open spec fn spec_stretch(self, nodes: Seq<NodeView>) -> i64 {
        self.spec_reach(nodes).spec_length()
    }

    /// The offsets that one relaxation applies to the first and to the
    /// second end: the correction over the first mass, and its opposite over
    /// the second.
    pub open spec fn offsets(self, nodes: Seq<NodeView>, rigidity: i64, compressed_gain: i64) -> (
        Vec2,
        Vec2,
    ) {
        let na = nodes[self.a as int];
        let nb = nodes[self.b as int];
        let offs = correction(
            self.spec_reach(nodes),
            self.rest_length,
            na.mass,
            nb.mass,
            rigidity,
            compressed_gain,
        );
        (offs.spec_over(na.mass), offs.spec_negated().spec_over(nb.mass))
    }

    /// The nodes after one relaxation of this link: first the first end is
    /// moved, then the second. Fixed ends stay where they are.
    pub open spec fn relaxed(
        self,
        nodes: Seq<NodeView>,
        rigidity: i64,
        compressed_gain: i64,
    ) -> Seq<NodeView> {
        let (a_offs, b_offs) = self.offsets(nodes, rigidity, compressed_gain);
        let moved = nodes.update(self.a as int, nodes[self.a as int].with_offset(a_offs));
        moved.update(self.b as int, moved[self.b as int].with_offset(b_offs))
    }

    /// The link has a threshold and is stretched beyond it.
    pub open spec fn spec_snapped(self, nodes: Seq<NodeView>) -> bool {
        match self.break_threshold {
            Some(limit) => self.spec_stretch(nodes) > limit,
            None => false,
        }
    }

    /// The link's segment crosses the stroke drawn from `from` to `to`.
    pub open spec fn spec_cut_by(self, nodes: Seq<NodeView>, from: Vec2, to: Vec2) -> bool {
        spec_segments_cross(nodes[self.a as int].pos, nodes[self.b as int].pos, to, from)
    }

    /// A link between nodes `a` and `b`.
    pub fn new(a: usize, b: usize, rest_length: i64, break_threshold: Option<i64>) -> (r:
        Constraint)
        ensures
            r == (Constraint { a, b, rest_length, break_threshold }),
    {
        Constraint { a, b, rest_length, break_threshold }
    }

    /// Relaxes the link once, moving its two ends in `arena` toward the rest
    /// distance. Fails, and moves nothing, if an end is not in the arena.
    pub fn solve(&self, arena: &mut Vec<Node>, rigidity: i64, compressed_gain: i64) -> (r: Result<
        (),
        SimError,
    >)
        ensures
            self.in_range(old(arena)@.len()) ==> r is Ok && views(final(arena)@) == self.relaxed(
                views(old(arena)@),
                rigidity,
                compressed_gain,
            ),
            !self.in_range(old(arena)@.len()) ==> r == Err::<(), SimError>(
                SimError::InvariantViolated,
            ) && final(arena)@ == old(arena)@,
            self.in_range(old(arena)@.len()) && self.spec_stretch(views(old(arena)@))
                == self.rest_length ==> views(final(arena)@) == views(old(arena)@),
    {
        proof {
            if self.in_range(arena@.len()) && self.spec_stretch(views(arena@)) == self.rest_length {
                lemma_link_at_rest_is_still(*self, views(arena@), rigidity, compressed_gain);
            }
        }
        let len: usize = arena.len();
        if self.a >= len || self.b >= len {
            return Err(SimError::InvariantViolated);
        }
        let na: Node = arena[self.a];
        let nb: Node = arena[self.b];
        let r: Vec2 = nb.pos().minus(na.pos());
        let dist: i64 = r.length();
        let diff: i64 = fixed::minus(dist, self.rest_length);
        let mut offs: Vec2 = r.normalize_or_zero().times(diff).times(rigidity).over(
            fixed::plus(na.mass(), nb.mass()),
        );
        if dist < self.rest_length {
            offs = offs.times(compressed_gain);
        }
        let a_offs: Vec2 = offs.over(na.mass());
        let b_offs: Vec2 = offs.negated().over(nb.mass());
        arena[self.a].add_offs(a_offs);
        arena[self.b].add_offs(b_offs);
        assert(views(arena@) =~= self.relaxed(views(old(arena)@), rigidity, compressed_gain));
        Ok(())
    }

    /// The current distance between the two ends.
    pub fn stretch(&self, arena: &Vec<Node>) -> (r: Result<i64, SimError>)
        ensures
            self.in_range(arena@.len()) ==> r == Ok::<i64, SimError>(
                self.spec_stretch(views(arena@)),
            ),
            !self.in_range(arena@.len()) ==> r == Err::<i64, SimError>(SimError::InvariantViolated),
    {
        if self.a >= arena.len() || self.b >= arena.len() {
            return Err(SimError::InvariantViolated);
        }
        Ok(arena[self.b].pos().minus(arena[self.a].pos()).length())
    }

    /// Whether the link has a threshold and is stretched beyond it.
    pub fn snapped(&self, arena: &Vec<Node>) -> (r: Result<bool, SimError>)
        ensures
            self.in_range(arena@.len()) ==> r == Ok::<bool, SimError>(
                self.spec_snapped(views(arena@)),
            ),
            !self.in_range(arena@.len()) ==> r == Err::<bool, SimError>(
                SimError::InvariantViolated,
            ),
    {
        let length: i64 = match self.stretch(arena) {
            Ok(length) => length,
            Err(e) => {
                return Err(e);
            },
        };
        match self.break_threshold {
            Some(limit) => Ok(length > limit),
            None => Ok(false),
        }
    }

    /// Whether the link's segment crosses the stroke drawn from `from` to
    /// `to`. The test is exact: a stroke that only touches the link, or runs
    /// along it, does not cross it.
    pub fn cut_by(&self, arena: &Vec<Node>, from: Vec2, to: Vec2) -> (r: Result<bool, SimError>)
        ensures
            self.in_range(arena@.len()) ==> r == Ok::<bool, SimError>(
                self.spec_cut_by(views(arena@), from, to),
            ),
            !self.in_range(arena@.len()) ==> r == Err::<bool, SimError>(
                SimError::InvariantViolated,
            ),
    {
        if self.a >= arena.len() || self.b >= arena.len() {
            return Err(SimError::InvariantViolated);
        }
        Ok(segments_cross(arena[self.a].pos(), arena[self.b].pos(), to, from))
    }
}

/// A link whose ends are exactly its rest length apart is left alone by
/// relaxation: neither end moves.
pub proof fn lemma_link_at_rest_is_still(
    link: Constraint,
    nodes: Seq<NodeView>,
    rigidity: i64,
    compressed_gain: i64,
)
    requires
        link.in_range(nodes.len()),
        link.spec_stretch(nodes) == link.rest_length,
    ensures
        link.offsets(nodes, rigidity, compressed_gain) == (Vec2::spec_zero(), Vec2::spec_zero()),
        link.relaxed(nodes, rigidity, compressed_gain) == nodes,
{
    let na = nodes[link.a as int];
    let nb = nodes[link.b as int];
    let unit = link.spec_reach(nodes).spec_normalize_or_zero();
    fixed::lemma_times_zero(unit.x);
    fixed::lemma_times_zero(unit.y);
    fixed::lemma_times_zero(rigidity);
    fixed::lemma_zero_over(fixed::spec_plus(na.mass, nb.mass));
    fixed::lemma_zero_over(na.mass);
    fixed::lemma_zero_over(nb.mass);
    assert(link.relaxed(nodes, rigidity, compressed_gain) =~= nodes);
}

} // verus!

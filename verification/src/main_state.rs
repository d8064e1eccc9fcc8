//! A running simulation: an arena of nodes, the links between them, and the
//! step that advances both.

use vstd::prelude::*;
use crate::config::{Config, Input};
use crate::constraint::Constraint;
use crate::error::{ConfigFault, SimError};
use crate::grid::Grid;
use crate::model::{
    all_differentiated, all_in_range, all_integrated, all_with_drag, all_with_gravity, blown,
    captured, dot_of, holds, lemma_filter_fits, picture, push, relax, relax_pass, run,
    segment_of, spared, step, topology_fault, unbroken, uncut, Shape, StateView,
};
use crate::node::{masses_positive, views, IntegrationRule, Node, NodeView};
use crate::vec2::Vec2;

verus! {

/// A running simulation.
pub struct MainState {
    arena: Vec<Node>,
    constraints: Vec<Constraint>,
    last_mouse_pos: Vec2,
    config: Config,
}

impl View for MainState {
    type V = StateView;

    closed spec fn view(&self) -> StateView {
        StateView {
            nodes: views(self.arena@),
            links: self.constraints@,
            pointer: self.last_mouse_pos,
            config: self.config,
        }
    }
}

impl MainState {
    /// There is a node, every mass is positive, and every link joins two
    /// different nodes that are there.
    pub open spec fn wf(&self) -> bool {
        self@.wf()
    }

    /// A simulation of the given nodes and links, with the pointer at
    /// `pointer`. Fails if there is no node, if a node's mass is not
    /// positive, if a link names a node that is not there, or if a link joins
    /// a node to itself.
    pub fn new(arena: Vec<Node>, constraints: Vec<Constraint>, config: Config, pointer: Vec2) -> (r:
        Result<MainState, SimError>)
        ensures
            match topology_fault(views(arena@), constraints@) {
                Some(fault) => r is Err && r->Err_0 == SimError::InvalidConfiguration(fault),
                None => {
                    &&& r is Ok
                    &&& r->Ok_0.wf()
                    &&& r->Ok_0@ == (StateView {
                        nodes: views(arena@),
                        links: constraints@,
                        pointer,
                        config,
                    })
                },
            },
    {
        let n: usize = arena.len();
        if n == 0 {
            return Err(SimError::InvalidConfiguration(ConfigFault::EmptyTopology));
        }
        let mut k: usize = 0;
        while k < n
            invariant
                k <= n,
                n == arena@.len(),
                forall|j: int| 0 <= j < k ==> (#[trigger] views(arena@)[j]).mass > 0,
            decreases n - k,
        {
            if arena[k].mass() <= 0 {
                assert(views(arena@)[k as int].mass <= 0);
                return Err(SimError::InvalidConfiguration(ConfigFault::NonPositiveMass));
            }
            k += 1;
        }
        let count: usize = constraints.len();
        let mut m: usize = 0;
        while m < count
            invariant
                m <= count,
                count == constraints@.len(),
                0 < n == arena@.len(),
                masses_positive(views(arena@)),
                forall|j: int| 0 <= j < m ==> (#[trigger] constraints@[j]).in_range(n as nat),
            decreases count - m,
        {
            if constraints[m].a >= n || constraints[m].b >= n {
                assert(!constraints@[m as int].in_range(n as nat));
                return Err(SimError::InvalidConfiguration(ConfigFault::LinkOutOfRange));
            }
            m += 1;
        }
        m = 0;
        while m < count
            invariant
                m <= count,
                count == constraints@.len(),
                0 < n == arena@.len(),
                masses_positive(views(arena@)),
                all_in_range(constraints@, n as nat),
                forall|j: int| 0 <= j < m ==> (#[trigger] constraints@[j]).a != constraints@[j].b,
            decreases count - m,
        {
            if constraints[m].a == constraints[m].b {
                assert(constraints@[m as int].a == constraints@[m as int].b);
                return Err(SimError::InvalidConfiguration(ConfigFault::SelfLink));
            }
            m += 1;
        }
        Ok(MainState { arena, constraints, last_mouse_pos: pointer, config })
    }

    /// A cloth of the given shape, centred on a screen of the given width,
    /// with the pointer at `pointer`. Fails if the grid has no cell or too
    /// many, if its mass is not positive, or if one of its patterns repeats
    /// every zero cells.
    pub fn cloth(grid: &Grid, config: Config, screen_width: i64, pointer: Vec2) -> (r: Result<
        MainState,
        SimError,
    >)
        ensures
            match grid.fault() {
                Some(fault) => r is Err && r->Err_0 == SimError::InvalidConfiguration(fault),
                None => {
                    &&& r is Ok
                    &&& r->Ok_0.wf()
                    &&& r->Ok_0@ == (StateView {
                        nodes: grid.nodes(grid.left_edge(screen_width)),
                        links: grid.links(),
                        pointer,
                        config,
                    })
                },
            },
    {
        let left: i64 = grid.centered_left_edge(screen_width);
        let (arena, constraints) = match grid.build(left) {
            Ok(built) => built,
            Err(e) => {
                return Err(e);
            },
        };
        assert(grid.cells() > 0) by (nonlinear_arith)
            requires
                grid.rows > 0,
                grid.cols > 0,
                grid.cells() == grid.rows * grid.cols,
        ;
        Ok(MainState { arena, constraints, last_mouse_pos: pointer, config })
    }

    /// Checks that the simulation is well-formed, as every simulation is
    /// that was built by `new` or `cloth` and changed only through the
    /// methods of this type.
    pub fn check(&self) -> (r: Result<(), SimError>)
        ensures
            self.wf() ==> r is Ok,
            !self.wf() ==> r == Err::<(), SimError>(SimError::InvariantViolated),
    {
        let n: usize = self.arena.len();
        if n == 0 {
            return Err(SimError::InvariantViolated);
        }
        let mut k: usize = 0;
        while k < n
            invariant
                k <= n,
                n == self.arena@.len(),
                forall|j: int| 0 <= j < k ==> (#[trigger] self@.nodes[j]).mass > 0,
            decreases n - k,
        {
            if self.arena[k].mass() <= 0 {
                assert(self@.nodes[k as int].mass <= 0);
                return Err(SimError::InvariantViolated);
            }
            k += 1;
        }
        let count: usize = self.constraints.len();
        let mut m: usize = 0;
        while m < count
            invariant
                m <= count,
                count == self.constraints@.len(),
                0 < n == self.arena@.len(),
                masses_positive(self@.nodes),
                forall|j: int|
                    0 <= j < m ==> (#[trigger] self@.links[j]).in_range(n as nat)
                        && self@.links[j].a != self@.links[j].b,
            decreases count - m,
        {
            let link: Constraint = self.constraints[m];
            if link.a >= n || link.b >= n || link.a == link.b {
                assert(link == self@.links[m as int]);
                return Err(SimError::InvariantViolated);
            }
            m += 1;
        }
        Ok(())
    }

    /// The settings that the simulation was built with.
    pub fn config(&self) -> (r: Config)
        ensures
            r == self@.config,
    {
        self.config
    }

    /// The nodes, for reading.
    pub fn nodes(&self) -> (r: &Vec<Node>)
        ensures
            views(r@) == self@.nodes,
    {
        &self.arena
    }

    /// The links, for reading.
    pub fn links(&self) -> (r: &Vec<Constraint>)
        ensures
            r@ == self@.links,
    {
        &self.constraints
    }

    /// Where the pointer was when the last step ended.
    pub fn last_pointer(&self) -> (r: Vec2)
        ensures
            r == self@.pointer,
    {
        self.last_mouse_pos
    }

    /// Adds every free node's weight to its force.
    pub fn apply_gravity(&mut self)
        ensures
            final(self)@ == (StateView {
                nodes: all_with_gravity(old(self)@.nodes, old(self)@.config.gravity),
                ..old(self)@
            }),
            old(self).wf() ==> final(self).wf(),
    {
        let g: i64 = self.config.gravity;
        let n: usize = self.arena.len();
        let mut i: usize = 0;
        while i < n
            invariant
                i <= n,
                n == self.arena@.len(),
                n == old(self).arena@.len(),
                self.constraints == old(self).constraints,
                self.last_mouse_pos == old(self).last_mouse_pos,
                self.config == old(self).config,
                forall|k: int|
                    0 <= k < i ==> (#[trigger] self.arena@[k])@ == old(
                        self,
                    ).arena@[k]@.with_gravity(g),
                forall|k: int| i <= k < n ==> self.arena@[k] == old(self).arena@[k],
            decreases n - i,
        {
            self.arena[i].apply_gravity(g);
            i += 1;
        }
        assert(views(self.arena@) =~= all_with_gravity(views(old(self).arena@), g));
    }

    /// Adds every free node's drag to its force.
    pub fn apply_drag(&mut self)
        ensures
            final(self)@ == (StateView {
                nodes: all_with_drag(old(self)@.nodes, old(self)@.config.drag),
                ..old(self)@
            }),
            old(self).wf() ==> final(self).wf(),
    {
        let drag: i64 = self.config.drag;
        let n: usize = self.arena.len();
        let mut i: usize = 0;
        while i < n
            invariant
                i <= n,
                n == self.arena@.len(),
                n == old(self).arena@.len(),
                self.constraints == old(self).constraints,
                self.last_mouse_pos == old(self).last_mouse_pos,
                self.config == old(self).config,
                forall|k: int|
                    0 <= k < i ==> (#[trigger] self.arena@[k])@ == old(
                        self,
                    ).arena@[k]@.with_drag(drag),
                forall|k: int| i <= k < n ==> self.arena@[k] == old(self).arena@[k],
            decreases n - i,
        {
            self.arena[i].apply_drag(drag);
            i += 1;
        }
        assert(views(self.arena@) =~= all_with_drag(views(old(self).arena@), drag));
    }

    /// Lets the pointer push the nodes near it by as much as it has moved
    /// since the last step. A pointer that is cutting pushes nothing.
    pub fn apply_wind(&mut self, input: &Input)
        ensures
            final(self)@ == (StateView {
                nodes: blown(old(self)@.nodes, old(self)@.pointer, *input, old(self)@.config),
                ..old(self)@
            }),
            old(self).wf() ==> final(self).wf(),
    {
        if input.cutting {
            return ;
        }
        let radius: i64 = self.config.capture_radius;
        let f: Vec2 = input.pointer.minus(self.last_mouse_pos).times(self.config.impulse_gain);
        let n: usize = self.arena.len();
        let mut i: usize = 0;
        while i < n
            invariant
                i <= n,
                n == self.arena@.len(),
                n == old(self).arena@.len(),
                self.constraints == old(self).constraints,
                self.last_mouse_pos == old(self).last_mouse_pos,
                self.config == old(self).config,
                radius == self.config.capture_radius,
                f == push(self.last_mouse_pos, input.pointer, self.config.impulse_gain),
                forall|k: int|
                    0 <= k < i ==> (#[trigger] self.arena@[k])@ == (if captured(
                        old(self).arena@[k]@.pos,
                        input.pointer,
                        radius,
                    ) {
                        old(self).arena@[k]@.with_impulse(f)
                    } else {
                        old(self).arena@[k]@
                    }),
                forall|k: int| i <= k < n ==> self.arena@[k] == old(self).arena@[k],
            decreases n - i,
        {
            if self.arena[i].pos().minus(input.pointer).length() < radius {
                self.arena[i].apply_impulse(f);
            }
            i += 1;
        }
        assert(views(self.arena@) =~= blown(
            views(old(self).arena@),
            old(self).last_mouse_pos,
            *input,
            old(self).config,
        ));
    }

    /// Advances every free node by one time step.
    pub fn integrate(&mut self)
        ensures
            final(self)@ == (StateView {
                nodes: all_integrated(
                    old(self)@.nodes,
                    old(self)@.config.rule,
                    old(self)@.config.dt,
                ),
                ..old(self)@
            }),            old(self).wf() ==> final(self).wf(),
    {
        let rule: IntegrationRule = self.config.rule;
        let dt: i64 = self.config.dt;
        let n: usize = self.arena.len();
        let mut i: usize = 0;
        while i < n
            invariant
                i <= n,
                n == self.arena@.len(),
                n == old(self).arena@.len(),
                self.constraints == old(self).constraints,
                self.last_mouse_pos == old(self).last_mouse_pos,
                self.config == old(self).config,
                forall|k: int|
                    0 <= k < i ==> (#[trigger] self.arena@[k])@ == old(
                        self,
                    ).arena@[k]@.integrated(rule, dt),
                forall|k: int| i <= k < n ==> self.arena@[k] == old(self).arena@[k],
            decreases n - i,
        {
            self.arena[i].integrate(rule, dt);
            i += 1;
        }
        assert(views(self.arena@) =~= all_integrated(views(old(self).arena@), rule, dt));
    }

    /// Rederives every free node's velocity from its displacement.
    pub fn differentiate(&mut self)
        ensures
            final(self)@ == (StateView {
                nodes: all_differentiated(old(self)@.nodes, old(self)@.config.dt),
                ..old(self)@
            }),
            old(self).wf() ==> final(self).wf(),
    {
        let dt: i64 = self.config.dt;
        let n: usize = self.arena.len();
        let mut i: usize = 0;
        while i < n
            invariant
                i <= n,
                n == self.arena@.len(),
                n == old(self).arena@.len(),
                self.constraints == old(self).constraints,
                self.last_mouse_pos == old(self).last_mouse_pos,
                self.config == old(self).config,
                forall|k: int|
                    0 <= k < i ==> (#[trigger] self.arena@[k])@ == old(
                        self,
                    ).arena@[k]@.differentiated(dt),
                forall|k: int| i <= k < n ==> self.arena@[k] == old(self).arena@[k],
            decreases n - i,
        {
            self.arena[i].differentiate(dt);
            i += 1;
        }
        assert(views(self.arena@) =~= all_differentiated(views(old(self).arena@), dt));
    }

    /// Runs the configured number of relaxation passes over all links.
    pub fn solve_constraints(&mut self) -> (r: Result<(), SimError>)
        requires
            old(self).wf(),
        ensures
            r is Ok,
            final(self).wf(),
            final(self)@ == (StateView {
                nodes: relax(
                    old(self)@.nodes,
                    old(self)@.links,
                    old(self)@.config.rigidity,
                    old(self)@.config.compressed_gain,
                    old(self)@.config.passes as nat,
                ),
                ..old(self)@
            }),
            old(self)@.config.passes == 0 ==> final(self)@ == old(self)@,
    {
        let rigidity: i64 = self.config.rigidity;
        let gain: i64 = self.config.compressed_gain;
        let passes: usize = self.config.passes;
        let count: usize = self.constraints.len();
        let ghost start: Seq<NodeView> = views(self.arena@);
        let ghost links: Seq<Constraint> = self.constraints@;
        let mut pass: usize = 0;
        while pass < passes
            invariant
                pass <= passes,
                self.constraints == old(self).constraints,
                self.last_mouse_pos == old(self).last_mouse_pos,
                self.config == old(self).config,
                links == self.constraints@,
                count == links.len(),
                start == views(old(self).arena@),
                self.wf(),
                views(self.arena@) == relax(start, links, rigidity, gain, pass as nat),
            decreases passes - pass,
        {
            let ghost before: Seq<NodeView> = views(self.arena@);
            let mut m: usize = 0;
            while m < count
                invariant
                    m <= count,
                    self.constraints == old(self).constraints,
                    self.last_mouse_pos == old(self).last_mouse_pos,
                    self.config == old(self).config,
                    links == self.constraints@,
                    count == links.len(),
                    self.wf(),
                    views(self.arena@) == relax_pass(before, links.take(m as int), rigidity, gain),
                decreases count - m,
            {
                let link: Constraint = self.constraints[m];
                match link.solve(&mut self.arena, rigidity, gain) {
                    Ok(()) => {},
                    Err(e) => {
                        return Err(e);
                    },
                }
                proof {
                    assert(links.take(m + 1).drop_last() =~= links.take(m as int));
                }
                m += 1;
            }
            assert(links.take(count as int) =~= links);
            pass += 1;
        }
        Ok(())
    }

    /// Removes the links that are stretched beyond their threshold. The
    /// others keep their order.
    pub fn prune_snapped(&mut self) -> (r: Result<(), SimError>)
        requires
            old(self).wf(),
        ensures
            r is Ok,
            final(self).wf(),
            final(self)@ == (StateView {
                links: unbroken(old(self)@.links, old(self)@.nodes),
                ..old(self)@
            }),
    {
        let count: usize = self.constraints.len();
        let ghost nodes: Seq<NodeView> = views(self.arena@);
        let ghost links: Seq<Constraint> = self.constraints@;
        let mut kept: Vec<Constraint> = Vec::new();
        let mut m: usize = 0;
        assert(Seq::<Constraint>::empty().filter(holds(nodes)) =~= Seq::<Constraint>::empty()) by {
            reveal(Seq::filter);
        }
        while m < count
            invariant
                m <= count,
                *self == *old(self),
                self.wf(),
                nodes == views(self.arena@),
                links == self.constraints@,
                count == links.len(),
                kept@ == links.take(m as int).filter(holds(nodes)),
            decreases count - m,
        {
            let link: Constraint = self.constraints[m];
            assert(link == links[m as int]);
            let gone: bool = match link.snapped(&self.arena) {
                Ok(gone) => gone,
                Err(e) => {
                    return Err(e);
                },
            };
            proof {
                assert(links.take(m + 1) =~= links.take(m as int).push(link));
                links.take(m as int).lemma_filter_push(link, holds(nodes));
            }
            if !gone {
                kept.push(link);
            }
            m += 1;
        }
        proof {
            assert(links.take(count as int) =~= links);
            lemma_filter_fits(links, holds(nodes), nodes.len());
        }
        self.constraints = kept;
        Ok(())
    }

    /// Removes the links that the stroke from the pointer's last position to
    /// `to` crosses. The others keep their order.
    pub fn prune_cut(&mut self, to: Vec2) -> (r: Result<(), SimError>)
        requires
            old(self).wf(),
        ensures
            r is Ok,
            final(self).wf(),
            final(self)@ == (StateView {
                links: uncut(old(self)@.links, old(self)@.nodes, old(self)@.pointer, to),
                ..old(self)@
            }),
    {
        let from: Vec2 = self.last_mouse_pos;
        let count: usize = self.constraints.len();
        let ghost nodes: Seq<NodeView> = views(self.arena@);
        let ghost links: Seq<Constraint> = self.constraints@;
        let mut kept: Vec<Constraint> = Vec::new();
        let mut m: usize = 0;
        assert(Seq::<Constraint>::empty().filter(spared(nodes, from, to)) =~= Seq::<
            Constraint,
        >::empty()) by {
            reveal(Seq::filter);
        }
        while m < count
            invariant
                m <= count,
                *self == *old(self),
                self.wf(),
                from == self.last_mouse_pos,
                nodes == views(self.arena@),
                links == self.constraints@,
                count == links.len(),
                kept@ == links.take(m as int).filter(spared(nodes, from, to)),
            decreases count - m,
        {
            let link: Constraint = self.constraints[m];
            assert(link == links[m as int]);
            let gone: bool = match link.cut_by(&self.arena, from, to) {
                Ok(gone) => gone,
                Err(e) => {
                    return Err(e);
                },
            };
            proof {
                assert(links.take(m + 1) =~= links.take(m as int).push(link));
                links.take(m as int).lemma_filter_push(link, spared(nodes, from, to));
            }
            if !gone {
                kept.push(link);
            }
            m += 1;
        }
        proof {
            assert(links.take(count as int) =~= links);
            lemma_filter_fits(links, spared(nodes, from, to), nodes.len());
        }
        self.constraints = kept;
        Ok(())
    }

    /// Advances the simulation by one time step: gravity, drag and the
    /// pointer's push, integration, relaxation, new velocities, then the
    /// removal of snapped and of cut links.
    pub fn update(&mut self, input: &Input) -> (r: Result<(), SimError>)
        requires
            old(self).wf(),
        ensures
            r is Ok,
            final(self).wf(),
            final(self)@ == step(old(self)@, *input),
    {
        self.apply_gravity();
        self.apply_drag();
        self.apply_wind(input);
        self.integrate();
        match self.solve_constraints() {
            Ok(()) => {},
            Err(e) => {
                return Err(e);
            },
        }
        match self.config.rule {
            IntegrationRule::SemiImplicitEuler => {
                self.differentiate();
            },
            IntegrationRule::VelocityVerlet => {},
        }
        match self.prune_snapped() {
            Ok(()) => {},
            Err(e) => {
                return Err(e);
            },
        }
        if input.cutting {
            match self.prune_cut(input.pointer) {
                Ok(()) => {},
                Err(e) => {
                    return Err(e);
                },
            }
        }
        self.last_mouse_pos = input.pointer;
        Ok(())
    }

    /// Advances the simulation by one step for each of `inputs`, in their
    /// order.
    pub fn run(&mut self, inputs: &Vec<Input>) -> (r: Result<(), SimError>)
        requires
            old(self).wf(),
        ensures
            r is Ok,
            final(self).wf(),
            final(self)@ == run(old(self)@, inputs@),
    {
        let count: usize = inputs.len();
        let mut i: usize = 0;
        while i < count
            invariant
                i <= count,
                count == inputs@.len(),
                self.wf(),
                self@ == run(old(self)@, inputs@.take(i as int)),
            decreases count - i,
        {
            match self.update(&inputs[i]) {
                Ok(()) => {},
                Err(e) => {
                    return Err(e);
                },
            }
            proof {
                assert(inputs@.take(i + 1).drop_last() =~= inputs@.take(i as int));
            }
            i += 1;
        }
        assert(inputs@.take(count as int) =~= inputs@);
        Ok(())
    }

    /// Puts node `index` at `pos`, fixed or not, as a host does that drags an
    /// anchor. Fails, and moves nothing, if there is no such node.
    pub fn place_node(&mut self, index: usize, pos: Vec2) -> (r: Result<(), SimError>)
        ensures
            index < old(self)@.nodes.len() ==> r is Ok && final(self)@ == (StateView {
                nodes: old(self)@.nodes.update(
                    index as int,
                    NodeView { pos, ..old(self)@.nodes[index as int] },
                ),
                ..old(self)@
            }),
            index >= old(self)@.nodes.len() ==> r == Err::<(), SimError>(
                SimError::InvariantViolated,
            ) && final(self)@ == old(self)@,
            old(self).wf() ==> final(self).wf(),
    {
        if index >= self.arena.len() {
            return Err(SimError::InvariantViolated);
        }
        self.arena[index].set_pos(pos);
        assert(views(self.arena@) =~= views(old(self).arena@).update(
            index as int,
            NodeView { pos, ..views(old(self).arena@)[index as int] },
        ));
        Ok(())
    }

    /// The shapes that show the current state.
    pub fn draw(&self) -> (r: Result<Vec<Shape>, SimError>)
        requires
            self.wf(),
        ensures
            r is Ok,
            r->Ok_0@ == picture(self@),
    {
        let mut shapes: Vec<Shape> = Vec::new();
        let count: usize = self.constraints.len();
        let n: usize = self.arena.len();
        let mut m: usize = 0;
        while m < count
            invariant
                m <= count,
                self.wf(),
                count == self.constraints@.len(),
                n == self.arena@.len(),
                shapes@ == Seq::new(
                    m as nat,
                    |j: int| segment_of(self.constraints@[j], views(self.arena@)),
                ),
            decreases count - m,
        {
            let link: Constraint = self.constraints[m];
            assert(link == self@.links[m as int]);
            if link.a >= n || link.b >= n {
                return Err(SimError::InvariantViolated);
            }
            shapes.push(
                Shape::Segment { from: self.arena[link.a].pos(), to: self.arena[link.b].pos() },
            );
            assert(shapes@ =~= Seq::new(
                (m + 1) as nat,
                |j: int| segment_of(self.constraints@[j], views(self.arena@)),
            ));
            m += 1;
        }
        let ghost segments: Seq<Shape> = shapes@;
        let mut k: usize = 0;
        while k < n
            invariant
                k <= n,
                n == self.arena@.len(),
                shapes@ == segments + Seq::new(k as nat, |j: int| dot_of(views(self.arena@)[j])),
            decreases n - k,
        {
            shapes.push(Shape::Dot { at: self.arena[k].pos(), pinned: self.arena[k].is_fixed() });
            assert(shapes@ =~= segments + Seq::new(
                (k + 1) as nat,
                |j: int| dot_of(views(self.arena@)[j]),
            ));
            k += 1;
        }
        Ok(shapes)
    }
}

} // verus!

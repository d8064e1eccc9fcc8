use cloth::config::{Config, Input};
use cloth::constraint::Constraint;
use cloth::error::{ConfigFault, SimError};
use cloth::fixed::{HALF, ONE};
use cloth::main_state::MainState;
use cloth::model::Shape;
use cloth::node::{IntegrationRule, Node};
use cloth::vec2::Vec2;

fn q(x: i64, y: i64) -> Vec2 {
    Vec2::new(x * ONE, y * ONE)
}

fn free(x: i64, y: i64) -> Node {
    Node::with_pos_and_mass(q(x, y), ONE).unwrap()
}

fn pinned(x: i64, y: i64) -> Node {
    let mut node = free(x, y);
    node.set_fixed(true);
    node
}

fn far() -> Vec2 {
    q(1000, 1000)
}

fn idle() -> Input {
    Input { pointer: far(), cutting: false }
}

fn positions(state: &MainState) -> Vec<Vec2> {
    state.nodes().iter().map(|node| node.pos()).collect()
}

#[test]
fn default_config_is_the_tearing_cloth() {
    let config = Config::default();
    assert_eq!(config.rule, IntegrationRule::SemiImplicitEuler);
    assert_eq!(config.dt, 150_000);
    assert_eq!(config.gravity, 18 * ONE);
    assert_eq!(config.drag, HALF);
    assert_eq!(config.rigidity, ONE);
    assert_eq!(config.compressed_gain, HALF);
    assert_eq!(config.passes, 5);
    assert_eq!(config.capture_radius, 30 * ONE);
    assert_eq!(config.impulse_gain, 50 * ONE);
}

#[test]
fn new_state_holds_what_it_was_given() {
    let nodes = vec![free(0, 0), pinned(8, 0)];
    let links = vec![Constraint::new(0, 1, 8 * ONE, Some(40 * ONE))];
    let state = MainState::new(nodes.clone(), links.clone(), Config::default(), q(3, 4)).unwrap();
    assert_eq!(state.nodes(), &nodes);
    assert_eq!(state.links(), &links);
    assert_eq!(state.last_pointer(), q(3, 4));
    assert_eq!(state.config(), Config::default());
}

#[test]
fn state_without_nodes_is_rejected() {
    let made = MainState::new(Vec::new(), Vec::new(), Config::default(), far());
    assert_eq!(made.err(), Some(SimError::InvalidConfiguration(ConfigFault::EmptyTopology)));
    let links = vec![Constraint::new(0, 0, ONE, None)];
    let made = MainState::new(Vec::new(), links, Config::default(), far());
    assert_eq!(made.err(), Some(SimError::InvalidConfiguration(ConfigFault::EmptyTopology)));
}

#[test]
fn link_to_a_missing_node_is_rejected() {
    let links = vec![Constraint::new(0, 1, ONE, None), Constraint::new(1, 2, ONE, None)];
    let made = MainState::new(vec![free(0, 0), free(1, 0)], links, Config::default(), far());
    assert_eq!(made.err(), Some(SimError::InvalidConfiguration(ConfigFault::LinkOutOfRange)));
}

#[test]
fn link_from_a_node_to_itself_is_rejected() {
    let links = vec![Constraint::new(0, 1, ONE, None), Constraint::new(1, 1, ONE, None)];
    let made = MainState::new(vec![free(0, 0), free(1, 0)], links, Config::default(), far());
    assert_eq!(made.err(), Some(SimError::InvalidConfiguration(ConfigFault::SelfLink)));
}

#[test]
fn missing_node_is_reported_before_a_self_link() {
    let links = vec![Constraint::new(1, 1, ONE, None), Constraint::new(0, 5, ONE, None)];
    let made = MainState::new(vec![free(0, 0), free(1, 0)], links, Config::default(), far());
    assert_eq!(made.err(), Some(SimError::InvalidConfiguration(ConfigFault::LinkOutOfRange)));
}

#[test]
fn parallel_links_between_the_same_nodes_are_kept() {
    let links = vec![Constraint::new(0, 1, ONE, None), Constraint::new(0, 1, ONE, None)];
    let state =
        MainState::new(vec![free(0, 0), free(1, 0)], links.clone(), Config::default(), far())
            .unwrap();
    assert_eq!(state.links(), &links);
}

#[test]
fn overstretched_link_is_removed_by_the_breakage_filter() {
    let links = vec![Constraint::new(0, 1, 8 * ONE, Some(12 * ONE))];
    let mut state =
        MainState::new(vec![free(0, 0), free(16, 0)], links, Config::default(), far()).unwrap();
    assert_eq!(state.prune_snapped(), Ok(()));
    assert!(state.links().is_empty());
}

#[test]
fn link_within_its_threshold_survives_the_breakage_filter() {
    let links = vec![Constraint::new(0, 1, 8 * ONE, Some(24 * ONE))];
    let mut state =
        MainState::new(vec![free(0, 0), free(16, 0)], links.clone(), Config::default(), far())
            .unwrap();
    assert_eq!(state.prune_snapped(), Ok(()));
    assert_eq!(state.links(), &links);
}

#[test]
fn step_breaks_a_link_held_beyond_its_threshold() {
    let links = vec![
        Constraint::new(0, 1, 8 * ONE, Some(24 * ONE)),
        Constraint::new(0, 1, 8 * ONE, Some(12 * ONE)),
        Constraint::new(1, 0, 8 * ONE, None),
    ];
    let mut state =
        MainState::new(vec![pinned(0, 0), pinned(16, 0)], links.clone(), Config::default(), far())
            .unwrap();
    assert_eq!(state.update(&idle()), Ok(()));
    assert_eq!(state.links(), &vec![links[0], links[2]]);
    assert_eq!(positions(&state), vec![q(0, 0), q(16, 0)]);
}

#[test]
fn relaxation_saves_a_free_link_from_breaking() {
    let links = vec![Constraint::new(0, 1, 8 * ONE, Some(12 * ONE))];
    let mut state =
        MainState::new(vec![free(0, 0), free(16, 0)], links.clone(), Config::default(), far())
            .unwrap();
    assert_eq!(state.update(&idle()), Ok(()));
    assert_eq!(state.links(), &links);
}

fn three_in_a_row(pointer: Vec2) -> MainState {
    let nodes = vec![free(0, 0), free(10, 0), free(20, 0)];
    let links = vec![Constraint::new(0, 1, 10 * ONE, None), Constraint::new(1, 2, 10 * ONE, None)];
    MainState::new(nodes, links, Config::default(), pointer).unwrap()
}

#[test]
fn cut_removes_only_the_crossed_link() {
    let mut state = three_in_a_row(q(5, -5));
    assert_eq!(state.prune_cut(q(5, 5)), Ok(()));
    assert_eq!(state.links(), &vec![Constraint::new(1, 2, 10 * ONE, None)]);
    assert_eq!(positions(&state), vec![q(0, 0), q(10, 0), q(20, 0)]);
}

#[test]
fn step_with_the_knife_down_cuts_the_crossed_link() {
    let mut state = three_in_a_row(q(5, -5));
    assert_eq!(state.update(&Input { pointer: q(5, 5), cutting: true }), Ok(()));
    assert_eq!(state.links(), &vec![Constraint::new(1, 2, 10 * ONE, None)]);
    assert_eq!(state.last_pointer(), q(5, 5));
}

#[test]
fn step_with_the_knife_up_cuts_nothing() {
    let mut state = three_in_a_row(q(5, -50));
    assert_eq!(state.update(&Input { pointer: q(5, 50), cutting: false }), Ok(()));
    assert_eq!(state.links().len(), 2);
    assert_eq!(state.last_pointer(), q(5, 50));
}

#[test]
fn long_stroke_cuts_every_link_it_crosses() {
    let nodes = vec![free(0, 0), free(10, 0), free(10, 10)];
    let links = vec![Constraint::new(0, 1, 10 * ONE, None), Constraint::new(1, 2, 10 * ONE, None)];
    let mut state = MainState::new(nodes, links, Config::default(), q(5, -3)).unwrap();
    assert_eq!(state.prune_cut(q(15, 7)), Ok(()));
    assert!(state.links().is_empty());
}

#[test]
fn stroke_through_a_shared_end_is_judged_by_the_exact_turns() {
    // the stroke meets the row of nodes exactly at the middle one: seen from
    // the stroke the first link has both ends on one side, the second has not
    let mut state = three_in_a_row(q(-5, -1));
    assert_eq!(state.prune_cut(q(25, 1)), Ok(()));
    assert_eq!(state.links(), &vec![Constraint::new(0, 1, 10 * ONE, None)]);
}

#[test]
fn stroke_that_does_not_move_cuts_nothing() {
    let mut state = three_in_a_row(q(5, 0));
    assert_eq!(state.prune_cut(q(5, 0)), Ok(()));
    assert_eq!(state.links().len(), 2);
}

#[test]
fn pointer_pushes_only_the_nodes_it_has_captured() {
    let nodes = vec![free(10, 10), free(100, 100), free(42, 10), free(41, 10), pinned(12, 12)];
    let mut state = MainState::new(nodes, Vec::new(), Config::default(), q(0, 0)).unwrap();
    state.apply_wind(&Input { pointer: q(12, 10), cutting: false });
    let forces: Vec<Vec2> = state.nodes().iter().map(|node| node.force()).collect();
    assert_eq!(forces, vec![q(600, 500), q(0, 0), q(0, 0), q(600, 500), q(600, 500)]);
    assert_eq!(state.last_pointer(), q(0, 0));
}

#[test]
fn cutting_pointer_pushes_nothing() {
    let mut state =
        MainState::new(vec![free(10, 10)], Vec::new(), Config::default(), q(0, 0)).unwrap();
    state.apply_wind(&Input { pointer: q(12, 10), cutting: true });
    assert_eq!(state.nodes()[0].force(), q(0, 0));
}

#[test]
fn passes_of_gravity_and_drag_reach_every_free_node() {
    let nodes = vec![free(0, 0), pinned(1, 0), free(2, 0)];
    let mut state = MainState::new(nodes, Vec::new(), Config::default(), far()).unwrap();
    state.apply_gravity();
    state.apply_drag();
    let forces: Vec<Vec2> = state.nodes().iter().map(|node| node.force()).collect();
    assert_eq!(forces, vec![q(0, 18), q(0, 0), q(0, 18)]);
    state.integrate();
    assert_eq!(
        positions(&state),
        vec![Vec2::new(0, 405_000), q(1, 0), Vec2::new(2 * ONE, 405_000)]
    );
    state.differentiate();
    let speeds: Vec<Vec2> = state.nodes().iter().map(|node| node.vel()).collect();
    assert_eq!(speeds, vec![Vec2::new(0, 2_700_000), q(0, 0), Vec2::new(0, 2_700_000)]);
}

fn pendulum() -> MainState {
    let links = vec![Constraint::new(0, 1, 8 * ONE, None)];
    MainState::new(vec![pinned(0, 0), free(0, 8)], links, Config::default(), far()).unwrap()
}

#[test]
fn one_step_of_a_hanging_node() {
    let mut state = pendulum();
    assert_eq!(state.update(&idle()), Ok(()));
    let hung = state.nodes()[1];
    assert_eq!(hung.pos(), Vec2::new(0, 8_012_657));
    assert_eq!(hung.last_pos(), q(0, 8));
    assert_eq!(hung.vel(), Vec2::new(0, 84_380));
    assert_eq!(hung.force(), q(0, 0));
    assert_eq!(state.nodes()[0], pinned(0, 0));
    assert_eq!(state.links().len(), 1);
}

#[test]
fn two_steps_of_a_hanging_node() {
    let mut state = pendulum();
    assert_eq!(state.update(&idle()), Ok(()));
    assert_eq!(state.update(&idle()), Ok(()));
    let hung = state.nodes()[1];
    assert_eq!(hung.pos(), Vec2::new(0, 8_013_418));
    assert_eq!(hung.last_pos(), Vec2::new(0, 8_012_657));
    assert_eq!(hung.vel(), Vec2::new(0, 5_073));
}

#[test]
fn relaxation_passes_follow_link_order() {
    let nodes = vec![pinned(0, 0), free(0, 16), free(0, 24)];
    let links = vec![Constraint::new(0, 1, 8 * ONE, None), Constraint::new(1, 2, 8 * ONE, None)];
    let config = Config { passes: 1, ..Config::default() };
    let mut state = MainState::new(nodes.clone(), links, config, far()).unwrap();
    assert_eq!(state.solve_constraints(), Ok(()));
    // the first link pulls node 1 up to 12, so the second sees 12 between its
    // ends and pulls node 1 to 14 and node 2 to 22
    assert_eq!(positions(&state), vec![q(0, 0), q(0, 14), q(0, 22)]);
    let links = vec![Constraint::new(1, 2, 8 * ONE, None), Constraint::new(0, 1, 8 * ONE, None)];
    let mut state = MainState::new(nodes, links, config, far()).unwrap();
    assert_eq!(state.solve_constraints(), Ok(()));
    assert_eq!(positions(&state), vec![q(0, 0), q(0, 12), q(0, 24)]);
}

#[test]
fn zero_passes_leave_positions_as_integrated() {
    let nodes = vec![free(0, 0), free(16, 0)];
    let links = vec![Constraint::new(0, 1, 8 * ONE, None)];
    let config = Config { passes: 0, ..Config::default() };
    let mut state = MainState::new(nodes.clone(), links.clone(), config, far()).unwrap();
    assert_eq!(state.solve_constraints(), Ok(()));
    assert_eq!(state.nodes(), &nodes);
    assert_eq!(state.update(&idle()), Ok(()));
    assert_eq!(positions(&state), vec![Vec2::new(0, 405_000), Vec2::new(16 * ONE, 405_000)]);
    let mut alone = MainState::new(nodes, Vec::new(), config, far()).unwrap();
    assert_eq!(alone.update(&idle()), Ok(()));
    assert_eq!(state.nodes(), alone.nodes());
}

#[test]
fn verlet_engine_clears_forces_without_differentiating() {
    let config = Config { rule: IntegrationRule::VelocityVerlet, ..Config::default() };
    let mut state = MainState::new(vec![free(0, 0)], Vec::new(), config, far()).unwrap();
    assert_eq!(state.update(&idle()), Ok(()));
    let node = state.nodes()[0];
    assert_eq!(node.vel(), Vec2::new(0, 1_350_000));
    assert_eq!(node.pos(), Vec2::new(0, 202_500));
    assert_eq!(node.force(), q(0, 0));
}

#[test]
fn equal_runs_end_equal() {
    let inputs = vec![
        Input { pointer: q(0, 9), cutting: false },
        Input { pointer: q(3, 9), cutting: false },
        Input { pointer: q(3, -1), cutting: true },
        Input { pointer: q(3, 20), cutting: true },
        Input { pointer: q(4, 19), cutting: false },
    ];
    let nodes = vec![pinned(0, 0), free(0, 8), free(0, 16), free(8, 16)];
    let links = vec![
        Constraint::new(0, 1, 8 * ONE, Some(40 * ONE)),
        Constraint::new(1, 2, 8 * ONE, Some(40 * ONE)),
        Constraint::new(2, 3, 8 * ONE, Some(40 * ONE)),
    ];
    let mut first = MainState::new(nodes.clone(), links.clone(), Config::default(), far()).unwrap();
    let mut second = MainState::new(nodes, links, Config::default(), far()).unwrap();
    assert_eq!(first.run(&inputs), Ok(()));
    for input in inputs.iter() {
        assert_eq!(second.update(input), Ok(()));
    }
    assert_eq!(first.nodes(), second.nodes());
    assert_eq!(first.links(), second.links());
    assert_eq!(first.last_pointer(), q(4, 19));
    assert_eq!(second.last_pointer(), q(4, 19));
}

#[test]
fn empty_run_changes_nothing() {
    let mut state = pendulum();
    assert_eq!(state.run(&Vec::new()), Ok(()));
    assert_eq!(state.nodes(), pendulum().nodes());
    assert_eq!(state.last_pointer(), far());
}

#[test]
fn picture_shows_links_then_nodes() {
    let mut state = three_in_a_row(far());
    assert_eq!(state.place_node(2, q(20, 5)), Ok(()));
    let shapes = state.draw().unwrap();
    assert_eq!(
        shapes,
        vec![
            Shape::Segment { from: q(0, 0), to: q(10, 0) },
            Shape::Segment { from: q(10, 0), to: q(20, 5) },
            Shape::Dot { at: q(0, 0), pinned: false },
            Shape::Dot { at: q(10, 0), pinned: false },
            Shape::Dot { at: q(20, 5), pinned: false },
        ]
    );
}

#[test]
fn picture_marks_fixed_nodes() {
    let state = pendulum();
    assert_eq!(
        state.draw().unwrap(),
        vec![
            Shape::Segment { from: q(0, 0), to: q(0, 8) },
            Shape::Dot { at: q(0, 0), pinned: true },
            Shape::Dot { at: q(0, 8), pinned: false },
        ]
    );
}

#[test]
fn placing_moves_even_a_fixed_node() {
    let mut state = pendulum();
    assert_eq!(state.place_node(0, q(5, 5)), Ok(()));
    assert_eq!(state.nodes()[0].pos(), q(5, 5));
    assert_eq!(state.nodes()[0].last_pos(), q(0, 0));
    assert!(state.nodes()[0].is_fixed());
    assert_eq!(state.nodes()[1], free(0, 8));
}

#[test]
fn placing_a_missing_node_fails_and_moves_nothing() {
    let mut state = pendulum();
    assert_eq!(state.place_node(2, q(5, 5)), Err(SimError::InvariantViolated));
    assert_eq!(state.nodes(), pendulum().nodes());
}

#[test]
fn links_at_rest_leave_every_node_alone() {
    let mut state = three_in_a_row(far());
    let before = state.nodes().clone();
    assert_eq!(state.solve_constraints(), Ok(()));
    assert_eq!(state.nodes(), &before);
}

use cloth::config::Config;
use cloth::constraint::Constraint;
use cloth::error::{ConfigFault, SimError};
use cloth::fixed::ONE;
use cloth::grid::Grid;
use cloth::main_state::MainState;
use cloth::vec2::Vec2;

fn g(x: i64, y: i64) -> Vec2 {
    Vec2::new(x * ONE, y * ONE)
}

fn small(rows: usize, cols: usize, every: usize) -> Grid {
    Grid { rows, cols, pin_every: every, thread_every: every, ..Grid::default() }
}

fn ends(links: &Vec<Constraint>) -> Vec<(usize, usize)> {
    links.iter().map(|link| (link.a, link.b)).collect()
}

#[test]
fn default_grid_is_the_large_cloth() {
    let grid = Grid::default();
    assert_eq!(grid.rows, 50);
    assert_eq!(grid.cols, 100);
    assert_eq!(grid.spacing, 8 * ONE);
    assert_eq!(grid.mass, ONE);
    assert_eq!(grid.pin_every, 3);
    assert_eq!(grid.thread_every, 3);
    assert_eq!(grid.top_break_threshold, Some(80 * ONE));
    assert_eq!(grid.break_threshold, Some(40 * ONE));
    assert_eq!(grid.parking, g(-100, -100));
}

#[test]
fn cloth_is_centred_on_the_screen() {
    let grid = Grid::default();
    assert_eq!(grid.centered_left_edge(1000 * ONE), 100 * ONE);
    assert_eq!(grid.centered_left_edge(800 * ONE), 0);
    assert_eq!(grid.centered_left_edge(0), -400 * ONE);
    assert_eq!(small(2, 3, 1).centered_left_edge(25 * ONE), 500_000);
}

#[test]
fn large_cloth_has_the_expected_counts() {
    let state = MainState::cloth(&Grid::default(), Config::default(), 1000 * ONE, g(0, 0)).unwrap();
    assert_eq!(state.nodes().len(), 5000);
    assert_eq!(state.links().len(), 18 * 99 + 34 * 49);
    let fixed = state.nodes().iter().filter(|node| node.is_fixed()).count();
    let parked = state.nodes().iter().filter(|node| node.pos() == g(-100, -100)).count();
    assert_eq!(parked, 32 * 66);
    assert_eq!(fixed, 34 + 32 * 66);
    assert_eq!(state.last_pointer(), g(0, 0));
    assert_eq!(state.config(), Config::default());
}

#[test]
fn large_cloth_hangs_from_every_third_node_of_its_top_row() {
    let state = MainState::cloth(&Grid::default(), Config::default(), 1000 * ONE, g(0, 0)).unwrap();
    let nodes = state.nodes();
    assert_eq!(nodes[0].pos(), g(100, 0));
    assert!(nodes[0].is_fixed());
    assert_eq!(nodes[1].pos(), g(108, 0));
    assert!(!nodes[1].is_fixed());
    assert!(!nodes[2].is_fixed());
    assert!(nodes[3].is_fixed());
    assert_eq!(nodes[99].pos(), g(892, 0));
    assert!(nodes[99].is_fixed());
    assert_eq!(nodes[300].pos(), g(100, 24));
    assert!(!nodes[300].is_fixed());
    assert_eq!(nodes[4999].pos(), g(892, 392));
    assert!(!nodes[4999].is_fixed());
    assert_eq!(nodes[4999].mass(), ONE);
    assert_eq!(nodes[4999].last_pos(), g(892, 392));
}

#[test]
fn nodes_that_no_link_touches_are_parked() {
    let state = MainState::cloth(&Grid::default(), Config::default(), 1000 * ONE, g(0, 0)).unwrap();
    let loose = state.nodes()[101];
    assert!(loose.is_fixed());
    assert_eq!(loose.pos(), g(-100, -100));
    assert_eq!(loose.last_pos(), g(108, 8));
    let on_a_column = state.nodes()[103];
    assert!(!on_a_column.is_fixed());
    assert_eq!(on_a_column.pos(), g(124, 8));
}

#[test]
fn large_cloth_links_run_cell_by_cell() {
    let state = MainState::cloth(&Grid::default(), Config::default(), 1000 * ONE, g(0, 0)).unwrap();
    let links = state.links();
    assert_eq!(links[0], Constraint::new(0, 1, 8 * ONE, Some(80 * ONE)));
    assert_eq!(links[1], Constraint::new(0, 100, 8 * ONE, Some(80 * ONE)));
    assert_eq!(links[2], Constraint::new(1, 2, 8 * ONE, Some(80 * ONE)));
    assert_eq!(links[3], Constraint::new(2, 3, 8 * ONE, Some(80 * ONE)));
    assert_eq!(links[4], Constraint::new(3, 4, 8 * ONE, Some(80 * ONE)));
    assert_eq!(links[5], Constraint::new(3, 103, 8 * ONE, Some(80 * ONE)));
    // the top row holds 99 links to the right and 34 downward
    assert_eq!(links[132], Constraint::new(99, 199, 8 * ONE, Some(80 * ONE)));
    assert_eq!(links[133], Constraint::new(100, 200, 8 * ONE, Some(40 * ONE)));
    assert_eq!(links[134], Constraint::new(103, 203, 8 * ONE, Some(40 * ONE)));
    assert_eq!(links[links.len() - 1], Constraint::new(4998, 4999, 8 * ONE, Some(40 * ONE)));
}

#[test]
fn fully_threaded_square() {
    let (nodes, links) = small(2, 2, 1).build(0).unwrap();
    assert_eq!(ends(&links), vec![(0, 1), (0, 2), (1, 3), (2, 3)]);
    assert_eq!(links[0].break_threshold, Some(80 * ONE));
    assert_eq!(links[3].break_threshold, Some(40 * ONE));
    let places: Vec<Vec2> = nodes.iter().map(|node| node.pos()).collect();
    assert_eq!(places, vec![g(0, 0), g(8, 0), g(0, 8), g(8, 8)]);
    let pins: Vec<bool> = nodes.iter().map(|node| node.is_fixed()).collect();
    assert_eq!(pins, vec![true, true, false, false]);
}

#[test]
fn sparsely_threaded_grid_parks_its_inner_nodes() {
    let (nodes, links) = small(4, 4, 3).build(10 * ONE).unwrap();
    assert_eq!(
        ends(&links),
        vec![
            (0, 1), (0, 4), (1, 2), (2, 3), (3, 7),
            (4, 8), (7, 11),
            (8, 12), (11, 15),
            (12, 13), (13, 14), (14, 15),
        ]
    );
    let parked: Vec<usize> =
        (0..16).filter(|&cell| nodes[cell].pos() == g(-100, -100)).collect();
    assert_eq!(parked, vec![5, 6, 9, 10]);
    let pins: Vec<usize> = (0..16).filter(|&cell| nodes[cell].is_fixed()).collect();
    assert_eq!(pins, vec![0, 3, 5, 6, 9, 10]);
    assert_eq!(nodes[7].pos(), g(34, 8));
}

#[test]
fn single_cell_has_no_link_and_is_parked() {
    let (nodes, links) = small(1, 1, 1).build(0).unwrap();
    assert!(links.is_empty());
    assert_eq!(nodes.len(), 1);
    assert!(nodes[0].is_fixed());
    assert_eq!(nodes[0].pos(), g(-100, -100));
}

#[test]
fn single_row_is_threaded_as_the_last_row() {
    let (nodes, links) = small(1, 3, 2).build(0).unwrap();
    assert_eq!(ends(&links), vec![(0, 1), (1, 2)]);
    let pins: Vec<bool> = nodes.iter().map(|node| node.is_fixed()).collect();
    assert_eq!(pins, vec![true, false, true]);
}

#[test]
fn links_without_thresholds() {
    let grid = Grid { top_break_threshold: None, break_threshold: None, ..small(2, 2, 1) };
    let (_, links) = grid.build(0).unwrap();
    assert!(links.iter().all(|link| link.break_threshold == None));
    assert!(links.iter().all(|link| link.rest_length == 8 * ONE));
}

#[test]
fn grid_without_cells_is_rejected() {
    let fault = Err(SimError::InvalidConfiguration(ConfigFault::EmptyTopology));
    assert_eq!(small(0, 4, 1).check(), fault);
    assert_eq!(small(4, 0, 1).check(), fault);
    assert_eq!(small(0, 0, 0).check(), fault);
    assert_eq!(small(0, 4, 1).build(0).err(), fault.err());
    assert_eq!(
        MainState::cloth(&small(0, 4, 1), Config::default(), 0, g(0, 0)).err(),
        fault.err()
    );
}

#[test]
fn grid_with_too_many_cells_is_rejected() {
    let fault = Err(SimError::InvalidConfiguration(ConfigFault::TooManyNodes));
    assert_eq!(small(usize::MAX, 2, 1).check(), fault);
    assert_eq!(Grid { mass: 0, ..small(2, usize::MAX, 0) }.check(), fault);
    assert_eq!(small(usize::MAX, 2, 1).build(0).err(), fault.err());
}

#[test]
fn grid_of_massless_nodes_is_rejected() {
    let fault = Err(SimError::InvalidConfiguration(ConfigFault::NonPositiveMass));
    assert_eq!(Grid { mass: 0, ..small(2, 2, 1) }.check(), fault);
    assert_eq!(Grid { mass: -ONE, ..small(2, 2, 0) }.check(), fault);
    assert_eq!(
        MainState::cloth(&Grid { mass: 0, ..small(2, 2, 1) }, Config::default(), 0, g(0, 0)).err(),
        fault.err()
    );
}

#[test]
fn grid_with_a_zero_stride_is_rejected() {
    let fault = Err(SimError::InvalidConfiguration(ConfigFault::ZeroStride));
    assert_eq!(Grid { pin_every: 0, ..small(2, 2, 1) }.check(), fault);
    assert_eq!(Grid { thread_every: 0, ..small(2, 2, 1) }.check(), fault);
    assert_eq!(Grid { thread_every: 0, ..small(2, 2, 1) }.build(0).err(), fault.err());
}

#[test]
fn sound_grid_passes_the_check() {
    assert_eq!(Grid::default().check(), Ok(()));
    assert_eq!(small(1, 1, 1).check(), Ok(()));
}

#[test]
fn built_cloth_can_be_stepped() {
    let mut state = MainState::cloth(&small(4, 4, 3), Config::default(), 0, g(500, 500)).unwrap();
    let before: Vec<Vec2> = state.nodes().iter().map(|node| node.pos()).collect();
    let input = cloth::config::Input { pointer: g(500, 500), cutting: false };
    assert_eq!(state.update(&input), Ok(()));
    let after: Vec<Vec2> = state.nodes().iter().map(|node| node.pos()).collect();
    for cell in [0, 3, 5, 6, 9, 10] {
        assert_eq!(after[cell], before[cell]);
    }
    assert!(after[15].y > before[15].y);
    assert_eq!(state.links().len(), 12);
}

#[test]
fn single_column_is_a_rope_hung_from_its_top() {
    let (nodes, links) = small(3, 1, 1).build(4 * ONE).unwrap();
    assert_eq!(ends(&links), vec![(0, 1), (1, 2)]);
    assert_eq!(links[0].break_threshold, Some(80 * ONE));
    assert_eq!(links[1].break_threshold, Some(40 * ONE));
    let places: Vec<Vec2> = nodes.iter().map(|node| node.pos()).collect();
    assert_eq!(places, vec![g(4, 0), g(4, 8), g(4, 16)]);
    let pins: Vec<bool> = nodes.iter().map(|node| node.is_fixed()).collect();
    assert_eq!(pins, vec![true, false, false]);
}

fn on_a_thread(grid: &Grid, cell: usize) -> bool {
    let row = cell / grid.cols;
    let col = cell % grid.cols;
    let threaded_row = row % grid.thread_every == 0 || row == grid.rows - 1;
    let threaded_col = col % grid.thread_every == 0 || col == grid.cols - 1;
    (threaded_row && grid.cols > 1) || (threaded_col && grid.rows > 1)
}

#[test]
fn parked_nodes_are_those_off_every_thread() {
    let grids = vec![
        Grid::default(),
        small(7, 5, 3),
        small(1, 1, 1),
        small(1, 6, 4),
        small(6, 1, 4),
        small(2, 2, 5),
        Grid { thread_every: 2, ..small(9, 8, 3) },
    ];
    for grid in grids.iter() {
        let (nodes, _) = grid.build(0).unwrap();
        assert_eq!(nodes.len(), grid.rows * grid.cols);
        for (cell, node) in nodes.iter().enumerate() {
            assert_eq!(node.pos() == grid.parking, !on_a_thread(grid, cell));
        }
    }
}

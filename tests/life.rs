use game_of_life::engine::{grid_from_draws, SimulationState};
use game_of_life::grid::{wrap, Grid, GridError};
use game_of_life::rules::{is_alive, neighbor_count};

fn board(n: usize, live: &[(usize, usize)]) -> Grid {
    let mut rows = vec![vec![false; n]; n];
    for &(r, c) in live {
        rows[r][c] = true;
    }
    Grid::from_rows(rows).unwrap()
}

fn live_cells(g: &Grid) -> Vec<(usize, usize)> {
    let mut out = Vec::new();
    let rows = g.to_rows();
    for (r, row) in rows.iter().enumerate() {
        for (c, &alive) in row.iter().enumerate() {
            if alive {
                out.push((r, c));
            }
        }
    }
    out
}

fn stepped(g: Grid) -> Grid {
    let mut s = SimulationState::new(g);
    s.step();
    Grid::from_rows(s.current().to_rows()).unwrap()
}

#[test]
fn wrap_steps_off_the_edges() {
    assert_eq!(wrap(0, 5, -1), 4);
    assert_eq!(wrap(4, 5, 1), 0);
    assert_eq!(wrap(2, 5, 0), 2);
    assert_eq!(wrap(2, 5, 1), 3);
    assert_eq!(wrap(2, 5, -1), 1);
    assert_eq!(wrap(0, 2, -1), 1);
    assert_eq!(wrap(1, 2, 1), 0);
}

#[test]
fn wrap_stays_in_range_for_every_index() {
    for n in 2..12 {
        for i in 0..n {
            assert!(wrap(i, n, -1) < n as usize);
            assert!(wrap(i, n, 1) < n as usize);
        }
        assert_eq!(wrap(0, n, -1), (n - 1) as usize);
        assert_eq!(wrap(n - 1, n, 1), 0);
    }
}

#[test]
fn wrap_on_a_single_cell_ring() {
    assert_eq!(wrap(0, 1, -1), 0);
    assert_eq!(wrap(0, 1, 0), 0);
    assert_eq!(wrap(0, 1, 1), 0);
}

#[test]
fn neighbor_count_sees_all_eight_neighbours() {
    let g = board(5, &[(1, 1), (1, 2), (1, 3), (2, 1), (2, 3), (3, 1), (3, 2), (3, 3)]);
    assert_eq!(neighbor_count(2, 2, &g), 8);
    assert_eq!(neighbor_count(0, 0, &g), 1);
    assert_eq!(neighbor_count(1, 1, &g), 2);
}

#[test]
fn neighbor_count_wraps_round_the_torus() {
    let g = board(4, &[(3, 3), (0, 3), (3, 0)]);
    assert_eq!(neighbor_count(0, 0, &g), 3);
    assert!(is_alive(0, 0, &g));
}

#[test]
fn neighbor_count_on_a_two_cell_board_counts_offsets() {
    let g = board(2, &[(0, 1)]);
    assert_eq!(neighbor_count(0, 0, &g), 2);
    assert_eq!(neighbor_count(1, 1, &g), 2);
    assert_eq!(neighbor_count(0, 1, &g), 0);
}

#[test]
fn lone_cell_dies() {
    let g = board(5, &[(2, 2)]);
    assert_eq!(neighbor_count(2, 2, &g), 0);
    assert!(!is_alive(2, 2, &g));
    assert!(live_cells(&stepped(g)).is_empty());
}

#[test]
fn live_cell_with_two_or_three_neighbours_survives() {
    let two = board(5, &[(2, 2), (1, 1), (3, 3)]);
    assert_eq!(neighbor_count(2, 2, &two), 2);
    assert!(is_alive(2, 2, &two));
    let three = board(5, &[(2, 2), (1, 1), (3, 3), (1, 3)]);
    assert_eq!(neighbor_count(2, 2, &three), 3);
    assert!(is_alive(2, 2, &three));
}

#[test]
fn live_cell_with_one_or_four_neighbours_dies() {
    let one = board(5, &[(2, 2), (1, 1)]);
    assert!(!is_alive(2, 2, &one));
    let four = board(5, &[(2, 2), (1, 1), (3, 3), (1, 3), (3, 1)]);
    assert_eq!(neighbor_count(2, 2, &four), 4);
    assert!(!is_alive(2, 2, &four));
}

#[test]
fn dead_cell_with_three_neighbours_is_born() {
    let g = board(5, &[(1, 1), (1, 2), (1, 3)]);
    assert_eq!(neighbor_count(2, 2, &g), 3);
    assert!(is_alive(2, 2, &g));
}

#[test]
fn dead_cell_without_three_neighbours_stays_dead() {
    let around = [(1, 1), (1, 2), (1, 3), (2, 1)];
    for k in [0usize, 1, 2, 4] {
        let g = board(5, &around[..k]);
        assert_eq!(neighbor_count(2, 2, &g), k as u32);
        assert!(!is_alive(2, 2, &g));
    }
}

#[test]
fn block_is_a_still_life() {
    for n in [4usize, 5, 8] {
        let cells = [(1, 1), (1, 2), (2, 1), (2, 2)];
        let g = stepped(board(n, &cells));
        assert_eq!(live_cells(&g), cells.to_vec());
    }
}

#[test]
fn block_across_the_seam_is_a_still_life() {
    let cells = [(0, 0), (0, 4), (4, 0), (4, 4)];
    let g = stepped(board(5, &cells));
    assert_eq!(live_cells(&g), vec![(0, 0), (0, 4), (4, 0), (4, 4)]);
}

#[test]
fn blinker_has_period_two() {
    let horizontal = vec![(2, 1), (2, 2), (2, 3)];
    let vertical = vec![(1, 2), (2, 2), (3, 2)];
    let mut s = SimulationState::new(board(5, &horizontal));
    s.step();
    assert_eq!(live_cells(s.current()), vertical);
    s.step();
    assert_eq!(live_cells(s.current()), horizontal);
    s.step();
    assert_eq!(live_cells(s.current()), vertical);
}

#[test]
fn changing_a_copy_of_the_current_board_leaves_the_run_alone() {
    let mut s = SimulationState::new(board(5, &[(2, 1), (2, 2), (2, 3)]));
    s.step();
    let mut copy = s.current().to_rows();
    for row in copy.iter_mut() {
        for cell in row.iter_mut() {
            *cell = true;
        }
    }
    assert_eq!(live_cells(s.current()), vec![(1, 2), (2, 2), (3, 2)]);
    s.step();
    assert_eq!(live_cells(s.current()), vec![(2, 1), (2, 2), (2, 3)]);
}

#[test]
fn scratch_contents_do_not_leak_into_the_next_generation() {
    let glider = [(0, 1), (1, 2), (2, 0), (2, 1), (2, 2)];
    // After two steps the scratch board holds the first generation.
    let mut a = SimulationState::new(board(7, &glider));
    a.step();
    a.step();
    let mut b = SimulationState::new(Grid::from_rows(a.current().to_rows()).unwrap());
    a.step();
    b.step();
    assert_eq!(a.current().to_rows(), b.current().to_rows());
}

#[test]
fn equal_boards_step_to_equal_boards() {
    let cells = [(0, 1), (1, 2), (2, 0), (2, 1), (2, 2), (5, 5)];
    let mut a = SimulationState::new(board(8, &cells));
    let mut b = SimulationState::new(board(8, &cells));
    for _ in 0..6 {
        a.step();
        b.step();
        assert_eq!(a.current().to_rows(), b.current().to_rows());
    }
}

#[test]
fn glider_moves_one_cell_diagonally_in_four_steps() {
    let glider = [(0, 1), (1, 2), (2, 0), (2, 1), (2, 2)];
    let mut s = SimulationState::new(board(8, &glider));
    for _ in 0..4 {
        s.step();
    }
    assert_eq!(live_cells(s.current()), vec![(1, 2), (2, 3), (3, 1), (3, 2), (3, 3)]);
}

#[test]
fn single_cell_board_never_lives() {
    let live = board(1, &[(0, 0)]);
    assert_eq!(neighbor_count(0, 0, &live), 8);
    let mut s = SimulationState::new(live);
    for _ in 0..3 {
        s.step();
        assert!(!s.current().get(0, 0));
    }
    let dead = board(1, &[]);
    assert_eq!(neighbor_count(0, 0, &dead), 0);
    assert!(!is_alive(0, 0, &dead));
}

#[test]
fn from_rows_rejects_empty_and_jagged_boards() {
    assert_eq!(Grid::from_rows(vec![]).err(), Some(GridError::InvalidDimension));
    assert_eq!(
        Grid::from_rows(vec![vec![true, false], vec![false]]).err(),
        Some(GridError::NotSquare)
    );
    assert_eq!(
        Grid::from_rows(vec![vec![true, false, true], vec![false, false, true]]).err(),
        Some(GridError::NotSquare)
    );
    let g = Grid::from_rows(vec![vec![true, false], vec![false, true]]).unwrap();
    assert_eq!(g.len(), 2);
    assert!(g.get(0, 0) && !g.get(0, 1) && !g.get(1, 0) && g.get(1, 1));
}

#[test]
fn filled_and_set() {
    let mut g = Grid::filled(3, false);
    assert!(live_cells(&g).is_empty());
    g.set(1, 2, true);
    assert_eq!(live_cells(&g), vec![(1, 2)]);
    g.set(1, 2, false);
    assert!(live_cells(&g).is_empty());
    let full = Grid::filled(2, true);
    assert_eq!(live_cells(&full).len(), 4);
}

#[test]
fn draws_below_the_threshold_make_live_cells() {
    let draws = vec![vec![0, 99, 100], vec![u32::MAX, 50, 101], vec![7, 100, 1000]];
    let g = grid_from_draws(&draws, 100).unwrap();
    assert_eq!(
        g.to_rows(),
        vec![vec![true, true, false], vec![false, true, false], vec![true, false, false]]
    );
    let all = grid_from_draws(&draws, 1u64 << 32).unwrap();
    assert_eq!(live_cells(&all).len(), 9);
    let none = grid_from_draws(&draws, 0).unwrap();
    assert!(live_cells(&none).is_empty());
}

#[test]
fn draws_must_be_square() {
    assert_eq!(grid_from_draws(&vec![], 5).err(), Some(GridError::InvalidDimension));
    assert_eq!(grid_from_draws(&vec![vec![1, 2]], 5).err(), Some(GridError::NotSquare));
}

#[test]
fn initialize_rejects_an_empty_board() {
    assert_eq!(SimulationState::initialize(0, 1 << 30).err(), Some(GridError::InvalidDimension));
}

#[test]
fn initialize_builds_a_board_of_the_requested_side() {
    let s = SimulationState::initialize(6, 1 << 30).unwrap();
    assert_eq!(s.current().len(), 6);
    assert_eq!(s.current().to_rows().len(), 6);
    let dead = SimulationState::initialize(4, 0).unwrap();
    assert!(live_cells(dead.current()).is_empty());
    let alive = SimulationState::initialize(4, 1u64 << 32).unwrap();
    assert_eq!(live_cells(alive.current()).len(), 16);
}

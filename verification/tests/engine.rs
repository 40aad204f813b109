use life_grid::grid::{cells_from_draws, Grid, GridError};

/// A dead grid of the given extents, built through the public API.
fn dead_grid(width: usize, height: usize) -> Grid {
    let mut g = Grid::create_grid(width, height).unwrap();
    g.clear_grid();
    g
}

fn set_alive(g: &mut Grid, row: usize, col: usize) {
    assert!(!g.is_alive(row, col));
    g.toggle(row, col).unwrap();
}

fn snapshot(g: &Grid) -> Vec<bool> {
    let mut cells = Vec::new();
    for row in 0..g.height() {
        for col in 0..g.width() {
            cells.push(g.is_alive(row, col));
        }
    }
    cells
}

#[test]
fn create_reports_requested_dimensions() {
    let g = Grid::create_grid(7, 5).unwrap();
    assert_eq!(g.width(), 7);
    assert_eq!(g.height(), 5);
}

#[test]
fn create_rejects_zero_width() {
    assert!(matches!(Grid::create_grid(0, 5), Err(GridError::InvalidDimension)));
}

#[test]
fn create_rejects_zero_height() {
    assert!(matches!(Grid::create_grid(5, 0), Err(GridError::InvalidDimension)));
}

#[test]
fn each_cell_is_the_parity_of_its_draw() {
    // A supplied draw sequence stands in for the random source: cell k is
    // alive exactly when draw k is odd, so the pattern is reproducible.
    let draws = vec![0, 1, 2, 3, u32::MAX, u32::MAX - 1, 7, 100, 101];
    let cells = cells_from_draws(&draws);
    assert_eq!(
        cells,
        vec![false, true, false, true, true, false, true, false, true]
    );
}

#[test]
fn clear_kills_every_cell() {
    let g = dead_grid(6, 4);
    for row in 0..4 {
        for col in 0..6 {
            assert!(!g.is_alive(row, col));
        }
    }
}

#[test]
fn cleared_grid_stays_dead_under_repeated_steps() {
    let mut g = dead_grid(5, 5);
    for _ in 0..10 {
        g.next_state();
    }
    for row in 0..5 {
        for col in 0..5 {
            assert!(!g.is_alive(row, col));
        }
    }
}

#[test]
fn toggle_is_visible_immediately() {
    let mut g = dead_grid(3, 3);
    g.toggle(1, 2).unwrap();
    assert!(g.is_alive(1, 2));
}

#[test]
fn toggle_twice_restores_the_cell() {
    let mut g = Grid::create_grid(3, 3).unwrap();
    let before = g.is_alive(2, 1);
    g.toggle(2, 1).unwrap();
    assert_eq!(g.is_alive(2, 1), !before);
    g.toggle(2, 1).unwrap();
    assert_eq!(g.is_alive(2, 1), before);
}

#[test]
fn toggle_outside_the_grid_is_rejected() {
    let mut g = dead_grid(3, 3);
    assert_eq!(g.toggle(3, 0), Err(GridError::OutOfBounds));
    assert_eq!(g.toggle(0, 3), Err(GridError::OutOfBounds));
    assert_eq!(g.toggle(9, 9), Err(GridError::OutOfBounds));
    assert_eq!(snapshot(&g), vec![false; 9]);
}

#[test]
fn isolated_cell_dies_of_underpopulation() {
    let mut g = dead_grid(5, 5);
    set_alive(&mut g, 2, 2);
    g.next_state();
    assert!(!g.is_alive(2, 2));
}

#[test]
fn surrounded_cell_dies_of_overpopulation() {
    let mut g = dead_grid(5, 5);
    for row in 1..4 {
        for col in 1..4 {
            set_alive(&mut g, row, col);
        }
    }
    g.next_state();
    assert!(!g.is_alive(2, 2));
}

#[test]
fn dead_cell_with_three_neighbors_is_born() {
    let mut g = dead_grid(5, 5);
    set_alive(&mut g, 1, 1);
    set_alive(&mut g, 1, 3);
    set_alive(&mut g, 3, 2);
    assert!(!g.is_alive(2, 2));
    g.next_state();
    assert!(g.is_alive(2, 2));
}

#[test]
fn blinker_oscillates_with_period_two() {
    let mut g = dead_grid(5, 5);
    set_alive(&mut g, 2, 1);
    set_alive(&mut g, 2, 2);
    set_alive(&mut g, 2, 3);
    let horizontal = snapshot(&g);
    g.next_state();
    // After one step the row of three stands upright.
    assert!(g.is_alive(1, 2));
    assert!(g.is_alive(2, 2));
    assert!(g.is_alive(3, 2));
    assert!(!g.is_alive(2, 1));
    assert!(!g.is_alive(2, 3));
    g.next_state();
    assert_eq!(snapshot(&g), horizontal);
}

#[test]
fn neighbors_wrap_around_every_edge() {
    // A row of three across the top edge: the cells above it live on the
    // bottom row, so the cell wrapped straight up from the center is born.
    let mut g = dead_grid(5, 5);
    set_alive(&mut g, 0, 1);
    set_alive(&mut g, 0, 2);
    set_alive(&mut g, 0, 3);
    g.next_state();
    assert!(g.is_alive(4, 2));
    assert!(g.is_alive(0, 2));
    assert!(g.is_alive(1, 2));

    // A column of three across the left edge: the blinker's arms wrap to
    // the last column.
    let mut g = dead_grid(5, 5);
    set_alive(&mut g, 1, 0);
    set_alive(&mut g, 2, 0);
    set_alive(&mut g, 3, 0);
    g.next_state();
    assert!(g.is_alive(2, 4));
    assert!(g.is_alive(2, 0));
    assert!(g.is_alive(2, 1));
}

#[test]
fn corner_cell_counts_its_wrapped_diagonal_neighbors() {
    // Three cells in the other corners are all toroidal neighbors of the
    // corner (0, 0) on a 3x3 board, so the dead corner is born.
    let mut g = dead_grid(3, 3);
    set_alive(&mut g, 0, 2);
    set_alive(&mut g, 2, 0);
    set_alive(&mut g, 2, 2);
    g.next_state();
    assert!(g.is_alive(0, 0));
}

#[test]
fn identical_states_step_identically() {
    let mut a = dead_grid(6, 6);
    let mut b = dead_grid(6, 6);
    for (row, col) in [(0, 0), (1, 2), (2, 2), (3, 2), (4, 5), (5, 1)] {
        set_alive(&mut a, row, col);
        set_alive(&mut b, row, col);
    }
    for _ in 0..4 {
        a.next_state();
        b.next_state();
        assert_eq!(snapshot(&a), snapshot(&b));
    }
}

#[test]
fn step_keeps_the_dimensions() {
    let mut g = Grid::create_grid(4, 7).unwrap();
    g.next_state();
    assert_eq!(g.width(), 4);
    assert_eq!(g.height(), 7);
    g.clear_grid();
    assert_eq!(g.width(), 4);
    assert_eq!(g.height(), 7);
    g.reset();
    assert_eq!(g.width(), 4);
    assert_eq!(g.height(), 7);
}

#[test]
fn alive_cells_lists_exactly_the_alive_positions_in_order() {
    let mut g = dead_grid(4, 3);
    set_alive(&mut g, 0, 3);
    set_alive(&mut g, 1, 0);
    set_alive(&mut g, 2, 2);
    assert_eq!(g.alive_cells(), vec![(0, 3), (1, 0), (2, 2)]);
}

#[test]
fn alive_cells_of_a_cleared_grid_is_empty() {
    let g = dead_grid(4, 4);
    assert_eq!(g.alive_cells(), Vec::<(usize, usize)>::new());
}

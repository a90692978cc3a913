//! Tests for the simulation engine: the transition rule, neighbor
//! counting, seeding, and generation advance.

use game_of_life::grid::{apply_rule, count_neighbors, glider_grid, next_generation, random_grid, Grid};

/// The five glider cells, relative to the anchor.
const GLIDER: [(usize, usize); 5] = [(1, 0), (2, 1), (0, 2), (1, 2), (2, 2)];

fn grid_from_cells(width: usize, height: usize, live: &[(usize, usize)]) -> Grid {
    let mut g = Grid::new(width, height);
    for &(x, y) in live {
        g.set(x, y, true);
    }
    g
}

fn assert_exact_live_cells(g: &Grid, live: &[(usize, usize)]) {
    for y in 0..g.height() {
        for x in 0..g.width() {
            let expected = live.iter().any(|&(lx, ly)| lx == x && ly == y);
            assert_eq!(g.get(x, y), expected, "cell ({}, {})", x, y);
        }
    }
}

#[test]
fn rule_table_all_combinations() {
    for n in 0..=8usize {
        assert_eq!(apply_rule(true, n), n == 2 || n == 3);
        assert_eq!(apply_rule(false, n), n == 3);
    }
}

#[test]
fn neighbor_count_interior_is_at_most_eight() {
    let mut g = Grid::new(5, 5);
    for y in 0..5 {
        for x in 0..5 {
            g.set(x, y, true);
        }
    }
    assert_eq!(count_neighbors(&g, 2, 2), 8);
    assert_eq!(count_neighbors(&g, 1, 2), 8);
}

#[test]
fn neighbor_count_corners_see_only_in_bounds_cells() {
    let mut g = Grid::new(5, 5);
    for y in 0..5 {
        for x in 0..5 {
            g.set(x, y, true);
        }
    }
    assert_eq!(count_neighbors(&g, 0, 0), 3);
    assert_eq!(count_neighbors(&g, 4, 0), 3);
    assert_eq!(count_neighbors(&g, 0, 4), 3);
    assert_eq!(count_neighbors(&g, 4, 4), 3);
    // edge (non-corner) cells see at most five neighbors
    assert_eq!(count_neighbors(&g, 2, 0), 5);
}

#[test]
fn neighbor_count_empty_grid_is_zero() {
    let g = Grid::new(3, 3);
    for y in 0..3 {
        for x in 0..3 {
            assert_eq!(count_neighbors(&g, x, y), 0);
        }
    }
}

#[test]
fn next_generation_preserves_dimensions() {
    let g = Grid::new(7, 4);
    let n = next_generation(&g);
    assert_eq!(n.width(), 7);
    assert_eq!(n.height(), 4);
}

#[test]
fn next_generation_is_pure_and_deterministic() {
    let live = [(4, 5), (5, 5), (6, 5), (2, 2)];
    let g = grid_from_cells(10, 10, &live);
    let a = next_generation(&g);
    let b = next_generation(&g);
    // the input grid is untouched
    assert_exact_live_cells(&g, &live);
    // the two results agree cell by cell
    for y in 0..10 {
        for x in 0..10 {
            assert_eq!(a.get(x, y), b.get(x, y));
        }
    }
}

#[test]
fn blinker_oscillates_with_period_two() {
    let g0 = grid_from_cells(10, 10, &[(4, 5), (5, 5), (6, 5)]);
    let g1 = next_generation(&g0);
    assert_exact_live_cells(&g1, &[(5, 4), (5, 5), (5, 6)]);
    let g2 = next_generation(&g1);
    assert_exact_live_cells(&g2, &[(4, 5), (5, 5), (6, 5)]);
}

#[test]
fn glider_translates_one_cell_diagonally_every_four_generations() {
    let mut g = glider_grid(12, 12, 2, 2);
    let expected0: Vec<(usize, usize)> = GLIDER.iter().map(|&(x, y)| (x + 2, y + 2)).collect();
    assert_exact_live_cells(&g, &expected0);
    for _ in 0..4 {
        g = next_generation(&g);
    }
    let expected4: Vec<(usize, usize)> = GLIDER.iter().map(|&(x, y)| (x + 3, y + 3)).collect();
    assert_exact_live_cells(&g, &expected4);
}

#[test]
fn random_grid_is_deterministic_for_a_seed() {
    let a = random_grid(8, 6, 42);
    let b = random_grid(8, 6, 42);
    assert_eq!(a.width(), 8);
    assert_eq!(a.height(), 6);
    for y in 0..6 {
        for x in 0..8 {
            assert_eq!(a.get(x, y), b.get(x, y));
        }
    }
}

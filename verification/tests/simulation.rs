use game_of_life::grid::{Grid, PROB_ONE};
use game_of_life::types::Point;

fn pts(coords: &[(usize, usize)]) -> Vec<Point> {
    coords.iter().map(|&(x, y)| Point { x, y }).collect()
}

fn deterministic_grid(width: usize, height: usize, max_iterations: usize) -> Grid {
    Grid::new(width, height, max_iterations, 0, PROB_ONE)
}

fn alive_coords(g: &Grid) -> Vec<(usize, usize)> {
    let mut out: Vec<(usize, usize)> = Vec::new();
    for idx in 0..g.cells.len() {
        if g.cells[idx].is_alive() {
            let pos = g.index_to_coords(idx);
            out.push((pos.x, pos.y));
        }
    }
    out.sort();
    out
}

#[test]
fn corner_neighbor_counting_wraps_both_ways() {
    let mut g = deterministic_grid(3, 3, 100);
    g.set_state(&pts(&[(2, 2)]));
    assert_eq!(g.num_alive_neighbors(Point { x: 0, y: 0 }), 1);

    let mut h = deterministic_grid(3, 3, 100);
    h.set_state(&pts(&[(0, 0)]));
    assert_eq!(h.num_alive_neighbors(Point { x: 2, y: 2 }), 1);
}

#[test]
fn full_ring_gives_eight_neighbors() {
    let mut g = deterministic_grid(3, 3, 100);
    g.set_state(&pts(&[
        (0, 0),
        (1, 0),
        (2, 0),
        (0, 1),
        (2, 1),
        (0, 2),
        (1, 2),
        (2, 2),
    ]));
    assert_eq!(g.num_alive_neighbors(Point { x: 1, y: 1 }), 8);
}

#[test]
fn set_state_twice_equals_once() {
    let coords = pts(&[(1, 1), (2, 3), (4, 0)]);
    let mut once = deterministic_grid(5, 5, 100);
    once.set_state(&coords);
    let mut twice = deterministic_grid(5, 5, 100);
    twice.set_state(&coords);
    twice.set_state(&coords);
    assert_eq!(alive_coords(&once), alive_coords(&twice));
    assert_eq!(once.cells, twice.cells);
}

#[test]
fn set_state_ignores_duplicates_and_resets() {
    let mut g = deterministic_grid(5, 5, 100);
    g.set_state(&pts(&[(0, 0), (3, 3)]));
    g.set_state(&pts(&[(1, 2), (1, 2), (1, 2)]));
    assert_eq!(alive_coords(&g), vec![(1, 2)]);
}

#[test]
fn blinker_oscillates_with_period_two() {
    let mut g = deterministic_grid(5, 5, 1000);
    let horizontal = vec![(1, 2), (2, 2), (3, 2)];
    let vertical = vec![(2, 1), (2, 2), (2, 3)];
    g.set_state(&pts(&horizontal));
    g.update();
    assert_eq!(alive_coords(&g), vertical);
    g.update();
    assert_eq!(alive_coords(&g), horizontal);
}

#[test]
fn block_is_a_still_life() {
    let mut g = deterministic_grid(5, 5, 1000);
    let block = vec![(1, 1), (1, 2), (2, 1), (2, 2)];
    g.set_state(&pts(&block));
    for _ in 0..10 {
        g.update();
        assert_eq!(alive_coords(&g), block);
    }
}

#[test]
fn glider_translates_by_one_one_after_four_updates() {
    let mut g = deterministic_grid(8, 8, 1000);
    let glider = vec![(1, 2), (3, 2), (2, 3), (3, 3), (2, 4)];
    g.set_state(&pts(&glider));
    for _ in 0..4 {
        g.update();
    }
    let mut translated: Vec<(usize, usize)> =
        glider.iter().map(|&(x, y)| ((x + 1) % 8, (y + 1) % 8)).collect();
    translated.sort();
    assert_eq!(alive_coords(&g), translated);
}

#[test]
fn update_increments_iteration() {
    let mut g = deterministic_grid(4, 4, 1000);
    for expected in 1..=5usize {
        g.update();
        assert_eq!(g.iteration, expected);
    }
}

#[test]
fn extreme_probabilities_make_draws_irrelevant() {
    let glider = pts(&[(1, 2), (3, 2), (2, 3), (3, 3), (2, 4)]);
    let mut a = deterministic_grid(8, 8, 1000);
    let mut b = deterministic_grid(8, 8, 1000);
    a.set_state(&glider);
    b.set_state(&glider);
    let zeros = vec![0u64; 64];
    let maxed = vec![u64::MAX; 64];
    a.update_with_draws(&zeros);
    b.update_with_draws(&maxed);
    assert_eq!(alive_coords(&a), alive_coords(&b));
}

#[test]
fn full_noise_revives_an_empty_grid() {
    let mut g = Grid::new(4, 4, 1000, PROB_ONE, PROB_ONE);
    g.update();
    assert_eq!(alive_coords(&g).len(), 16);
}

#[test]
fn zero_survival_kills_everything() {
    let mut g = Grid::new(5, 5, 1000, 0, 0);
    g.set_state(&pts(&[(1, 2), (2, 2), (3, 2)]));
    g.update();
    assert_eq!(alive_coords(&g).len(), 0);
}

#[test]
fn survival_threshold_compares_the_low_draw_bits() {
    // Center of a blinker: alive with 2 alive neighbors, so the
    // deterministic rule says alive and the survival threshold decides.
    let mut g = Grid::new(5, 5, 100, 0, 1000);
    g.set_state(&pts(&[(1, 2), (2, 2), (3, 2)]));
    let idx = g.coords_to_index(Point { x: 2, y: 2 });
    assert!(g.cell_next_state(idx, 999));
    assert!(!g.cell_next_state(idx, 1000));
    // Only the low 32 bits of the draw are the uniform sample.
    assert!(g.cell_next_state(idx, PROB_ONE + 999));
}

#[test]
fn noise_threshold_decides_for_dead_cells() {
    // A far-away dead cell: the deterministic rule says dead and the
    // noise threshold decides.
    let mut g = Grid::new(7, 7, 100, 1000, PROB_ONE);
    g.set_state(&pts(&[(1, 2), (2, 2), (3, 2)]));
    let idx = g.coords_to_index(Point { x: 5, y: 5 });
    assert!(g.cell_next_state(idx, 999));
    assert!(!g.cell_next_state(idx, 1000));
}

#[test]
fn sampling_counts_alive_cells_every_thirtieth_tick() {
    let mut g = deterministic_grid(5, 5, 100);
    let block = vec![(1, 1), (1, 2), (2, 1), (2, 2)];
    g.set_state(&pts(&block));
    for _ in 0..31 {
        g.update();
    }
    // Sampled on iterations 0 and 30.
    for idx in 0..g.cells.len() {
        let pos = g.index_to_coords(idx);
        let expected = if block.contains(&(pos.x, pos.y)) { 2 } else { 0 };
        assert_eq!(g.alive_sample_counts[idx], expected);
    }
}

#[test]
fn sampling_skips_the_finalization_tick() {
    let mut g = deterministic_grid(5, 5, 29);
    let block = vec![(1, 1), (1, 2), (2, 1), (2, 2)];
    g.set_state(&pts(&block));
    for _ in 0..31 {
        g.update();
    }
    // Iteration 0 was sampled; iteration 30 equals max_iterations + 1 and is skipped.
    for idx in 0..g.cells.len() {
        let pos = g.index_to_coords(idx);
        let expected = if block.contains(&(pos.x, pos.y)) { 1 } else { 0 };
        assert_eq!(g.alive_sample_counts[idx], expected);
    }
}

#[test]
fn finalization_tick_is_reported_once_reached() {
    let mut g = deterministic_grid(4, 4, 3);
    assert!(!g.is_finalization_tick());
    for _ in 0..4 {
        g.update();
        assert!(!g.is_finalization_tick() || g.iteration == 4);
    }
    assert!(g.is_finalization_tick());
    g.update();
    assert!(!g.is_finalization_tick());
}

#[test]
fn entropy_of_sampled_distribution_is_bounded() {
    let mut g = deterministic_grid(4, 4, 59);
    let block = vec![(1, 1), (1, 2), (2, 1), (2, 2)];
    g.set_state(&pts(&block));
    for _ in 0..61 {
        g.update();
    }
    // Sampled on iterations 0 and 30; iteration 60 is the finalization tick.
    let size = g.alive_sample_counts.len();
    let mut entropy: f64 = 0.0;
    for idx in 0..size {
        let p = g.alive_sample_counts[idx] as f64 / size as f64;
        if p != 0.0 {
            entropy -= p * p.log2();
        }
    }
    // Four cells each at probability 2/16, so H = -4 * (1/8) * log2(1/8) = 1.5.
    assert!((entropy - 1.5).abs() < 1e-9);
    assert!(entropy >= 0.0);
    assert!(entropy <= (size as f64).log2());
}

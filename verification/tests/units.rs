use game_of_life::cell::Cell;
use game_of_life::grid::{Grid, PROB_ONE};
use game_of_life::types::Point;

#[test]
fn cell_new_and_is_alive() {
    let alive = Cell::new(true);
    let dead = Cell::new(false);
    assert!(alive.is_alive());
    assert!(!dead.is_alive());
}

#[test]
fn cell_set_state_overwrites() {
    let mut c = Cell::new(false);
    c.set_state(true);
    assert!(c.is_alive());
    c.set_state(false);
    assert!(!c.is_alive());
}

#[test]
fn point_from_tuple() {
    let p = Point::from((3, 4));
    assert_eq!(p.x, 3);
    assert_eq!(p.y, 4);
    let q: Point = (0, 9).into();
    assert_eq!(q.x, 0);
    assert_eq!(q.y, 9);
}

#[test]
fn grid_new_starts_all_dead_with_zero_counters() {
    let g = Grid::new(4, 3, 100, 0, PROB_ONE);
    assert_eq!(g.cells.len(), 12);
    assert_eq!(g.alive_sample_counts.len(), 12);
    assert_eq!(g.iteration, 0);
    assert_eq!(g.max_iterations, 100);
    for c in g.cells.iter() {
        assert!(!c.is_alive());
    }
    for n in g.alive_sample_counts.iter() {
        assert_eq!(*n, 0);
    }
}

#[test]
fn coords_index_round_trip_over_whole_lattice() {
    let g = Grid::new(7, 5, 10, 0, PROB_ONE);
    for idx in 0..35usize {
        let pos = g.index_to_coords(idx);
        assert!(pos.x < 7 && pos.y < 5);
        assert_eq!(g.coords_to_index(pos), idx);
    }
    for x in 0..7usize {
        for y in 0..5usize {
            let idx = g.coords_to_index(Point { x, y });
            let pos = g.index_to_coords(idx);
            assert_eq!(pos.x, x);
            assert_eq!(pos.y, y);
        }
    }
}

#[test]
fn coords_to_index_is_row_major() {
    let g = Grid::new(6, 4, 10, 0, PROB_ONE);
    assert_eq!(g.coords_to_index(Point { x: 0, y: 0 }), 0);
    assert_eq!(g.coords_to_index(Point { x: 5, y: 0 }), 5);
    assert_eq!(g.coords_to_index(Point { x: 0, y: 1 }), 6);
    assert_eq!(g.coords_to_index(Point { x: 2, y: 3 }), 20);
}

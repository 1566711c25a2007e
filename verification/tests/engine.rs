//! The history engine and the transition rule on concrete grids.

use game_of_life::screen::Screen;
use game_of_life::simulation::Simulation;

/// A 3x3 grid with the vertical blinker column: alive at (1,0), (1,1), (1,2).
fn blinker_column() -> Screen {
    let mut g = Screen::new(3, 3);
    g.set(1, 0, true);
    g.set(1, 1, true);
    g.set(1, 2, true);
    g
}

fn assert_same_cells(a: &Screen, b: &Screen) {
    assert_eq!(a.width(), b.width());
    assert_eq!(a.height(), b.height());
    for y in 0..a.height() {
        for x in 0..a.width() {
            assert_eq!(a.at(x, y), b.at(x, y), "cells differ at ({x}, {y})");
        }
    }
}

#[test]
fn step_keeps_dimensions() {
    let g = Screen::new(7, 4);
    let s = g.step();
    assert_eq!(s.width(), 7);
    assert_eq!(s.height(), 4);
}

#[test]
fn step_is_deterministic() {
    let g = blinker_column();
    let a = g.step();
    let b = g.step();
    assert_same_cells(&a, &b);
}

#[test]
fn edge_cell_counts_only_in_bounds_neighbors() {
    let mut g = Screen::new(2, 2);
    g.set(0, 0, true);
    g.set(1, 0, true);
    g.set(0, 1, true);
    g.set(1, 1, true);
    // Each corner of a full 2x2 grid has exactly its three in-bounds neighbors.
    assert_eq!(g.neighbourhood_at(0, 0), 3);
    assert_eq!(g.neighbourhood_at(1, 0), 3);
    assert_eq!(g.neighbourhood_at(0, 1), 3);
    assert_eq!(g.neighbourhood_at(1, 1), 3);
}

#[test]
fn isolated_cell_dies() {
    let mut g = Screen::new(5, 5);
    g.set(0, 0, true);
    assert_eq!(g.neighbourhood_at(0, 0), 0);
    let s = g.step();
    for y in 0..5 {
        for x in 0..5 {
            assert!(!s.at(x, y));
        }
    }
}

#[test]
fn all_dead_stays_all_dead() {
    let g = Screen::new(3, 3);
    let s = g.step();
    for y in 0..3 {
        for x in 0..3 {
            assert!(!s.at(x, y));
        }
    }
}

#[test]
fn blinker_flips_to_row() {
    let g = blinker_column();
    let s = g.step();
    for y in 0..3 {
        for x in 0..3 {
            assert_eq!(s.at(x, y), y == 1, "wrong cell at ({x}, {y})");
        }
    }
}

#[test]
fn blinker_oscillates_with_period_two() {
    let g = blinker_column();
    let back = g.step().step();
    assert_same_cells(&back, &blinker_column());
}

#[test]
fn precompute_extends_frontier_and_keeps_cursor() {
    let mut sim = Simulation::from_initial_state(blinker_column());
    sim.step_forwards();
    assert_eq!(sim.current_generation(), 1);
    assert_eq!(sim.computed_generations(), 2);
    sim.precalculate_next_n(4);
    assert_eq!(sim.computed_generations(), 6);
    assert_eq!(sim.current_generation(), 1);
}

#[test]
fn precompute_zero_is_a_no_op() {
    let mut sim = Simulation::from_initial_state(blinker_column());
    sim.precalculate_next_n(0);
    assert_eq!(sim.computed_generations(), 1);
    assert_eq!(sim.current_generation(), 0);
}

#[test]
fn forward_then_backward_restores_current() {
    let mut sim = Simulation::from_initial_state(blinker_column());
    sim.step_forwards();
    sim.step_backwards();
    assert_eq!(sim.current_generation(), 0);
    assert_same_cells(sim.current_buffer(), &blinker_column());
}

#[test]
fn backward_at_zero_clamps() {
    let mut sim = Simulation::from_initial_state(blinker_column());
    sim.step_backwards();
    assert_eq!(sim.current_generation(), 0);
    sim.step_backwards();
    assert_eq!(sim.current_generation(), 0);
    assert_eq!(sim.computed_generations(), 1);
}

#[test]
fn backward_never_recomputes_past_generations() {
    let mut sim = Simulation::from_initial_state(blinker_column());
    sim.step_forwards();
    sim.step_forwards();
    sim.step_forwards();
    assert_eq!(sim.computed_generations(), 4);
    sim.step_backwards();
    sim.step_backwards();
    // Generation 1 is the horizontal blinker row, served from history.
    assert_eq!(sim.current_generation(), 1);
    assert_same_cells(sim.current_buffer(), &blinker_column().step());
    assert_eq!(sim.computed_generations(), 4);
}

#[test]
fn forward_inside_history_does_not_extend_it() {
    let mut sim = Simulation::from_initial_state(blinker_column());
    sim.precalculate_next_n(3);
    assert_eq!(sim.computed_generations(), 4);
    sim.step_forwards();
    assert_eq!(sim.current_generation(), 1);
    assert_eq!(sim.computed_generations(), 4);
}

#[test]
fn new_simulation_is_all_dead() {
    let sim = Simulation::new(4, 2);
    assert_eq!(sim.current_generation(), 0);
    assert_eq!(sim.computed_generations(), 1);
    let g = sim.current_buffer();
    for y in 0..2 {
        for x in 0..4 {
            assert!(!g.at(x, y));
        }
    }
}

#[test]
fn last_buffer_is_the_frontier() {
    let mut sim = Simulation::from_initial_state(blinker_column());
    sim.precalculate_next_n(1);
    // The frontier is one step ahead of the cursor's generation.
    assert_same_cells(sim.last_buffer(), &blinker_column().step());
    assert_same_cells(sim.current_buffer(), &blinker_column());
}

#[test]
fn with_dimensions_of_is_dead_copy_of_shape() {
    let g = blinker_column();
    let h = Screen::with_dimensions_of(&g);
    assert_eq!(h.width(), 3);
    assert_eq!(h.height(), 3);
    for y in 0..3 {
        for x in 0..3 {
            assert!(!h.at(x, y));
        }
    }
}

#[test]
fn at_mut_writes_one_cell() {
    let mut g = Screen::new(3, 3);
    *g.at_mut(2, 1) = true;
    assert!(g.at(2, 1));
    assert!(!g.at(1, 1));
    *g.at_mut(2, 1) = false;
    assert!(!g.at(2, 1));
}

#[test]
fn set_and_at_round_trip() {
    let mut g = Screen::new(2, 3);
    g.set(1, 2, true);
    assert!(g.at(1, 2));
    assert!(!g.at(0, 2));
    g.set(1, 2, false);
    assert!(!g.at(1, 2));
}

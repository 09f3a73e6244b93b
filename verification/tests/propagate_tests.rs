use doom_fire::grid::HeatGrid;
use doom_fire::propagate::calculate_fire;
use doom_fire::propagate::spread_cell;
use doom_fire::propagate::spread_fire;
use doom_fire::propagate::step_with_decays;

fn rows(g: &HeatGrid) -> Vec<Vec<u8>> {
    let (w, h) = g.dimensions();
    (0..h).map(|y| (0..w).map(|x| g.get(x, y).unwrap()).collect()).collect()
}

#[test]
fn deterministic_step_shifts_by_drift() {
    // A 4x3 grid whose bottom row is the fixed source, drift bias +1 and every
    // decay forced to 0: heat rises one row and shifts one column right, with
    // no cooling, the last column clamped at the edge.
    let mut g = HeatGrid::new(4, 3).unwrap();
    g.reseed_bottom_row();
    let decays = vec![0u8; 4 * 2];
    step_with_decays(&mut g, 1, &decays);
    let r = rows(&g);
    assert_eq!(r[0], vec![0, 0, 0, 0]);
    assert_eq!(r[1], vec![0, 36, 36, 36]);
    assert_eq!(r[2], vec![36, 36, 36, 36]);
}

#[test]
fn deterministic_step_with_odd_decay_cools_by_one() {
    // Decay 1 everywhere: destination shifts by drift - 1 and cools one level.
    let mut g = HeatGrid::new(4, 3).unwrap();
    g.reseed_bottom_row();
    let decays = vec![1u8; 4 * 2];
    step_with_decays(&mut g, 0, &decays);
    let r = rows(&g);
    assert_eq!(r[1], vec![35, 35, 35, 0]);
    assert_eq!(r[2], vec![36, 36, 36, 36]);
}

#[test]
fn spread_cell_cold_source_chills_cell_above() {
    let mut g = HeatGrid::new(3, 3).unwrap();
    g.set(1, 0, 5).unwrap();
    // Source (1, 1) is cold, so whatever the drift or decay, the cell directly
    // above it goes cold.
    spread_cell(&mut g, 1, 1, 7, 3);
    assert_eq!(g.get(1, 0), Ok(0));
}

#[test]
fn spread_cell_clamps_left_edge() {
    let mut g = HeatGrid::new(3, 2).unwrap();
    g.set(1, 1, 36).unwrap();
    // Raw destination column 1 - 2 = -1 clamps to 0; even decay, no cooling.
    spread_cell(&mut g, 1, 1, 0, 2);
    assert_eq!(g.get(0, 0), Ok(36));
}

#[test]
fn spread_cell_clamps_right_edge() {
    let mut g = HeatGrid::new(3, 2).unwrap();
    g.set(2, 1, 36).unwrap();
    // Raw destination column 2 + 5 = 7 clamps to the last column.
    spread_cell(&mut g, 2, 1, 5, 0);
    assert_eq!(g.get(2, 0), Ok(36));
}

#[test]
fn spread_cell_odd_decay_cools() {
    let mut g = HeatGrid::new(3, 2).unwrap();
    g.set(1, 1, 36).unwrap();
    spread_cell(&mut g, 1, 1, 0, 1);
    assert_eq!(g.get(0, 0), Ok(35));
}

#[test]
fn spread_fire_outcome_is_one_of_the_decay_outcomes() {
    // With the source mid-row at (5, 1) holding 36 and no drift, a decay in
    // 0..=3 lands the write in one of columns 2..=5 of the row above, cooled
    // by one exactly when the decay is odd; no clamping can occur here, so a
    // draw outside 0..=3 would land outside that window.
    for _ in 0..50 {
        let mut g = HeatGrid::new(10, 2).unwrap();
        g.set(5, 1, 36).unwrap();
        spread_fire(&mut g, 5, 1, 0);
        let top: Vec<u8> = (0..10).map(|x| g.get(x, 0).unwrap()).collect();
        let hot: Vec<usize> = (0..10).filter(|&x| top[x] != 0).collect();
        assert_eq!(hot.len(), 1, "exactly one cell receives the spread: {:?}", top);
        let col = hot[0];
        assert!((2..=5).contains(&col), "unexpected destination column: {:?}", top);
        assert!(top[col] == 35 || top[col] == 36, "unexpected intensity: {:?}", top);
    }
}

#[test]
fn all_zero_grid_stays_all_zero() {
    // No reseeding: a fully cold grid generates no spontaneous heat, whatever
    // the drift and however many steps run.
    let mut g = HeatGrid::new(8, 6).unwrap();
    for step in 0..10 {
        let drift = (step % 5) - 2;
        calculate_fire(&mut g, drift);
        assert!(g.cells.iter().all(|&v| v == 0));
    }
}

#[test]
fn cold_row_keeps_row_above_cold() {
    // Row 2 is entirely cold, so after one step row 1 is entirely cold, no
    // matter what the random decays did elsewhere.
    let mut g = HeatGrid::new(5, 4).unwrap();
    g.reseed_bottom_row();
    g.set(0, 1, 12).unwrap();
    g.set(3, 1, 30).unwrap();
    calculate_fire(&mut g, 1);
    for x in 0..5 {
        assert_eq!(g.get(x, 1), Ok(0));
    }
}

#[test]
fn intensities_stay_in_range_across_many_steps() {
    let mut g = HeatGrid::new(16, 12).unwrap();
    g.reseed_bottom_row();
    for step in 0..50 {
        let drift = (step % 7) - 3;
        calculate_fire(&mut g, drift);
        assert!(g.cells.iter().all(|&v| v <= 36));
    }
    // The bottom source row is never touched by propagation.
    for x in 0..16 {
        assert_eq!(g.get(x, 11), Ok(36));
    }
}

#[test]
fn single_row_grid_step_is_a_no_op() {
    let mut g = HeatGrid::new(4, 1).unwrap();
    g.reseed_bottom_row();
    calculate_fire(&mut g, 1);
    for x in 0..4 {
        assert_eq!(g.get(x, 0), Ok(36));
    }
}

#[test]
fn large_negative_drift_pins_heat_to_left_column() {
    let mut g = HeatGrid::new(4, 2).unwrap();
    g.reseed_bottom_row();
    let decays = vec![0u8; 4];
    step_with_decays(&mut g, -100, &decays);
    let r = rows(&g);
    assert_eq!(r[0], vec![36, 0, 0, 0]);
}

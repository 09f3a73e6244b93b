use doom_fire::error::FireError;
use doom_fire::grid::HeatGrid;

#[test]
fn new_rejects_zero_width() {
    let r = HeatGrid::new(0, 5);
    assert!(matches!(r, Err(FireError::InvalidDimensions)));
}

#[test]
fn new_rejects_zero_height() {
    let r = HeatGrid::new(5, 0);
    assert!(matches!(r, Err(FireError::InvalidDimensions)));
}

#[test]
fn new_starts_all_cold() {
    let g = HeatGrid::new(4, 3).unwrap();
    assert_eq!(g.dimensions(), (4, 3));
    assert_eq!(g.cells.len(), 12);
    assert!(g.cells.iter().all(|&v| v == 0));
}

#[test]
fn get_and_set_roundtrip() {
    let mut g = HeatGrid::new(4, 3).unwrap();
    assert_eq!(g.set(2, 1, 17), Ok(()));
    assert_eq!(g.get(2, 1), Ok(17));
    assert_eq!(g.get(0, 0), Ok(0));
}

#[test]
fn get_out_of_range() {
    let g = HeatGrid::new(4, 3).unwrap();
    assert_eq!(g.get(4, 0), Err(FireError::OutOfRange));
    assert_eq!(g.get(0, 3), Err(FireError::OutOfRange));
}

#[test]
fn set_out_of_range_coordinate() {
    let mut g = HeatGrid::new(4, 3).unwrap();
    assert_eq!(g.set(4, 0, 1), Err(FireError::OutOfRange));
    assert_eq!(g.set(0, 3, 1), Err(FireError::OutOfRange));
}

#[test]
fn set_out_of_range_intensity() {
    let mut g = HeatGrid::new(4, 3).unwrap();
    assert_eq!(g.set(0, 0, 37), Err(FireError::OutOfRange));
    assert_eq!(g.get(0, 0), Ok(0));
}

#[test]
fn reseed_bottom_row_sets_max_everywhere_in_row() {
    let mut g = HeatGrid::new(4, 3).unwrap();
    g.set(1, 1, 9).unwrap();
    g.reseed_bottom_row();
    for x in 0..4 {
        assert_eq!(g.get(x, 2), Ok(36));
    }
    // The rows above the source row are untouched.
    assert_eq!(g.get(1, 1), Ok(9));
    assert_eq!(g.get(0, 0), Ok(0));
}

#[test]
fn reseed_is_idempotent() {
    let mut g = HeatGrid::new(3, 2).unwrap();
    g.reseed_bottom_row();
    g.reseed_bottom_row();
    for x in 0..3 {
        assert_eq!(g.get(x, 1), Ok(36));
    }
}

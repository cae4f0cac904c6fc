use simplecv::canny::{binarize, clip_pixel, edge_nms, quantize_directions};
use simplecv::grid::Grid;
use simplecv::hysteresis::max_min_suppression;

fn grid(rows: &[&[i64]]) -> Grid<i64> {
    let width = if rows.is_empty() { 0 } else { rows[0].len() };
    Grid::from_rows(width, rows.iter().map(|r| r.to_vec()).collect()).unwrap()
}

fn codes(rows: &[&[i32]]) -> Grid<i32> {
    let width = if rows.is_empty() { 0 } else { rows[0].len() };
    Grid::from_rows(width, rows.iter().map(|r| r.to_vec()).collect()).unwrap()
}

#[test]
fn clip_keeps_unit_interval() {
    assert_eq!(clip_pixel(-4i64), 0);
    assert_eq!(clip_pixel(0i64), 0);
    assert_eq!(clip_pixel(1i64), 1);
    assert_eq!(clip_pixel(7i64), 1);
}

#[test]
fn directions_by_tangent_band() {
    let tan = grid(&[&[-5, -2, -1, 0, 1, 2, 5]]);
    let dir = quantize_directions(&tan, 1, 3);
    assert_eq!(dir.into_rows(), vec![vec![0, 1, 2, 2, 2, 3, 0]]);
}

#[test]
fn directions_band_edges() {
    let tan = grid(&[&[-4, -3, -2, 2, 3, 4]]);
    let dir = quantize_directions(&tan, 1, 3);
    assert_eq!(dir.into_rows(), vec![vec![0, 1, 1, 3, 3, 0]]);
}

#[test]
fn nms_thins_a_ridge_across_the_columns() {
    let mut g = grid(&[&[0, 1, 2, 1, 0], &[0, 1, 2, 1, 0], &[0, 1, 2, 1, 0]]);
    let dir = codes(&[&[2, 2, 2, 2, 2], &[2, 2, 2, 2, 2], &[2, 2, 2, 2, 2]]);
    edge_nms(&dir, &mut g);
    assert_eq!(g.into_rows(), vec![vec![0, 0, 1, 0, 0], vec![0, 0, 1, 0, 0], vec![0, 0, 1, 0, 0]]);
}

#[test]
fn nms_twice_equals_once_on_a_ridge() {
    let dir = codes(&[&[0, 0, 0, 0], &[2, 2, 2, 2], &[1, 1, 3, 3], &[0, 0, 0, 0]]);
    let start = &[&[0, 1, 0, 0][..], &[1, 1, 1, 0], &[0, 1, 1, 1], &[0, 0, 1, 0]];
    let mut once = grid(start);
    edge_nms(&dir, &mut once);
    let once = once.into_rows();
    let mut twice = grid(start);
    edge_nms(&dir, &mut twice);
    edge_nms(&dir, &mut twice);
    assert_eq!(twice.into_rows(), once);
}

#[test]
fn nms_diagonal_code_keeps_border_cells() {
    let mut g = grid(&[&[1, 1, 1], &[1, 0, 1], &[1, 1, 1]]);
    let dir = codes(&[&[1, 1, 1], &[1, 1, 1], &[1, 1, 1]]);
    edge_nms(&dir, &mut g);
    assert_eq!(g.into_rows(), vec![vec![1, 1, 1], vec![1, 0, 1], vec![1, 1, 1]]);
}

#[test]
fn nms_other_codes_clear_border_cells() {
    let mut g = grid(&[&[1, 1, 1], &[1, 1, 1], &[1, 1, 1]]);
    let dir = codes(&[&[0, 3, 2], &[0, 3, 2], &[0, 3, 2]]);
    edge_nms(&dir, &mut g);
    assert_eq!(g.into_rows(), vec![vec![0, 0, 0], vec![0, 0, 0], vec![0, 0, 0]]);
}

#[test]
fn nms_anti_diagonal_neighbours() {
    let mut g = grid(&[&[0, 0, 0], &[0, 1, 0], &[0, 0, 0]]);
    let dir = codes(&[&[2, 2, 2], &[2, 3, 2], &[2, 2, 2]]);
    edge_nms(&dir, &mut g);
    assert_eq!(g.into_rows(), vec![vec![0, 0, 0], vec![0, 1, 0], vec![0, 0, 0]]);
}

#[test]
fn hysteresis_spreads_up_and_left_only() {
    // The fill steps only to the left, upper and upper-left neighbours, so the
    // weak cells right of and below the seed are dropped although they touch it.
    let mut g = grid(&[&[2, 0, 0, 0], &[0, 3, 3, 0], &[0, 3, 9, 2], &[0, 0, 2, 0]]);
    max_min_suppression(5, 2, &mut g);
    assert_eq!(
        g.into_rows(),
        vec![vec![2, 0, 0, 0], vec![0, 3, 3, 0], vec![0, 3, 9, 0], vec![0, 0, 0, 0]]
    );
}

#[test]
fn hysteresis_drops_weak_cells_without_a_seed() {
    let mut g = grid(&[&[3, 3], &[3, 4]]);
    max_min_suppression(5, 2, &mut g);
    assert_eq!(g.into_rows(), vec![vec![0, 0], vec![0, 0]]);
}

#[test]
fn hysteresis_lower_low_keeps_at_least_as_many() {
    let start = &[&[2, 1, 4, 0][..], &[1, 3, 1, 2], &[0, 2, 8, 1], &[5, 1, 1, 6]];
    let mut counts = Vec::new();
    for low in [4i64, 3, 2, 1, 0] {
        let mut g = grid(start);
        max_min_suppression(5, low, &mut g);
        let kept = g.into_rows().iter().flatten().filter(|v| **v != 0).count();
        counts.push(kept);
    }
    for k in 1..counts.len() {
        assert!(counts[k] >= counts[k - 1]);
    }
    assert!(counts[counts.len() - 1] > counts[0]);
}

#[test]
fn binarize_sets_nonzero_cells_to_one() {
    let mut g = grid(&[&[0, 3, -2], &[1, 0, 9]]);
    binarize(&mut g);
    assert_eq!(g.into_rows(), vec![vec![0, 1, 1], vec![1, 0, 1]]);
}

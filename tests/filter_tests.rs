use simplecv::canny::estimate_thresholds;
use simplecv::border::{access_img_border, border_interpolate, BorderType};
use simplecv::filter::{filter, filter_, sobel, FilterError};
use simplecv::grid::Grid;
use simplecv::sample::Sample;

#[derive(Clone, Copy, Debug, PartialEq)]
struct F(f64);

// Every operation is given twice: once for what the library states of it, once
// for what it runs.
impl Sample for F {
    fn spec_zero() -> F {
        F(0.0)
    }
    fn spec_one() -> F {
        F(1.0)
    }
    fn spec_from_i8(v: i8) -> F {
        F(v as f64)
    }
    fn spec_add(a: F, b: F) -> F {
        F(a.0 + b.0)
    }
    fn spec_mul(a: F, b: F) -> F {
        F(a.0 * b.0)
    }
    fn spec_neg(a: F) -> F {
        F(-a.0)
    }
    fn spec_lt(a: F, b: F) -> bool {
        a.0 < b.0
    }
    fn spec_le(a: F, b: F) -> bool {
        a.0 <= b.0
    }
    fn zero() -> F {
        F(0.0)
    }
    fn one() -> F {
        F(1.0)
    }
    fn from_i8(v: i8) -> F {
        F(v as f64)
    }
    fn add(a: F, b: F) -> F {
        F(a.0 + b.0)
    }
    fn mul(a: F, b: F) -> F {
        F(a.0 * b.0)
    }
    fn neg(a: F) -> F {
        F(-a.0)
    }
    fn lt(a: F, b: F) -> bool {
        a.0 < b.0
    }
    fn le(a: F, b: F) -> bool {
        a.0 <= b.0
    }
}

fn grid(rows: &[&[i64]]) -> Grid<i64> {
    let width = if rows.is_empty() { 0 } else { rows[0].len() };
    Grid::from_rows(width, rows.iter().map(|r| r.to_vec()).collect()).unwrap()
}

fn cells(g: Grid<i64>) -> Vec<Vec<i64>> {
    g.into_rows()
}

#[test]
fn reflect_two_before_start() {
    assert_eq!(border_interpolate(-2, 10, BorderType::<i64>::Reflect), Some(2));
}

#[test]
fn reflect_is_symmetric_about_zero() {
    for len in 2..20usize {
        assert_eq!(
            border_interpolate(-1, len, BorderType::<i64>::Reflect),
            border_interpolate(1, len, BorderType::<i64>::Reflect)
        );
    }
}

#[test]
fn reflect_is_periodic_beyond_one_length() {
    assert_eq!(border_interpolate(-13, 10, BorderType::<i64>::Reflect), Some(3));
    assert_eq!(border_interpolate(12, 10, BorderType::<i64>::Reflect), Some(2));
}

#[test]
fn replicate_clamps_to_edges() {
    assert_eq!(border_interpolate(-3, 10, BorderType::<i64>::Replicate), Some(0));
    assert_eq!(border_interpolate(12, 10, BorderType::<i64>::Replicate), Some(9));
}

#[test]
fn constant_gives_no_index() {
    assert_eq!(border_interpolate(-1, 10, BorderType::Constant(7i64)), None);
}

#[test]
fn access_resolves_only_the_outside_axis() {
    let g = grid(&[&[1, 2, 3], &[4, 5, 6]]);
    assert_eq!(access_img_border(&g, -1, 1, BorderType::Replicate), 2);
    assert_eq!(access_img_border(&g, 1, 5, BorderType::Replicate), 6);
    assert_eq!(access_img_border(&g, -1, -1, BorderType::Reflect), 5);
    assert_eq!(access_img_border(&g, 2, 0, BorderType::Constant(9)), 9);
    assert_eq!(access_img_border(&g, 1, 2, BorderType::Constant(9)), 6);
}

#[test]
fn filter_block_with_binomial_kernel() {
    let a = grid(&[
        &[0, 0, 0, 0, 0],
        &[0, 1, 1, 1, 0],
        &[0, 1, 1, 1, 0],
        &[0, 1, 1, 1, 0],
        &[0, 0, 0, 0, 0],
    ]);
    let kernel = grid(&[&[1, 2, 1], &[2, 4, 2], &[1, 2, 1]]);
    let out = filter(&a, &kernel, BorderType::Constant(0));
    assert_eq!(
        cells(out),
        vec![
            vec![1, 3, 4, 3, 1],
            vec![3, 9, 12, 9, 3],
            vec![4, 12, 16, 12, 4],
            vec![3, 9, 12, 9, 3],
            vec![1, 3, 4, 3, 1],
        ]
    );
}

#[test]
fn filter_identity_kernel_keeps_input() {
    let a = grid(&[&[3, -1, 4], &[1, 5, -9], &[2, 6, 5]]);
    let kernel = grid(&[&[1]]);
    let out = filter(&a, &kernel, BorderType::Reflect);
    assert_eq!(cells(out), vec![vec![3, -1, 4], vec![1, 5, -9], vec![2, 6, 5]]);
}

#[test]
fn filter_is_linear_in_the_input() {
    let a = grid(&[&[1, 2, 3], &[4, 5, 6], &[7, 8, 9]]);
    let b = grid(&[&[9, -3, 0], &[2, 2, 2], &[-5, 1, 4]]);
    let sum = grid(&[&[10, -1, 3], &[6, 7, 8], &[2, 9, 13]]);
    let kernel = grid(&[&[0, 1, 0], &[1, -4, 1], &[0, 1, 0]]);
    for border in [BorderType::Constant(0), BorderType::Reflect, BorderType::Replicate] {
        let fa = cells(filter(&a, &kernel, border));
        let fb = cells(filter(&b, &kernel, border));
        let fs = cells(filter(&sum, &kernel, border));
        for i in 0..3 {
            for j in 0..3 {
                assert_eq!(fs[i][j], fa[i][j] + fb[i][j]);
            }
        }
    }
}

#[test]
fn filter_reflect_border_value() {
    // The cell left of column 0 in row 0 reads column 1.
    let a = grid(&[&[1, 2, 3]]);
    let kernel = grid(&[&[1, 0, 0]]);
    let out = filter(&a, &kernel, BorderType::Reflect);
    assert_eq!(cells(out), vec![vec![2, 1, 2]]);
}

#[test]
fn filter_rejects_mismatched_output() {
    let a = grid(&[&[1, 2], &[3, 4]]);
    let kernel = grid(&[&[1]]);
    let mut out = grid(&[&[7, 7, 7], &[7, 7, 7]]);
    assert_eq!(filter_(&a, &kernel, BorderType::Reflect, &mut out), Err(FilterError::ShapeMismatch));
    assert_eq!(cells(out), vec![vec![7, 7, 7], vec![7, 7, 7]]);
}

#[test]
fn filter_into_buffer() {
    let a = grid(&[&[1, 2], &[3, 4]]);
    let kernel = grid(&[&[2]]);
    let mut out = grid(&[&[0, 0], &[0, 0]]);
    assert_eq!(filter_(&a, &kernel, BorderType::Reflect, &mut out), Ok(()));
    assert_eq!(cells(out), vec![vec![2, 4], vec![6, 8]]);
}

#[test]
fn mean_kernel_on_single_impulse() {
    let a = Grid::from_rows(
        3,
        vec![
            vec![F(0.0), F(0.0), F(0.0)],
            vec![F(0.0), F(1.0), F(0.0)],
            vec![F(0.0), F(0.0), F(0.0)],
        ],
    )
    .unwrap();
    let kernel = Grid::new(3, 3, F(1.0 / 9.0));
    let out = filter(&a, &kernel, BorderType::Constant(F(0.0)));
    for row in out.into_rows() {
        for v in row {
            assert!((v.0 - 1.0 / 9.0).abs() < 1e-4);
        }
    }
}

#[test]
fn sobel_of_ramp_down_the_rows() {
    let a = grid(&[&[0, 0, 0], &[1, 1, 1], &[2, 2, 2]]);
    let gx = sobel(&a, 3, 1, 0, BorderType::Replicate).unwrap();
    assert_eq!(cells(gx), vec![vec![0, 0, 0], vec![0, 0, 0], vec![0, 0, 0]]);
    let gy = sobel(&a, 3, 0, 1, BorderType::Replicate).unwrap();
    assert_eq!(cells(gy), vec![vec![4, 4, 4], vec![8, 8, 8], vec![4, 4, 4]]);
}

#[test]
fn sobel_of_ramp_along_the_columns() {
    let a = grid(&[&[0, 1, 3], &[0, 1, 3], &[0, 1, 3]]);
    let gx = sobel(&a, 3, 1, 0, BorderType::Constant(0)).unwrap();
    assert_eq!(cells(gx), vec![vec![3, 9, -3], vec![4, 12, -4], vec![3, 9, -3]]);
}

#[test]
fn sobel_rejects_unsupported_parameters() {
    let a = grid(&[&[0, 0], &[0, 0]]);
    assert_eq!(sobel(&a, 5, 1, 0, BorderType::Reflect).err(), Some(FilterError::UnsupportedKernelSize));
    assert_eq!(sobel(&a, 3, 1, 1, BorderType::Reflect).err(), Some(FilterError::UnsupportedDerivative));
    assert_eq!(sobel(&a, 3, 0, 0, BorderType::Reflect).err(), Some(FilterError::UnsupportedDerivative));
    assert_eq!(sobel(&a, 3, 2, 0, BorderType::Reflect).err(), Some(FilterError::UnsupportedDerivative));
}

fn quarters() -> Vec<F> {
    vec![F(0.25), F(0.25), F(0.25), F(0.25)]
}

#[test]
fn thresholds_from_both_ends_of_histogram() {
    let (low, high) = estimate_thresholds(&quarters(), F(0.5), F(0.25), F(0.25));
    assert_eq!((low, high), (F(0.25), F(0.5)));
}

#[test]
fn thresholds_swap_when_low_exceeds_high() {
    let (low, high) = estimate_thresholds(&quarters(), F(0.75), F(0.75), F(0.25));
    assert_eq!((low, high), (F(0.25), F(0.75)));
}

#[test]
fn thresholds_stop_after_all_but_one_bin() {
    let (low, high) = estimate_thresholds(&quarters(), F(2.0), F(0.0), F(0.25));
    assert_eq!((low, high), (F(0.25), F(0.25)));
}

#[test]
fn rows_round_trip_through_grid() {
    let g = grid(&[&[1, 2], &[3, 4], &[5, 6]]);
    assert_eq!(g.height(), 3);
    assert_eq!(g.width(), 2);
    assert_eq!(*g.get(2, 1), 6);
    assert_eq!(g.to_rows(), vec![vec![1, 2], vec![3, 4], vec![5, 6]]);
    assert!(Grid::from_rows(2, vec![vec![1i64, 2], vec![3]]).is_none());
}

#[test]
fn grid_set_changes_one_cell() {
    let mut g = Grid::new(2, 3, 0i64);
    g.set(1, 2, 5);
    assert_eq!(g.into_rows(), vec![vec![0, 0, 0], vec![0, 0, 5]]);
}

#[test]
fn sobel_into_mismatched_buffer_fails() {
    let a = grid(&[&[1, 2], &[3, 4]]);
    let mut out = grid(&[&[0, 0]]);
    assert_eq!(simplecv::filter::sobel_(&a, 3, 1, 0, BorderType::Reflect, &mut out), Err(FilterError::ShapeMismatch));
    assert_eq!(cells(out), vec![vec![0, 0]]);
}

#[test]
fn float_nms_clips_survivors_to_one() {
    let mut g = Grid::from_rows(3, vec![vec![F(0.5), F(2.5), F(0.25)]]).unwrap();
    let dir = Grid::from_rows(3, vec![vec![1, 1, 1]]).unwrap();
    simplecv::canny::edge_nms(&dir, &mut g);
    assert_eq!(g.into_rows(), vec![vec![F(0.5), F(1.0), F(0.25)]]);
}

#[test]
fn float_directions_use_tangent_bands() {
    let tan = Grid::from_rows(5, vec![vec![F(-3.0), F(-1.0), F(0.1), F(0.414213562373095), F(1.0)]]).unwrap();
    let dir = simplecv::canny::quantize_directions(&tan, F(0.414213562373095), F(2.414213562373095));
    assert_eq!(dir.into_rows(), vec![vec![0, 1, 2, 2, 3]]);
}

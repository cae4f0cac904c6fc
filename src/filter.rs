//! Linear filtering: border-aware 2D convolution and the Sobel operator.
use vstd::prelude::*;
use crate::border::{BorderType, sample_at, access_img_border, lemma_interpolated_in_range};
use crate::grid::{Grid, has_shape};
use crate::sample::{Sample, lemma_mul_add_distributes};

verus! {

/// Why a filter refused its arguments.
#[derive(Debug, Clone, Copy, PartialEq, Eq, Structural)]
pub enum FilterError {
    /// The output grid does not have the shape of the input grid.
    ShapeMismatch,
    /// The requested kernel size is not supported.
    UnsupportedKernelSize,
    /// The requested derivative orders are not supported.
    UnsupportedDerivative,
}

/// The running sum of an output cell `(i, j)` once every kernel tap before
/// `(ki, kj)` in row-major order has been added: each tap contributes
/// `sample * weight`, where the sample is read at the tap's offset from the
/// kernel center.
pub open spec fn conv_acc<T: Sample>(
    src: Seq<Seq<T>>,
    w: int,
    kernel: Seq<Seq<T>>,
    kw: int,
    border: BorderType<T>,
    i: int,
    j: int,
    ki: nat,
    kj: nat,
) -> T
    decreases ki, kj,
{
    if kj > 0 {
        let c = (kj - 1) as nat;
        T::spec_add(
            conv_acc(src, w, kernel, kw, border, i, j, ki, c),
            T::spec_mul(
                sample_at(src, w, i + ki - kernel.len() / 2, j + c - kw / 2, border),
                kernel[ki as int][c as int],
            ),
        )
    } else if ki > 0 {
        conv_acc(src, w, kernel, kw, border, i, j, (ki - 1) as nat, kw as nat)
    } else {
        T::spec_zero()
    }
}

/// The filter response at cell `(i, j)`: the sum over all kernel taps.
pub open spec fn conv_cell<T: Sample>(
    src: Seq<Seq<T>>,
    w: int,
    kernel: Seq<Seq<T>>,
    kw: int,
    border: BorderType<T>,
    i: int,
    j: int,
) -> T {
    conv_acc(src, w, kernel, kw, border, i, j, kernel.len(), 0)
}

/// The grid of filter responses of the `src.len() x w` grid `src` under the
/// kernel `kernel` with `kw` columns.
pub open spec fn filtered<T: Sample>(
    src: Seq<Seq<T>>,
    w: int,
    kernel: Seq<Seq<T>>,
    kw: int,
    border: BorderType<T>,
) -> Seq<Seq<T>> {
    Seq::new(src.len(), |i: int| Seq::new(w as nat, |j: int| conv_cell(src, w, kernel, kw, border, i, j)))
}

/// The filter response at one cell.
fn filter_cell<T: Sample>(src: &Grid<T>, kernel: &Grid<T>, border: BorderType<T>, i: usize, j: usize) -> (r: T)
    requires
        src.wf(),
        kernel.wf(),
        src@.len() + kernel@.len() <= i32::MAX,
        src.cols() + kernel.cols() <= i32::MAX,
        i < src@.len(),
        j < src.cols(),
    ensures
        r == conv_cell(src@, src.cols() as int, kernel@, kernel.cols() as int, border, i as int, j as int),
{
    let kh = kernel.height();
    let kw = kernel.width();
    let kcx = (kh / 2) as i32;
    let kcy = (kw / 2) as i32;
    let ghost w = src.cols() as int;
    let mut val = T::zero();
    let mut ki: usize = 0;
    while ki < kh
        invariant
            ki <= kh,
            kh == kernel@.len(),
            kw == kernel.cols(),
            kernel.wf(),
            src.wf(),
            src@.len() + kernel@.len() <= i32::MAX,
            src.cols() + kernel.cols() <= i32::MAX,
            i < src@.len(),
            j < src.cols(),
            kcx == kh / 2,
            kcy == kw / 2,
            w == src.cols(),
            val == conv_acc(src@, w, kernel@, kw as int, border, i as int, j as int, ki as nat, 0),
        decreases kh - ki,
    {
        let mut kj: usize = 0;
        while kj < kw
            invariant
                ki < kh,
                kj <= kw,
                kh == kernel@.len(),
                kw == kernel.cols(),
                kernel.wf(),
                src.wf(),
                src@.len() + kernel@.len() <= i32::MAX,
                src.cols() + kernel.cols() <= i32::MAX,
                i < src@.len(),
                j < src.cols(),
                kcx == kh / 2,
                kcy == kw / 2,
                w == src.cols(),
                val == conv_acc(src@, w, kernel@, kw as int, border, i as int, j as int, ki as nat, kj as nat),
            decreases kw - kj,
        {
            let sx = i as i32 + ki as i32 - kcx;
            let sy = j as i32 + kj as i32 - kcy;
            let s = access_img_border(src, sx, sy, border);
            assert(sx as int == i + ki - kernel@.len() / 2);
            assert(sy as int == j + kj - kw / 2);
            val = T::add(val, T::mul(s, *kernel.get(ki, kj)));
            assert(val == conv_acc(src@, w, kernel@, kw as int, border, i as int, j as int, ki as nat, (kj + 1) as nat));
            kj = kj + 1;
        }
        assert(conv_acc(src@, w, kernel@, kw as int, border, i as int, j as int, (ki + 1) as nat, 0)
            == conv_acc(src@, w, kernel@, kw as int, border, i as int, j as int, ki as nat, kw as nat));
        ki = ki + 1;
    }
    val
}

/// Applies the linear filter `kernel` to `src`, writing the response of every
/// cell into `out`; the border policy `border` supplies values outside `src`.
///
/// No normalisation is applied. Fails, leaving `out` as it was, when `out` does
/// not have the shape of `src`.
pub fn filter_<T: Sample>(src: &Grid<T>, kernel: &Grid<T>, border: BorderType<T>, out: &mut Grid<T>) -> (r: Result<(), FilterError>)
    requires
        src.wf(),
        kernel.wf(),
        old(out).wf(),
        src@.len() + kernel@.len() <= i32::MAX,
        src.cols() + kernel.cols() <= i32::MAX,
    ensures
        r is Ok <==> old(out).same_shape(src),
        r is Ok ==> final(out)@ == filtered(src@, src.cols() as int, kernel@, kernel.cols() as int, border),
        r is Err ==> r == Err::<(), FilterError>(FilterError::ShapeMismatch) && *final(out) == *old(out),
        final(out).wf(),
        final(out).cols() == old(out).cols(),
{
    let h = src.height();
    let w = src.width();
    if out.height() != h || out.width() != w {
        return Err(FilterError::ShapeMismatch);
    }
    let ghost goal = filtered(src@, w as int, kernel@, kernel.cols() as int, border);
    let mut i: usize = 0;
    while i < h
        invariant
            i <= h,
            h == src@.len(),
            w == src.cols(),
            src.wf(),
            kernel.wf(),
            out.wf(),
            out@.len() == h,
            out.cols() == w,
            src@.len() + kernel@.len() <= i32::MAX,
            src.cols() + kernel.cols() <= i32::MAX,
            goal == filtered(src@, w as int, kernel@, kernel.cols() as int, border),
            forall|a: int, b: int| 0 <= a < i && 0 <= b < w ==> #[trigger] out@[a][b] == goal[a][b],
        decreases h - i,
    {
        let mut j: usize = 0;
        while j < w
            invariant
                i < h,
                j <= w,
                h == src@.len(),
                w == src.cols(),
                src.wf(),
                kernel.wf(),
                out.wf(),
                out@.len() == h,
                out.cols() == w,
                src@.len() + kernel@.len() <= i32::MAX,
                src.cols() + kernel.cols() <= i32::MAX,
                goal == filtered(src@, w as int, kernel@, kernel.cols() as int, border),
                forall|a: int, b: int|
                    (0 <= a < i && 0 <= b < w) || (a == i && 0 <= b < j) ==> #[trigger] out@[a][b] == goal[a][b],
            decreases w - j,
        {
            let v = filter_cell(src, kernel, border, i, j);
            out.set(i, j, v);
            j = j + 1;
        }
        i = i + 1;
    }
    assert(out@ =~= goal) by {
        assert forall|a: int| 0 <= a < h implies #[trigger] out@[a] =~= goal[a] by {
            assert(out@[a].len() == w);
        }
    }
    Ok(())
}

/// Applies the linear filter `kernel` to `src` and returns the responses in a
/// new grid of the shape of `src`.
pub fn filter<T: Sample>(src: &Grid<T>, kernel: &Grid<T>, border: BorderType<T>) -> (r: Grid<T>)
    requires
        src.wf(),
        kernel.wf(),
        src@.len() + kernel@.len() <= i32::MAX,
        src.cols() + kernel.cols() <= i32::MAX,
    ensures
        r@ == filtered(src@, src.cols() as int, kernel@, kernel.cols() as int, border),
        r.cols() == src.cols(),
        r.wf(),
{
    let mut out = Grid::new(src.height(), src.width(), T::zero());
    let _ = filter_(src, kernel, border, &mut out);
    out
}

/// The 3x3 Sobel kernel for the derivative across the columns (`along_x`, the
/// image's x direction) or across the rows.
pub open spec fn sobel_kernel_spec<T: Sample>(along_x: bool) -> Seq<Seq<T>> {
    let neg_one = T::spec_from_i8(-1i8);
    let neg_two = T::spec_from_i8(-2i8);
    let z = T::spec_from_i8(0i8);
    let one = T::spec_from_i8(1i8);
    let two = T::spec_from_i8(2i8);
    if along_x {
        seq![seq![neg_one, z, one], seq![neg_two, z, two], seq![neg_one, z, one]]
    } else {
        seq![seq![neg_one, neg_two, neg_one], seq![z, z, z], seq![one, two, one]]
    }
}

/// Whether `(dx, dy)` asks for a first derivative along exactly one axis.
pub open spec fn first_order(dx: u32, dy: u32) -> bool {
    (dx == 1 && dy == 0) || (dx == 0 && dy == 1)
}

/// The error, if any, that the Sobel operator reports for its parameters.
pub open spec fn sobel_params_error(ksize: usize, dx: u32, dy: u32) -> Option<FilterError> {
    if ksize != 3 {
        Some(FilterError::UnsupportedKernelSize)
    } else if !first_order(dx, dy) {
        Some(FilterError::UnsupportedDerivative)
    } else {
        None
    }
}

fn sobel_kernel<T: Sample>(along_x: bool) -> (r: Grid<T>)
    ensures
        r@ == sobel_kernel_spec::<T>(along_x),
        r.cols() == 3,
        r.wf(),
{
    let neg_one = T::from_i8(-1);
    let neg_two = T::from_i8(-2);
    let z = T::from_i8(0);
    let one = T::from_i8(1);
    let two = T::from_i8(2);
    let rows = if along_x {
        vec![vec![neg_one, z, one], vec![neg_two, z, two], vec![neg_one, z, one]]
    } else {
        vec![vec![neg_one, neg_two, neg_one], vec![z, z, z], vec![one, two, one]]
    };
    proof {
        assert(rows@.map_values(|v: Vec<T>| v@) =~= sobel_kernel_spec::<T>(along_x));
    }
    Grid::from_rows(3, rows).unwrap()
}

/// The Sobel operator: the first derivative of `src` across its columns
/// (`dx == 1, dy == 0`) or across its rows (`dx == 0, dy == 1`), written into `out`.
///
/// Only `ksize == 3` is supported. Fails, leaving `out` as it was, on other
/// parameters or when `out` does not have the shape of `src`.
pub fn sobel_<T: Sample>(src: &Grid<T>, ksize: usize, dx: u32, dy: u32, border: BorderType<T>, out: &mut Grid<T>) -> (r: Result<(), FilterError>)
    requires
        src.wf(),
        old(out).wf(),
        src@.len() + 3 <= i32::MAX,
        src.cols() + 3 <= i32::MAX,
    ensures
        sobel_params_error(ksize, dx, dy) matches Some(e) ==> r == Err::<(), FilterError>(e),
        sobel_params_error(ksize, dx, dy) is None ==> (r is Ok <==> old(out).same_shape(src)),
        r is Ok ==> final(out)@ == filtered(src@, src.cols() as int, sobel_kernel_spec::<T>(dx == 1), 3, border),
        r is Err ==> *final(out) == *old(out),
        final(out).wf(),
        final(out).cols() == old(out).cols(),
{
    if ksize != 3 {
        return Err(FilterError::UnsupportedKernelSize);
    }
    if !((dx == 1 && dy == 0) || (dx == 0 && dy == 1)) {
        return Err(FilterError::UnsupportedDerivative);
    }
    let kernel = sobel_kernel(dx == 1);
    filter_(src, &kernel, border, out)
}

/// The Sobel operator of [`sobel_`], returning the derivative in a new grid.
pub fn sobel<T: Sample>(src: &Grid<T>, ksize: usize, dx: u32, dy: u32, border: BorderType<T>) -> (r: Result<Grid<T>, FilterError>)
    requires
        src.wf(),
        src@.len() + 3 <= i32::MAX,
        src.cols() + 3 <= i32::MAX,
    ensures
        sobel_params_error(ksize, dx, dy) matches Some(e) ==> r == Err::<Grid<T>, FilterError>(e),
        sobel_params_error(ksize, dx, dy) is None ==> r is Ok,
        r matches Ok(g) ==> g@ == filtered(src@, src.cols() as int, sobel_kernel_spec::<T>(dx == 1), 3, border)
            && g.cols() == src.cols() && g.wf(),
{
    let mut out = Grid::new(src.height(), src.width(), T::zero());
    match sobel_(src, ksize, dx, dy, border, &mut out) {
        Ok(()) => Ok(out),
        Err(e) => Err(e),
    }
}

/// The sample `s` times one, added to zero, is `s` again.
proof fn lemma_unit_tap(s: i64)
    ensures
        <i64 as Sample>::spec_add(0, <i64 as Sample>::spec_mul(s, 1)) == s,
{
    assert(s * 1 == s);
    assert((s as int) % 0x1_0000_0000_0000_0000int == if s >= 0 { s as int } else { s + 0x1_0000_0000_0000_0000int });
}

/// Filtering with the 1x1 kernel holding one returns the input unchanged, under
/// every border policy.
pub proof fn lemma_identity_kernel(src: Seq<Seq<i64>>, w: int, border: BorderType<i64>)
    requires
        has_shape(src, src.len() as int, w),
    ensures
        filtered(src, w, seq![seq![1i64]], 1, border) == src,
{
    let k = seq![seq![1i64]];
    let f = filtered(src, w, k, 1, border);
    assert forall|i: int| 0 <= i < src.len() implies #[trigger] f[i] =~= src[i] by {
        assert forall|j: int| 0 <= j < w implies #[trigger] f[i][j] == src[i][j] by {
            let s = sample_at(src, w, i, j, border);
            assert(conv_acc(src, w, k, 1, border, i, j, 0, 0) == 0i64);
            assert(conv_acc(src, w, k, 1, border, i, j, 0, 1) == <i64 as Sample>::spec_add(0, <i64 as Sample>::spec_mul(s, 1)));
            assert(conv_acc(src, w, k, 1, border, i, j, 1, 0) == conv_acc(src, w, k, 1, border, i, j, 0, 1));
            lemma_unit_tap(s);
        }
    }
    assert(f =~= src);
}

/// The cell-wise sum, in `i64` wrapping arithmetic, of two grids.
pub open spec fn grid_sum(a: Seq<Seq<i64>>, b: Seq<Seq<i64>>) -> Seq<Seq<i64>> {
    Seq::new(a.len(), |i: int| Seq::new(a[i].len(), |j: int| <i64 as Sample>::spec_add(a[i][j], b[i][j])))
}

/// Whether a border supplies zero wherever it supplies a constant.
pub open spec fn zero_border(border: BorderType<i64>) -> bool {
    border matches BorderType::Constant(v) ==> v == 0
}

/// Reading the sum of two grids reads the sum of what each grid gives.
proof fn lemma_sample_linear(a: Seq<Seq<i64>>, b: Seq<Seq<i64>>, w: int, border: BorderType<i64>, x: int, y: int)
    requires
        has_shape(a, a.len() as int, w),
        has_shape(b, a.len() as int, w),
        a.len() > 0,
        w > 0,
        zero_border(border),
    ensures
        sample_at(grid_sum(a, b), w, x, y, border)
            == <i64 as Sample>::spec_add(sample_at(a, w, x, y, border), sample_at(b, w, x, y, border)),
{
    let h = a.len() as int;
    let s = grid_sum(a, b);
    lemma_interpolated_in_range(x, h, border);
    lemma_interpolated_in_range(y, w, border);
    if !(0 <= x < h && 0 <= y < w) {
        if let BorderType::Constant(v) = border {
            assert(<i64 as Sample>::spec_add(0, 0) == 0i64);
        } else {
            let nx = crate::border::axis_index(x, h, border);
            let ny = crate::border::axis_index(y, w, border);
            assert(0 <= nx < h && 0 <= ny < w);
            assert(s[nx][ny] == <i64 as Sample>::spec_add(a[nx][ny], b[nx][ny]));
        }
    }
}

/// The running sums of the sum of two grids are the sums of their running sums.
proof fn lemma_acc_linear(
    a: Seq<Seq<i64>>,
    b: Seq<Seq<i64>>,
    w: int,
    kernel: Seq<Seq<i64>>,
    kw: int,
    border: BorderType<i64>,
    i: int,
    j: int,
    ki: nat,
    kj: nat,
)
    requires
        has_shape(a, a.len() as int, w),
        has_shape(b, a.len() as int, w),
        a.len() > 0,
        w > 0,
        zero_border(border),
    ensures
        conv_acc(grid_sum(a, b), w, kernel, kw, border, i, j, ki, kj) == <i64 as Sample>::spec_add(
            conv_acc(a, w, kernel, kw, border, i, j, ki, kj),
            conv_acc(b, w, kernel, kw, border, i, j, ki, kj),
        ),
    decreases ki, kj,
{
    if kj > 0 {
        let c = (kj - 1) as nat;
        lemma_acc_linear(a, b, w, kernel, kw, border, i, j, ki, c);
        let x = i + ki - kernel.len() / 2;
        let y = j + c - kw / 2;
        lemma_sample_linear(a, b, w, border, x, y);
        lemma_mul_add_distributes(
            conv_acc(a, w, kernel, kw, border, i, j, ki, c),
            conv_acc(b, w, kernel, kw, border, i, j, ki, c),
            sample_at(a, w, x, y, border),
            sample_at(b, w, x, y, border),
            kernel[ki as int][c as int],
        );
    } else if ki > 0 {
        lemma_acc_linear(a, b, w, kernel, kw, border, i, j, (ki - 1) as nat, kw as nat);
    } else {
        assert(<i64 as Sample>::spec_add(0, 0) == 0i64);
    }
}

/// Filtering is linear: filtering the sum of two grids of one shape gives the
/// sum of their filtered grids, for every kernel, when the border supplies
/// zero or no constant. (A non-zero constant enters the sum's response once
/// but each grid's response once.)
pub proof fn lemma_filter_linear(
    a: Seq<Seq<i64>>,
    b: Seq<Seq<i64>>,
    w: int,
    kernel: Seq<Seq<i64>>,
    kw: int,
    border: BorderType<i64>,
)
    requires
        w >= 0,
        has_shape(a, a.len() as int, w),
        has_shape(b, a.len() as int, w),
        zero_border(border),
    ensures
        filtered(grid_sum(a, b), w, kernel, kw, border)
            == grid_sum(filtered(a, w, kernel, kw, border), filtered(b, w, kernel, kw, border)),
{
    let lhs = filtered(grid_sum(a, b), w, kernel, kw, border);
    let fa = filtered(a, w, kernel, kw, border);
    let fb = filtered(b, w, kernel, kw, border);
    let rhs = grid_sum(fa, fb);
    assert forall|i: int| 0 <= i < a.len() implies #[trigger] lhs[i] =~= rhs[i] by {
        assert forall|j: int| 0 <= j < w implies #[trigger] lhs[i][j] == rhs[i][j] by {
            lemma_acc_linear(a, b, w, kernel, kw, border, i, j, kernel.len(), 0);
        }
    }
    assert(lhs =~= rhs);
}

} // verus!

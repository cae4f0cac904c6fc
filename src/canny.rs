//! The stages of Canny's edge detector that need only comparisons and sums of
//! samples: direction quantisation, non-maximum suppression, threshold
//! estimation and binarisation. Hysteresis has a module of its own.
use vstd::prelude::*;
use crate::grid::{Grid, has_shape};
use crate::sample::Sample;

verus! {

/// `v` clamped to `[0, 1]`; anything not above zero becomes zero.
pub open spec fn clip<T: Sample>(v: T) -> T {
    if T::spec_lt(T::spec_one(), v) {
        T::spec_one()
    } else if T::spec_lt(T::spec_zero(), v) {
        v
    } else {
        T::spec_zero()
    }
}

/// Clamps `v` to `[0, 1]`.
pub fn clip_pixel<T: Sample>(v: T) -> (r: T)
    ensures
        r == clip(v),
{
    let one = T::one();
    let zero = T::zero();
    if T::lt(one, v) {
        one
    } else if T::lt(zero, v) {
        v
    } else {
        zero
    }
}

/// Whether every direction code of `dir` is one of `0, 1, 2, 3`.
pub open spec fn valid_directions(dir: Seq<Seq<i32>>) -> bool {
    forall|i: int, j: int|
        0 <= i < dir.len() && 0 <= j < dir[i].len() ==> 0 <= #[trigger] dir[i][j] <= 3
}

/// Whether `v` is strictly above both `a` and `b`.
pub open spec fn above_both<T: Sample>(v: T, a: T, b: T) -> bool {
    T::spec_lt(a, v) && T::spec_lt(b, v)
}

/// The value that non-maximum suppression leaves at `(i, j)` of the `h x w`
/// magnitude grid `g`, for direction code `d`.
///
/// The cell keeps its (clipped) magnitude only where it is strictly above its
/// two neighbours across the edge: vertical for code 0, diagonal for code 1,
/// horizontal for code 2 and anti-diagonal for code 3. On the outer rows and
/// columns, where a neighbour is missing, the cell is cleared, except for code 1,
/// which keeps its value there.
pub open spec fn nms_value<T: Sample>(d: i32, g: Seq<Seq<T>>, h: int, w: int, i: int, j: int) -> T {
    let v = g[i][j];
    let zero = T::spec_zero();
    let on_row_edge = i == 0 || i == h - 1;
    let on_col_edge = j == 0 || j == w - 1;
    clip(
        if d == 0 {
            if on_row_edge {
                zero
            } else if above_both(v, g[i - 1][j], g[i + 1][j]) {
                v
            } else {
                zero
            }
        } else if d == 1 {
            if on_row_edge || on_col_edge {
                v
            } else if above_both(v, g[i - 1][j - 1], g[i + 1][j + 1]) {
                v
            } else {
                zero
            }
        } else if d == 2 {
            if on_col_edge {
                zero
            } else if above_both(v, g[i][j - 1], g[i][j + 1]) {
                v
            } else {
                zero
            }
        } else {
            if on_row_edge || on_col_edge {
                zero
            } else if above_both(v, g[i - 1][j + 1], g[i + 1][j - 1]) {
                v
            } else {
                zero
            }
        },
    )
}

/// The magnitudes after suppression has visited, in row-major order, every
/// cell before `(i, j)`. Cells are updated in place, so a cell compares against
/// the already updated values of the cells visited before it.
pub open spec fn nms_upto<T: Sample>(dir: Seq<Seq<i32>>, g: Seq<Seq<T>>, w: int, i: nat, j: nat) -> Seq<Seq<T>>
    decreases i, j,
{
    if j > 0 {
        let c = (j - 1) as int;
        let prev = nms_upto(dir, g, w, i, (j - 1) as nat);
        prev.update(i as int, prev[i as int].update(c, nms_value(dir[i as int][c], prev, g.len() as int, w, i as int, c)))
    } else if i > 0 {
        nms_upto(dir, g, w, (i - 1) as nat, w as nat)
    } else {
        g
    }
}

/// The magnitudes after suppression has visited every cell.
pub open spec fn nms_result<T: Sample>(dir: Seq<Seq<i32>>, g: Seq<Seq<T>>, w: int) -> Seq<Seq<T>> {
    nms_upto(dir, g, w, g.len(), 0)
}

/// Non-maximum suppression, in place on the gradient magnitudes `out`, along the
/// quantised gradient directions `dir`.
pub fn edge_nms<T: Sample>(dir: &Grid<i32>, out: &mut Grid<T>)
    requires
        dir.wf(),
        old(out).wf(),
        dir.same_shape(old(out)),
        valid_directions(dir@),
    ensures
        final(out)@ == nms_result(dir@, old(out)@, old(out).cols() as int),
        final(out).wf(),
        final(out).cols() == old(out).cols(),
{
    let h = out.height();
    let w = out.width();
    let ghost g0 = out@;
    let mut i: usize = 0;
    while i < h
        invariant
            i <= h,
            h == g0.len(),
            w == out.cols(),
            dir.wf(),
            out.wf(),
            dir@.len() == h,
            dir.cols() == w,
            valid_directions(dir@),
            out@.len() == h,
            out@ == nms_upto(dir@, g0, w as int, i as nat, 0),
        decreases h - i,
    {
        let mut j: usize = 0;
        while j < w
            invariant
                i < h,
                j <= w,
                h == g0.len(),
                w == out.cols(),
                dir.wf(),
                out.wf(),
                dir@.len() == h,
                dir.cols() == w,
                valid_directions(dir@),
                out@.len() == h,
                out@ == nms_upto(dir@, g0, w as int, i as nat, j as nat),
            decreases w - j,
        {
            let ghost prev = out@;
            let d = *dir.get(i, j);
            let v = *out.get(i, j);
            let zero = T::zero();
            let row_edge = i == 0 || i == h - 1;
            let col_edge = j == 0 || j == w - 1;
            let kept = if d == 0 {
                if row_edge {
                    zero
                } else if T::lt(*out.get(i - 1, j), v) && T::lt(*out.get(i + 1, j), v) {
                    v
                } else {
                    zero
                }
            } else if d == 1 {
                if row_edge || col_edge {
                    v
                } else if T::lt(*out.get(i - 1, j - 1), v) && T::lt(*out.get(i + 1, j + 1), v) {
                    v
                } else {
                    zero
                }
            } else if d == 2 {
                if col_edge {
                    zero
                } else if T::lt(*out.get(i, j - 1), v) && T::lt(*out.get(i, j + 1), v) {
                    v
                } else {
                    zero
                }
            } else {
                if row_edge || col_edge {
                    zero
                } else if T::lt(*out.get(i - 1, j + 1), v) && T::lt(*out.get(i + 1, j - 1), v) {
                    v
                } else {
                    zero
                }
            };
            let nv = clip_pixel(kept);
            assert(nv == nms_value(d, prev, h as int, w as int, i as int, j as int));
            out.set(i, j, nv);
            j = j + 1;
        }
        assert(nms_upto(dir@, g0, w as int, (i + 1) as nat, 0) == nms_upto(dir@, g0, w as int, i as nat, w as nat));
        i = i + 1;
    }
}

/// Whether `v` is above or below zero.
pub open spec fn nonzero<T: Sample>(v: T) -> bool {
    T::spec_lt(T::spec_zero(), v) || T::spec_lt(v, T::spec_zero())
}

/// Every non-zero cell becomes one, every other cell zero.
pub open spec fn binarized<T: Sample>(g: Seq<Seq<T>>) -> Seq<Seq<T>> {
    g.map_values(|r: Seq<T>| r.map_values(|v: T| if nonzero(v) { T::spec_one() } else { T::spec_zero() }))
}

/// Binarises `out`: every non-zero cell becomes one, every other cell zero.
pub fn binarize<T: Sample>(out: &mut Grid<T>)
    requires
        old(out).wf(),
    ensures
        final(out)@ == binarized(old(out)@),
        final(out).wf(),
        final(out).cols() == old(out).cols(),
{
    let h = out.height();
    let w = out.width();
    let ghost g0 = out@;
    let ghost goal = binarized(g0);
    let mut i: usize = 0;
    while i < h
        invariant
            i <= h,
            h == g0.len(),
            w == out.cols(),
            out.wf(),
            out@.len() == h,
            g0.len() == h,
            forall|a: int| 0 <= a < h ==> (#[trigger] g0[a]).len() == w,
            goal == binarized(g0),
            forall|a: int| 0 <= a < i ==> #[trigger] out@[a] == goal[a],
            forall|a: int| i <= a < h ==> #[trigger] out@[a] == g0[a],
        decreases h - i,
    {
        let mut j: usize = 0;
        while j < w
            invariant
                i < h,
                j <= w,
                h == g0.len(),
                w == out.cols(),
                out.wf(),
                out@.len() == h,
                g0.len() == h,
                forall|a: int| 0 <= a < h ==> (#[trigger] g0[a]).len() == w,
                goal == binarized(g0),
                forall|a: int| 0 <= a < i ==> #[trigger] out@[a] == goal[a],
                forall|a: int| i < a < h ==> #[trigger] out@[a] == g0[a],
                forall|b: int| 0 <= b < j ==> #[trigger] out@[i as int][b] == goal[i as int][b],
                forall|b: int| j <= b < w ==> #[trigger] out@[i as int][b] == g0[i as int][b],
            decreases w - j,
        {
            let v = *out.get(i, j);
            let zero = T::zero();
            if T::lt(zero, v) || T::lt(v, zero) {
                out.set(i, j, T::one());
            } else {
                out.set(i, j, zero);
            }
            j = j + 1;
        }
        assert(out@[i as int] =~= goal[i as int]);
        i = i + 1;
    }
    assert(out@ =~= goal);
}

/// The direction code of a gradient whose angle has tangent `t`, given the
/// tangents `t22` of 22.5 degrees and `t67` of 67.5 degrees.
///
/// * 0: `|t| > t67`, steeper than 67.5 degrees either way (vertical gradient)
/// * 1: `t < 0` and `t22 < -t <= t67`, between -67.5 and -22.5 degrees
/// * 2: `|t| <= t22`, within 22.5 degrees of horizontal
/// * 3: `t >= 0` and `t22 < t <= t67`, between 22.5 and 67.5 degrees
pub open spec fn direction_code<T: Sample>(t: T, t22: T, t67: T) -> i32 {
    if T::spec_lt(t, T::spec_zero()) {
        if T::spec_lt(t, T::spec_neg(t67)) {
            0
        } else if T::spec_lt(t, T::spec_neg(t22)) {
            1
        } else {
            2
        }
    } else {
        if T::spec_lt(t67, t) {
            0
        } else if T::spec_le(t, t22) {
            2
        } else {
            3
        }
    }
}

/// Quantises every gradient-angle tangent of `tan` into a direction code, with
/// the band limits `tan_225` (tangent of 22.5 degrees) and `tan_675` (of 67.5).
pub fn quantize_directions<T: Sample>(tan: &Grid<T>, tan_225: T, tan_675: T) -> (r: Grid<i32>)
    requires
        tan.wf(),
    ensures
        r.wf(),
        r.same_shape(tan),
        forall|i: int, j: int|
            0 <= i < tan@.len() && 0 <= j < tan.cols() ==> #[trigger] r@[i][j] == direction_code(tan@[i][j], tan_225, tan_675),
        valid_directions(r@),
{
    let h = tan.height();
    let w = tan.width();
    let mut dir = Grid::new(h, w, 0i32);
    let zero = T::zero();
    let lo_neg = T::neg(tan_225);
    let hi_neg = T::neg(tan_675);
    let mut i: usize = 0;
    while i < h
        invariant
            i <= h,
            h == tan@.len(),
            w == tan.cols(),
            tan.wf(),
            dir.wf(),
            dir.same_shape(tan),
            zero == T::spec_zero(),
            lo_neg == T::spec_neg(tan_225),
            hi_neg == T::spec_neg(tan_675),
            forall|a: int, b: int| 0 <= a < h && 0 <= b < w ==> 0 <= #[trigger] dir@[a][b] <= 3,
            forall|a: int, b: int|
                0 <= a < i && 0 <= b < w ==> #[trigger] dir@[a][b] == direction_code(tan@[a][b], tan_225, tan_675),
        decreases h - i,
    {
        let mut j: usize = 0;
        while j < w
            invariant
                i < h,
                j <= w,
                h == tan@.len(),
                w == tan.cols(),
                tan.wf(),
                dir.wf(),
                dir.same_shape(tan),
                zero == T::spec_zero(),
                lo_neg == T::spec_neg(tan_225),
                hi_neg == T::spec_neg(tan_675),
                forall|a: int, b: int| 0 <= a < h && 0 <= b < w ==> 0 <= #[trigger] dir@[a][b] <= 3,
                forall|a: int, b: int|
                    ((0 <= a < i && 0 <= b < w) || (a == i && 0 <= b < j))
                        ==> #[trigger] dir@[a][b] == direction_code(tan@[a][b], tan_225, tan_675),
            decreases w - j,
        {
            let t = *tan.get(i, j);
            let code: i32 = if T::lt(t, zero) {
                if T::lt(t, hi_neg) {
                    0
                } else if T::lt(t, lo_neg) {
                    1
                } else {
                    2
                }
            } else {
                if T::lt(tan_675, t) {
                    0
                } else if T::le(t, tan_225) {
                    2
                } else {
                    3
                }
            };
            dir.set(i, j, code);
            j = j + 1;
        }
        i = i + 1;
    }
    dir
}

/// `a - b`, as the sum of `a` and the negation of `b`.
pub open spec fn minus<T: Sample>(a: T, b: T) -> T {
    T::spec_add(a, T::spec_neg(b))
}

/// The high threshold: starting from `val` with `left` of the requested mass
/// still to cover, walks the histogram down from its top bin (the `k`-th step
/// reads bin `n - 1 - k`), lowering the threshold by `step` per bin until the
/// mass covered reaches the requested one, for at most `n - 1` steps.
pub open spec fn walk_down<T: Sample>(hist: Seq<T>, left: T, val: T, step: T, k: nat) -> T
    decreases hist.len() - k,
{
    if k + 1 >= hist.len() {
        val
    } else {
        let left2 = minus(left, hist[hist.len() - 1 - k]);
        let val2 = minus(val, step);
        if T::spec_le(left2, T::spec_zero()) {
            val2
        } else {
            walk_down(hist, left2, val2, step, k + 1)
        }
    }
}

/// The low threshold: as [`walk_down`], but from the bottom bin upward, raising
/// the threshold by `step` per bin.
pub open spec fn walk_up<T: Sample>(hist: Seq<T>, left: T, val: T, step: T, k: nat) -> T
    decreases hist.len() - k,
{
    if k + 1 >= hist.len() {
        val
    } else {
        let left2 = minus(left, hist[k as int]);
        let val2 = T::spec_add(val, step);
        if T::spec_le(left2, T::spec_zero()) {
            val2
        } else {
            walk_up(hist, left2, val2, step, k + 1)
        }
    }
}

/// The `(low, high)` thresholds that hysteresis uses, given the normalised
/// histogram `hist` with bins of width `step`: the high threshold leaves the top
/// `max_val_percent` of the mass above it, the low one the bottom
/// `min_val_percent` below it, and the two are swapped when low exceeds high.
pub open spec fn thresholds<T: Sample>(hist: Seq<T>, max_val_percent: T, min_val_percent: T, step: T) -> (T, T) {
    let high = walk_down(hist, max_val_percent, T::spec_one(), step, 0);
    let low = walk_up(hist, min_val_percent, T::spec_zero(), step, 0);
    if T::spec_lt(high, low) {
        (high, low)
    } else {
        (low, high)
    }
}

/// Estimates the `(low, high)` hysteresis thresholds from the normalised
/// histogram `hist`, whose bins are `step` wide.
pub fn estimate_thresholds<T: Sample>(hist: &Vec<T>, max_val_percent: T, min_val_percent: T, step: T) -> (r: (T, T))
    ensures
        r == thresholds(hist@, max_val_percent, min_val_percent, step),
{
    let n = hist.len();
    let zero = T::zero();
    let neg_step = T::neg(step);
    let ghost high = walk_down(hist@, max_val_percent, T::spec_one(), step, 0);
    let ghost low = walk_up(hist@, min_val_percent, T::spec_zero(), step, 0);
    let mut max_left = max_val_percent;
    let mut max_val = T::one();
    let mut k: usize = 0;
    while n - k > 1
        invariant_except_break
            walk_down(hist@, max_left, max_val, step, k as nat) == high,
        invariant
            n == hist@.len(),
            k <= n,
            zero == T::spec_zero(),
            neg_step == T::spec_neg(step),
        ensures
            max_val == high,
        decreases n - k,
    {
        max_left = T::add(max_left, T::neg(hist[n - 1 - k]));
        max_val = T::add(max_val, neg_step);
        if T::le(max_left, zero) {
            break;
        }
        k = k + 1;
    }
    let mut min_left = min_val_percent;
    let mut min_val = zero;
    let mut k: usize = 0;
    while n - k > 1
        invariant_except_break
            walk_up(hist@, min_left, min_val, step, k as nat) == low,
        invariant
            n == hist@.len(),
            k <= n,
            zero == T::spec_zero(),
        ensures
            min_val == low,
        decreases n - k,
    {
        min_left = T::add(min_left, T::neg(hist[k]));
        min_val = T::add(min_val, step);
        if T::le(min_left, zero) {
            break;
        }
        k = k + 1;
    }
    if T::lt(max_val, min_val) {
        (max_val, min_val)
    } else {
        (min_val, max_val)
    }
}

/// Whether cell `(x, y)` comes before cell `(i, j)` in row-major order.
spec fn before(x: int, y: int, i: int, j: int) -> bool {
    x < i || (x == i && y < j)
}

/// While suppression runs, the cells it has not reached still hold their
/// input values, and each cell it has passed holds the value it was given on
/// its turn.
proof fn lemma_nms_frame(dir: Seq<Seq<i32>>, g: Seq<Seq<i64>>, w: int, i: nat, j: nat)
    requires
        has_shape(g, g.len() as int, w),
        (i < g.len() && j <= w) || (i == g.len() && j == 0),
    ensures
        has_shape(nms_upto(dir, g, w, i, j), g.len() as int, w),
        forall|x: int, y: int|
            0 <= x < g.len() && 0 <= y < w && !before(x, y, i as int, j as int)
                ==> #[trigger] nms_upto(dir, g, w, i, j)[x][y] == g[x][y],
        forall|x: int, y: int|
            0 <= x < g.len() && 0 <= y < w && before(x, y, i as int, j as int)
                ==> #[trigger] nms_upto(dir, g, w, i, j)[x][y]
                    == nms_value(dir[x][y], nms_upto(dir, g, w, x as nat, y as nat), g.len() as int, w, x, y),
    decreases i, j,
{
    let h = g.len() as int;
    if j > 0 {
        lemma_nms_frame(dir, g, w, i, (j - 1) as nat);
        let prev = nms_upto(dir, g, w, i, (j - 1) as nat);
        let cur = nms_upto(dir, g, w, i, j);
        assert forall|x: int, y: int| 0 <= x < h && 0 <= y < w && (x, y) != (i as int, (j - 1) as int)
            implies #[trigger] cur[x][y] == prev[x][y] by {
            if x == i {
                assert(cur[x] == prev[x].update(j - 1, cur[x][j - 1]));
            }
        }
    } else if i > 0 {
        assert(g[0].len() == w);
        lemma_nms_frame(dir, g, w, (i - 1) as nat, w as nat);
    }
}

/// The value suppression gives a cell is either zero or its input value, when
/// inputs lie in `[0, 1]`.
proof fn lemma_nms_value_range(dir: Seq<Seq<i32>>, g: Seq<Seq<i64>>, w: int, x: int, y: int)
    requires
        has_shape(g, g.len() as int, w),
        forall|a: int, b: int| 0 <= a < g.len() && 0 <= b < w ==> 0 <= #[trigger] g[a][b] <= 1,
        0 <= x < g.len(),
        0 <= y < w,
    ensures
        ({
            let v = nms_value(dir[x][y], nms_upto(dir, g, w, x as nat, y as nat), g.len() as int, w, x, y);
            v == 0 || v == g[x][y]
        }),
{
    lemma_nms_frame(dir, g, w, x as nat, y as nat);
}

/// Suppressing twice leaves what suppressing once left: a cell that survived
/// the first pass stays above its neighbours, which can only have dropped, and
/// a cleared cell stays cleared. This holds for magnitudes in `[0, 1]`, which
/// clipping leaves unchanged.
pub proof fn lemma_nms_idempotent(dir: Seq<Seq<i32>>, g: Seq<Seq<i64>>, w: int)
    requires
        has_shape(g, g.len() as int, w),
        forall|a: int, b: int| 0 <= a < g.len() && 0 <= b < w ==> 0 <= #[trigger] g[a][b] <= 1,
    ensures
        nms_result(dir, nms_result(dir, g, w), w) == nms_result(dir, g, w),
{
    let h = g.len() as int;
    let bg = nms_result(dir, g, w);
    lemma_nms_frame(dir, g, w, h as nat, 0);
    assert forall|a: int, b: int| 0 <= a < h && 0 <= b < w implies (#[trigger] bg[a][b] == 0 || bg[a][b] == g[a][b]) by {
        lemma_nms_value_range(dir, g, w, a, b);
    }
    assert forall|x: int, y: int| 0 <= x < h && 0 <= y < w implies
        nms_value(dir[x][y], bg, h, w, x, y) == #[trigger] bg[x][y] by {
        let sc = nms_upto(dir, g, w, x as nat, y as nat);
        lemma_nms_frame(dir, g, w, x as nat, y as nat);
        assert forall|a: int, b: int| 0 <= a < h && 0 <= b < w implies 0 <= #[trigger] bg[a][b] <= sc[a][b] by {
            if !before(a, b, x, y) {
                assert(sc[a][b] == g[a][b]);
            }
        }
        assert(sc[x][y] == g[x][y]);
    }
    lemma_nms_fixpoint(dir, bg, w, h as nat, 0);
}

/// Suppression leaves a grid unchanged when every cell already holds the value
/// suppression would give it.
proof fn lemma_nms_fixpoint(dir: Seq<Seq<i32>>, b: Seq<Seq<i64>>, w: int, i: nat, j: nat)
    requires
        has_shape(b, b.len() as int, w),
        forall|x: int, y: int| 0 <= x < b.len() && 0 <= y < w ==> nms_value(dir[x][y], b, b.len() as int, w, x, y) == #[trigger] b[x][y],
        (i < b.len() && j <= w) || (i == b.len() && j == 0),
    ensures
        nms_upto(dir, b, w, i, j) == b,
    decreases i, j,
{
    if j > 0 {
        lemma_nms_fixpoint(dir, b, w, i, (j - 1) as nat);
        let c = (j - 1) as int;
        assert(b[i as int][c] == nms_value(dir[i as int][c], b, b.len() as int, w, i as int, c));
        assert(b[i as int].update(c, b[i as int][c]) =~= b[i as int]);
        assert(b.update(i as int, b[i as int]) =~= b);
    } else if i > 0 {
        assert(b[0].len() == w);
        lemma_nms_fixpoint(dir, b, w, (i - 1) as nat, w as nat);
    }
}

} // verus!

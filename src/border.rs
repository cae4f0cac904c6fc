//! Border policies: what a filter reads at coordinates outside the grid.
use vstd::prelude::*;
use crate::grid::Grid;

verus! {

/// How a filter sources values outside the grid.
///
/// * `Constant(v)`: the constant `v`, i.e. `vvvv|abcdefgh|vvvv`
/// * `Reflect`: the coordinate's absolute value modulo the length, i.e. `edcb|abcdefgh|...`
/// * `Replicate`: the nearest edge cell, i.e. `aaaa|abcdefgh|hhhh`
#[derive(Clone, Copy)]
pub enum BorderType<V> {
    Constant(V),
    Reflect,
    Replicate,
}

/// The index that `border` substitutes for coordinate `p` on an axis of length `len`,
/// or `None` when the policy supplies a constant instead.
pub open spec fn interpolated<V>(p: int, len: int, border: BorderType<V>) -> Option<int> {
    match border {
        BorderType::Constant(_) => None,
        BorderType::Reflect => Some(if p < 0 { -p } else { p } % len),
        BorderType::Replicate => Some(if p < 0 { 0 } else { len - 1 }),
    }
}

/// The index read on an axis of length `len` at coordinate `p`: `p` itself when it is
/// in range, else the substitute chosen by `border`.
pub open spec fn axis_index<V>(p: int, len: int, border: BorderType<V>) -> int {
    if 0 <= p < len {
        p
    } else {
        interpolated(p, len, border).unwrap()
    }
}

/// The value a filter reads at `(x, y)` of the `g.len() x w` grid `g`.
pub open spec fn sample_at<T>(g: Seq<Seq<T>>, w: int, x: int, y: int, border: BorderType<T>) -> T {
    if 0 <= x < g.len() && 0 <= y < w {
        g[x][y]
    } else {
        match border {
            BorderType::Constant(v) => v,
            _ => g[axis_index(x, g.len() as int, border)][axis_index(y, w, border)],
        }
    }
}

/// Reflection about zero: the substitute index is the same on both sides.
pub proof fn lemma_reflect_symmetric<V>(p: int, len: int)
    requires
        len > 0,
    ensures
        interpolated(-p, len, BorderType::<V>::Reflect) == interpolated(p, len, BorderType::<V>::Reflect),
{
}

/// A substitute index always lies inside the axis.
pub proof fn lemma_interpolated_in_range<V>(p: int, len: int, border: BorderType<V>)
    requires
        len > 0,
    ensures
        interpolated(p, len, border) matches Some(k) ==> 0 <= k < len,
{
}

/// Computes the source index of the outside coordinate `p` on an axis of
/// length `len`; `None` for a `Constant` border.
pub fn border_interpolate<V>(p: i32, len: usize, border: BorderType<V>) -> (r: Option<usize>)
    requires
        border is Constant || 0 < len <= i32::MAX,
    ensures
        r matches Some(k) ==> 0 <= k < len,
        r == match interpolated(p as int, len as int, border) {
            Some(k) => Some(k as usize),
            None => None,
        },
{
    match border {
        BorderType::Constant(_) => None,
        BorderType::Reflect => {
            let a: u64 = if p < 0 { (-(p as i64)) as u64 } else { p as u64 };
            Some((a % (len as u64)) as usize)
        },
        BorderType::Replicate => {
            if p < 0 {
                Some(0usize)
            } else {
                Some(len - 1)
            }
        },
    }
}

/// Reads `src` at `(x, y)`, applying `border` on each axis where the coordinate is
/// out of range.
pub fn access_img_border<T: Copy>(src: &Grid<T>, x: i32, y: i32, border: BorderType<T>) -> (r: T)
    requires
        src.wf(),
        0 < src@.len() <= i32::MAX,
        0 < src.cols() <= i32::MAX,
    ensures
        r == sample_at(src@, src.cols() as int, x as int, y as int, border),
{
    let h = src.height();
    let w = src.width();
    if x >= 0 && y >= 0 && (x as usize) < h && (y as usize) < w {
        *src.get(x as usize, y as usize)
    } else {
        match border {
            BorderType::Constant(v) => v,
            _ => {
                let nx: usize = if x >= 0 && (x as usize) < h {
                    x as usize
                } else {
                    border_interpolate(x, h, border).unwrap()
                };
                let ny: usize = if y >= 0 && (y as usize) < w {
                    y as usize
                } else {
                    border_interpolate(y, w, border).unwrap()
                };
                *src.get(nx, ny)
            },
        }
    }
}

} // verus!

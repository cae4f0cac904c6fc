//! Dense rectangular grids stored row by row.
use vstd::prelude::*;

verus! {

/// A dense `height x width` grid of samples, stored as one vector per row.
pub struct Grid<T> {
    width: usize,
    rows: Vec<Vec<T>>,
}

impl<T> View for Grid<T> {
    type V = Seq<Seq<T>>;

    /// The grid as a sequence of rows.
    closed spec fn view(&self) -> Seq<Seq<T>> {
        self.rows@.map_values(|r: Vec<T>| r@)
    }
}

/// A `h x w` grid holding `v` in every cell.
pub open spec fn filled<T>(h: nat, w: nat, v: T) -> Seq<Seq<T>> {
    Seq::new(h, |i: int| Seq::new(w, |j: int| v))
}

/// Whether `g` has exactly `h` rows of exactly `w` cells each.
pub open spec fn has_shape<T>(g: Seq<Seq<T>>, h: int, w: int) -> bool {
    g.len() == h && forall|i: int| 0 <= i < h ==> (#[trigger] g[i]).len() == w
}

impl<T> Grid<T> {
    /// The number of cells in each row.
    pub closed spec fn cols(&self) -> nat {
        self.width as nat
    }

    /// Every row holds exactly `cols()` cells.
    pub open spec fn wf(&self) -> bool {
        has_shape(self@, self@.len() as int, self.cols() as int)
    }

    /// Whether two grids have the same height and width.
    pub open spec fn same_shape<U>(&self, other: &Grid<U>) -> bool {
        self@.len() == other@.len() && self.cols() == other.cols()
    }

    /// Number of rows.
    pub fn height(&self) -> (r: usize)
        ensures
            r == self@.len(),
    {
        self.rows.len()
    }

    /// Number of cells in each row.
    pub fn width(&self) -> (r: usize)
        ensures
            r == self.cols(),
    {
        self.width
    }

    /// Builds a grid from its rows; `None` when some row does not hold `width` cells.
    pub fn from_rows(width: usize, rows: Vec<Vec<T>>) -> (r: Option<Grid<T>>)
        ensures
            r is Some <==> has_shape(rows@.map_values(|v: Vec<T>| v@), rows@.len() as int, width as int),
            r matches Some(g) ==> g@ == rows@.map_values(|v: Vec<T>| v@) && g.cols() == width && g.wf(),
    {
        let ghost m = rows@.map_values(|v: Vec<T>| v@);
        let mut i: usize = 0;
        while i < rows.len()
            invariant
                i <= rows.len(),
                m == rows@.map_values(|v: Vec<T>| v@),
                forall|k: int| 0 <= k < i ==> (#[trigger] m[k]).len() == width,
            decreases rows.len() - i,
        {
            if rows[i].len() != width {
                assert(!has_shape(m, rows@.len() as int, width as int)) by {
                    assert(m[i as int].len() != width);
                }
                return None;
            }
            i = i + 1;
        }
        Some(Grid { width, rows })
    }

    /// The cell in row `i`, column `j`.
    pub fn get(&self, i: usize, j: usize) -> (r: &T)
        requires
            self.wf(),
            i < self@.len(),
            j < self.cols(),
        ensures
            *r == self@[i as int][j as int],
    {
        assert(self.rows@[i as int]@ == self@[i as int]);
        &self.rows[i][j]
    }

    /// Overwrites the cell in row `i`, column `j`.
    pub fn set(&mut self, i: usize, j: usize, v: T)
        requires
            old(self).wf(),
            i < old(self)@.len(),
            j < old(self).cols(),
        ensures
            final(self)@ == old(self)@.update(i as int, old(self)@[i as int].update(j as int, v)),
            final(self).cols() == old(self).cols(),
            final(self).wf(),
    {
        assert(self.rows@[i as int]@ == self@[i as int]);
        self.rows[i].set(j, v);
        assert(self@ =~= old(self)@.update(i as int, old(self)@[i as int].update(j as int, v)));
    }

    /// Hands the rows out, one vector per row.
    pub fn into_rows(self) -> (r: Vec<Vec<T>>)
        ensures
            r@.map_values(|v: Vec<T>| v@) == self@,
    {
        self.rows
    }
}

impl<T: Copy> Grid<T> {
    /// A `height x width` grid holding `v` in every cell.
    pub fn new(height: usize, width: usize, v: T) -> (r: Grid<T>)
        ensures
            r@ == filled(height as nat, width as nat, v),
            r.cols() == width,
            r.wf(),
    {
        let mut rows: Vec<Vec<T>> = Vec::new();
        let mut i: usize = 0;
        while i < height
            invariant
                i <= height,
                rows@.len() == i,
                forall|k: int| 0 <= k < i ==> (#[trigger] rows@[k])@ == Seq::new(width as nat, |j: int| v),
            decreases height - i,
        {
            let mut row: Vec<T> = Vec::new();
            let mut j: usize = 0;
            while j < width
                invariant
                    j <= width,
                    row@ == Seq::new(j as nat, |c: int| v),
                decreases width - j,
            {
                row.push(v);
                j = j + 1;
                assert(row@ =~= Seq::new(j as nat, |c: int| v));
            }
            rows.push(row);
            i = i + 1;
        }
        let g = Grid { width, rows };
        assert(g@ =~= filled(height as nat, width as nat, v));
        g
    }

    /// Copies the rows out, one vector per row.
    pub fn to_rows(&self) -> (r: Vec<Vec<T>>)
        requires
            self.wf(),
        ensures
            r@.map_values(|v: Vec<T>| v@) == self@,
    {
        let h = self.height();
        let w = self.width();
        let mut rows: Vec<Vec<T>> = Vec::new();
        let mut i: usize = 0;
        while i < h
            invariant
                i <= h,
                h == self@.len(),
                w == self.cols(),
                self.wf(),
                rows@.len() == i,
                forall|k: int| 0 <= k < i ==> (#[trigger] rows@[k])@ == self@[k],
            decreases h - i,
        {
            let mut row: Vec<T> = Vec::new();
            let mut j: usize = 0;
            while j < w
                invariant
                    i < h,
                    j <= w,
                    h == self@.len(),
                    w == self.cols(),
                    self.wf(),
                    row@ == self@[i as int].subrange(0, j as int),
                decreases w - j,
            {
                row.push(*self.get(i, j));
                j = j + 1;
                assert(row@ =~= self@[i as int].subrange(0, j as int));
            }
            assert(row@ =~= self@[i as int]);
            rows.push(row);
            i = i + 1;
        }
        assert(rows@.map_values(|v: Vec<T>| v@) =~= self@);
        rows
    }
}

} // verus!

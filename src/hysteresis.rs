//! Hysteresis thresholding: keep the weak edge cells that are connected to a
//! strong one.
use vstd::prelude::*;
use std::collections::VecDeque;
use crate::grid::{Grid, has_shape};
use crate::sample::Sample;

verus! {

/// Whether `p` lies inside an `h x w` grid.
pub open spec fn in_grid(h: int, w: int, p: (int, int)) -> bool {
    0 <= p.0 < h && 0 <= p.1 < w
}

/// Whether the flood fill may move from `a` to `b`: `b` is `a` itself or its
/// left, upper or upper-left neighbour.
pub open spec fn is_step(a: (int, int), b: (int, int)) -> bool {
    (b.0 == a.0 || b.0 == a.0 - 1) && (b.1 == a.1 || b.1 == a.1 - 1)
}

/// Whether `p` is a chain of cells of the `g.len() x w` grid `g` that starts at a
/// strong cell (at least `high`) and moves by flood-fill steps through cells of
/// at least `low`.
pub open spec fn weak_chain<T: Sample>(g: Seq<Seq<T>>, w: int, low: T, high: T, p: Seq<(int, int)>) -> bool {
    &&& p.len() > 0
    &&& forall|k: int| 0 <= k < p.len() ==> in_grid(g.len() as int, w, #[trigger] p[k])
    &&& T::spec_le(high, g[p[0].0][p[0].1])
    &&& forall|k: int|
        #![trigger p[k]]
        1 <= k < p.len() ==> T::spec_le(low, g[p[k].0][p[k].1]) && is_step(p[k - 1], p[k])
}

/// Whether hysteresis keeps cell `(i, j)`: some chain from a strong cell ends there.
pub open spec fn kept<T: Sample>(g: Seq<Seq<T>>, w: int, low: T, high: T, i: int, j: int) -> bool {
    exists|p: Seq<(int, int)>| #[trigger] weak_chain(g, w, low, high, p) && p.last() == (i, j)
}

/// The grid that hysteresis leaves: kept cells hold their value, all others zero.
pub open spec fn suppressed<T: Sample>(g: Seq<Seq<T>>, w: int, low: T, high: T) -> Seq<Seq<T>> {
    Seq::new(
        g.len(),
        |i: int| Seq::new(w as nat, |j: int| if kept(g, w, low, high, i, j) { g[i][j] } else { T::spec_zero() }),
    )
}

/// Every marked cell is kept.
spec fn marks_sound<T: Sample>(g: Seq<Seq<T>>, w: int, low: T, high: T, m: Seq<Seq<bool>>) -> bool {
    forall|x: int, y: int| in_grid(g.len() as int, w, (x, y)) && #[trigger] m[x][y] ==> kept(g, w, low, high, x, y)
}

/// Every queued cell lies in the grid and is marked.
spec fn queue_ok(h: int, w: int, m: Seq<Seq<bool>>, q: Seq<(usize, usize)>) -> bool {
    forall|k: int|
        0 <= k < q.len() ==> in_grid(h, w, (q[k].0 as int, q[k].1 as int)) && m[#[trigger] q[k].0 as int][q[k].1 as int]
}

spec fn queued(q: Seq<(usize, usize)>, x: int, y: int) -> bool {
    exists|k: int| 0 <= k < q.len() && (#[trigger] q[k]).0 == x && q[k].1 == y
}

/// Every cell that one flood-fill step from `a` reaches with at least `low` is marked.
spec fn closed<T: Sample>(g: Seq<Seq<T>>, w: int, low: T, m: Seq<Seq<bool>>, a: (int, int)) -> bool {
    forall|x: int, y: int|
        in_grid(g.len() as int, w, (x, y)) && is_step(a, (x, y)) && T::spec_le(low, g[x][y]) ==> #[trigger] m[x][y]
}

/// Every marked cell that is neither queued nor `skip` is closed.
spec fn closed_except<T: Sample>(
    g: Seq<Seq<T>>,
    w: int,
    low: T,
    m: Seq<Seq<bool>>,
    q: Seq<(usize, usize)>,
    skip: (int, int),
) -> bool {
    forall|x: int, y: int|
        in_grid(g.len() as int, w, (x, y)) && #[trigger] m[x][y] && !queued(q, x, y) && (x, y) != skip
            ==> closed(g, w, low, m, (x, y))
}

spec fn grows(h: int, w: int, m1: Seq<Seq<bool>>, m2: Seq<Seq<bool>>) -> bool {
    forall|x: int, y: int| in_grid(h, w, (x, y)) && m1[x][y] ==> #[trigger] m2[x][y]
}

spec fn unmarked_in_row(r: Seq<bool>) -> nat
    decreases r.len(),
{
    if r.len() == 0 {
        0
    } else {
        unmarked_in_row(r.drop_last()) + if r.last() { 0nat } else { 1nat }
    }
}

spec fn unmarked(m: Seq<Seq<bool>>) -> nat
    decreases m.len(),
{
    if m.len() == 0 {
        0
    } else {
        unmarked(m.drop_last()) + unmarked_in_row(m.last())
    }
}

proof fn lemma_mark_in_row(r: Seq<bool>, j: int)
    requires
        0 <= j < r.len(),
        !r[j],
    ensures
        unmarked_in_row(r.update(j, true)) + 1 == unmarked_in_row(r),
    decreases r.len(),
{
    let r2 = r.update(j, true);
    if j == r.len() - 1 {
        assert(r2.drop_last() =~= r.drop_last());
    } else {
        assert(r2.drop_last() =~= r.drop_last().update(j, true));
        lemma_mark_in_row(r.drop_last(), j);
    }
}

proof fn lemma_mark(m: Seq<Seq<bool>>, i: int, j: int)
    requires
        0 <= i < m.len(),
        0 <= j < m[i].len(),
        !m[i][j],
    ensures
        unmarked(m.update(i, m[i].update(j, true))) + 1 == unmarked(m),
    decreases m.len(),
{
    let m2 = m.update(i, m[i].update(j, true));
    if i == m.len() - 1 {
        assert(m2.drop_last() =~= m.drop_last());
        lemma_mark_in_row(m[i], j);
    } else {
        assert(m2.drop_last() =~= m.drop_last().update(i, m[i].update(j, true)));
        lemma_mark(m.drop_last(), i, j);
    }
}

/// A chain extended by one more flood-fill step into a cell of at least `low`.
proof fn lemma_extend_chain<T: Sample>(g: Seq<Seq<T>>, w: int, low: T, high: T, a: (int, int), b: (int, int))
    requires
        kept(g, w, low, high, a.0, a.1),
        in_grid(g.len() as int, w, b),
        is_step(a, b),
        T::spec_le(low, g[b.0][b.1]),
    ensures
        kept(g, w, low, high, b.0, b.1),
{
    let p = choose|p: Seq<(int, int)>| #[trigger] weak_chain(g, w, low, high, p) && p.last() == a;
    let longer = p.push(b);
    assert(longer[longer.len() - 2] == a);
    assert(weak_chain(g, w, low, high, longer));
    assert(longer.last() == b);
}

/// Marks `(nx, ny)` and queues it when it holds at least `low` and is not yet
/// marked; `(nx, ny)` is one flood-fill step from the marked cell `(x, y)`.
fn visit<T: Sample>(
    g: &Grid<T>,
    low: T,
    Ghost(high): Ghost<T>,
    marks: &mut Grid<bool>,
    queue: &mut VecDeque<(usize, usize)>,
    x: usize,
    y: usize,
    nx: usize,
    ny: usize,
)
    requires
        g.wf(),
        old(marks).wf(),
        old(marks).same_shape(g),
        x < g@.len(),
        y < g.cols(),
        nx < g@.len(),
        ny < g.cols(),
        is_step((x as int, y as int), (nx as int, ny as int)),
        old(marks)@[x as int][y as int],
        marks_sound(g@, g.cols() as int, low, high, old(marks)@),
        queue_ok(g@.len() as int, g.cols() as int, old(marks)@, old(queue)@),
        closed_except(g@, g.cols() as int, low, old(marks)@, old(queue)@, (x as int, y as int)),
    ensures
        final(marks).wf(),
        final(marks).same_shape(g),
        marks_sound(g@, g.cols() as int, low, high, final(marks)@),
        queue_ok(g@.len() as int, g.cols() as int, final(marks)@, final(queue)@),
        closed_except(g@, g.cols() as int, low, final(marks)@, final(queue)@, (x as int, y as int)),
        grows(g@.len() as int, g.cols() as int, old(marks)@, final(marks)@),
        T::spec_le(low, g@[nx as int][ny as int]) ==> final(marks)@[nx as int][ny as int],
        (final(marks)@ == old(marks)@ && final(queue)@ == old(queue)@) || unmarked(final(marks)@) < unmarked(old(marks)@),
{
    let ghost w = g.cols() as int;
    let ghost m0 = marks@;
    let ghost q0 = queue@;
    if T::le(low, *g.get(nx, ny)) && !*marks.get(nx, ny) {
        marks.set(nx, ny, true);
        queue.push_back((nx, ny));
        let ghost m1 = marks@;
        let ghost q1 = queue@;
        proof {
            lemma_mark(m0, nx as int, ny as int);
            assert(kept(g@, w, low, high, x as int, y as int));
            lemma_extend_chain(g@, w, low, high, (x as int, y as int), (nx as int, ny as int));
            assert(queued(q1, nx as int, ny as int)) by {
                assert(q1[q1.len() - 1] == (nx, ny));
            }
            assert forall|a: int, b: int| in_grid(g@.len() as int, w, (a, b)) && m0[a][b] implies #[trigger] m1[a][b] by {
                if a == nx {
                    assert(m1[a] == m0[a].update(ny as int, true));
                }
            }
            assert forall|k: int| 0 <= k < q0.len() implies #[trigger] q1[k] == q0[k] by {}
            assert forall|a: int, b: int| queued(q0, a, b) implies queued(q1, a, b) by {
                let k = choose|k: int| 0 <= k < q0.len() && (#[trigger] q0[k]).0 == a && q0[k].1 == b;
                assert(q1[k] == q0[k]);
            }
            assert forall|a: int, b: int|
                in_grid(g@.len() as int, w, (a, b)) && #[trigger] m1[a][b] && !queued(q1, a, b) && (a, b) != (x as int, y as int)
                implies closed(g@, w, low, m1, (a, b)) by {
                assert(m0[a][b]);
                assert(!queued(q0, a, b));
                assert(closed(g@, w, low, m0, (a, b)));
                assert forall|c: int, d: int|
                    in_grid(g@.len() as int, w, (c, d)) && is_step((a, b), (c, d)) && T::spec_le(low, g@[c][d])
                    implies #[trigger] m1[c][d] by {
                    assert(m0[c][d]);
                }
            }
            assert forall|k: int| 0 <= k < q1.len() implies
                in_grid(g@.len() as int, w, (q1[k].0 as int, q1[k].1 as int)) && m1[#[trigger] q1[k].0 as int][q1[k].1 as int] by {
                if k < q0.len() {
                    assert(q1[k] == q0[k]);
                }
            }
        }
    }
}

/// Once every marked cell is closed and every strong cell is marked, the end
/// of every chain is marked.
proof fn lemma_chain_marked<T: Sample>(g: Seq<Seq<T>>, w: int, low: T, high: T, m: Seq<Seq<bool>>, p: Seq<(int, int)>)
    requires
        weak_chain(g, w, low, high, p),
        forall|x: int, y: int| in_grid(g.len() as int, w, (x, y)) && #[trigger] m[x][y] ==> closed(g, w, low, m, (x, y)),
        forall|x: int, y: int| in_grid(g.len() as int, w, (x, y)) && T::spec_le(high, g[x][y]) ==> #[trigger] m[x][y],
    ensures
        m[p.last().0][p.last().1],
    decreases p.len(),
{
    if p.len() > 1 {
        let p0 = p.drop_last();
        assert(weak_chain(g, w, low, high, p0)) by {
            assert forall|k: int| 0 <= k < p0.len() implies #[trigger] p0[k] == p[k] by {}
        }
        lemma_chain_marked(g, w, low, high, m, p0);
        let a = p0.last();
        let b = p.last();
        assert(a == p[p.len() - 2]);
        assert(in_grid(g.len() as int, w, b) && is_step(a, b) && T::spec_le(low, g[b.0][b.1]));
        assert(closed(g, w, low, m, a));
    } else {
        assert(in_grid(g.len() as int, w, p[0]));
    }
}

/// Expands from the queued cells until the queue is empty, marking every cell
/// that flood-fill steps reach through values of at least `low`.
fn flood<T: Sample>(
    g: &Grid<T>,
    low: T,
    Ghost(high): Ghost<T>,
    marks: &mut Grid<bool>,
    queue: &mut VecDeque<(usize, usize)>,
)
    requires
        g.wf(),
        old(marks).wf(),
        old(marks).same_shape(g),
        marks_sound(g@, g.cols() as int, low, high, old(marks)@),
        queue_ok(g@.len() as int, g.cols() as int, old(marks)@, old(queue)@),
        closed_except(g@, g.cols() as int, low, old(marks)@, old(queue)@, (-1, -1)),
    ensures
        final(marks).wf(),
        final(marks).same_shape(g),
        marks_sound(g@, g.cols() as int, low, high, final(marks)@),
        final(queue)@.len() == 0,
        forall|x: int, y: int|
            in_grid(g@.len() as int, g.cols() as int, (x, y)) && #[trigger] final(marks)@[x][y]
                ==> closed(g@, g.cols() as int, low, final(marks)@, (x, y)),
        grows(g@.len() as int, g.cols() as int, old(marks)@, final(marks)@),
{
    let ghost h = g@.len() as int;
    let ghost w = g.cols() as int;
    let ghost m0 = marks@;
    while queue.len() > 0
        invariant
            g.wf(),
            marks.wf(),
            marks.same_shape(g),
            h == g@.len(),
            w == g.cols(),
            marks_sound(g@, w, low, high, marks@),
            queue_ok(h, w, marks@, queue@),
            closed_except(g@, w, low, marks@, queue@, (-1, -1)),
            grows(h, w, m0, marks@),
        decreases unmarked(marks@), queue@.len(),
    {
        let ghost m1 = marks@;
        let ghost q1 = queue@;
        let (x, y) = queue.pop_front().unwrap();
        let ghost q2 = queue@;
        proof {
            assert(q1[0] == (x, y));
            assert(marks@[x as int][y as int]);
            assert forall|a: int, b: int| queued(q2, a, b) implies queued(q1, a, b) by {
                let k = choose|k: int| 0 <= k < q2.len() && (#[trigger] q2[k]).0 == a && q2[k].1 == b;
                assert(q1[k + 1] == q2[k]);
            }
            assert forall|k: int| 0 <= k < q2.len() implies
                in_grid(h, w, (q2[k].0 as int, q2[k].1 as int)) && m1[#[trigger] q2[k].0 as int][q2[k].1 as int] by {
                assert(q1[k + 1] == q2[k]);
            }
            assert forall|a: int, b: int|
                in_grid(h, w, (a, b)) && #[trigger] m1[a][b] && !queued(q2, a, b) && (a, b) != (x as int, y as int)
                implies closed(g@, w, low, m1, (a, b)) by {
                if queued(q1, a, b) {
                    let k = choose|k: int| 0 <= k < q1.len() && (#[trigger] q1[k]).0 == a && q1[k].1 == b;
                    if k > 0 {
                        assert(q2[k - 1] == q1[k]);
                    }
                }
            }
        }
        if x > 0 && y > 0 {
            visit(g, low, Ghost(high), marks, queue, x, y, x - 1, y - 1);
        }
        if x > 0 {
            visit(g, low, Ghost(high), marks, queue, x, y, x - 1, y);
        }
        if y > 0 {
            visit(g, low, Ghost(high), marks, queue, x, y, x, y - 1);
        }
        visit(g, low, Ghost(high), marks, queue, x, y, x, y);
        proof {
            let m3 = marks@;
            assert(closed(g@, w, low, m3, (x as int, y as int)));
            assert forall|a: int, b: int|
                in_grid(h, w, (a, b)) && #[trigger] m3[a][b] && !queued(queue@, a, b) && (a, b) != (-1int, -1int)
                implies closed(g@, w, low, m3, (a, b)) by {}
        }
    }
    proof {
        assert forall|x: int, y: int| in_grid(h, w, (x, y)) && #[trigger] marks@[x][y] implies closed(g@, w, low, marks@, (x, y)) by {
            assert(!queued(queue@, x, y));
        }
    }
}

/// Hysteresis thresholding in place: every cell of at least `max_val` is a seed,
/// a flood fill from the seeds spreads through cells of at least `min_val`, and
/// every cell it does not reach becomes zero.
pub fn max_min_suppression<T: Sample>(max_val: T, min_val: T, out: &mut Grid<T>)
    requires
        old(out).wf(),
        T::spec_le(min_val, max_val),
    ensures
        final(out)@ == suppressed(old(out)@, old(out).cols() as int, min_val, max_val),
        final(out).wf(),
        final(out).cols() == old(out).cols(),
{
    let h = out.height();
    let w = out.width();
    let ghost g = out@;
    let mut marks = Grid::new(h, w, false);
    let mut queue: VecDeque<(usize, usize)> = VecDeque::new();
    let mut i: usize = 0;
    while i < h
        invariant
            i <= h,
            h == g.len(),
            w == out.cols(),
            out.wf(),
            out@ == g,
            marks.wf(),
            marks.same_shape(out),
            queue@.len() == 0,
            marks_sound(g, w as int, min_val, max_val, marks@),
            forall|x: int, y: int|
                in_grid(h as int, w as int, (x, y)) && #[trigger] marks@[x][y] ==> closed(g, w as int, min_val, marks@, (x, y)),
            forall|x: int, y: int|
                0 <= x < i && 0 <= y < w && T::spec_le(max_val, g[x][y]) ==> #[trigger] marks@[x][y],
        decreases h - i,
    {
        let mut j: usize = 0;
        while j < w
            invariant
                i < h,
                j <= w,
                h == g.len(),
                w == out.cols(),
                out.wf(),
                out@ == g,
                marks.wf(),
                marks.same_shape(out),
                queue@.len() == 0,
                marks_sound(g, w as int, min_val, max_val, marks@),
                forall|x: int, y: int|
                    in_grid(h as int, w as int, (x, y)) && #[trigger] marks@[x][y] ==> closed(g, w as int, min_val, marks@, (x, y)),
                forall|x: int, y: int|
                    ((0 <= x < i && 0 <= y < w) || (x == i && 0 <= y < j)) && T::spec_le(max_val, g[x][y]) ==> #[trigger] marks@[x][y],
            decreases w - j,
        {
            if !*marks.get(i, j) && T::le(max_val, *out.get(i, j)) {
                let ghost m0 = marks@;
                marks.set(i, j, true);
                queue.push_back((i, j));
                proof {
                    let m1 = marks@;
                    let p = seq![(i as int, j as int)];
                    assert(weak_chain(g, w as int, min_val, max_val, p));
                    assert(queue@[0] == (i, j));
                    assert(queued(queue@, i as int, j as int));
                    assert forall|x: int, y: int| in_grid(h as int, w as int, (x, y)) && m0[x][y] implies #[trigger] m1[x][y] by {
                        if x == i {
                            assert(m1[x] == m0[x].update(j as int, true));
                        }
                    }
                    assert forall|x: int, y: int|
                        in_grid(h as int, w as int, (x, y)) && #[trigger] m1[x][y] && !queued(queue@, x, y) && (x, y) != (-1int, -1int)
                        implies closed(g, w as int, min_val, m1, (x, y)) by {
                        assert(m0[x][y]);
                        assert(closed(g, w as int, min_val, m0, (x, y)));
                        assert forall|c: int, d: int|
                            in_grid(h as int, w as int, (c, d)) && is_step((x, y), (c, d)) && T::spec_le(min_val, g[c][d])
                            implies #[trigger] m1[c][d] by {
                            assert(m0[c][d]);
                        }
                    }
                }
                flood(out, min_val, Ghost(max_val), &mut marks, &mut queue);
            }
            j = j + 1;
        }
        i = i + 1;
    }
    let ghost m = marks@;
    let ghost goal = suppressed(g, w as int, min_val, max_val);
    proof {
        assert forall|x: int, y: int| in_grid(h as int, w as int, (x, y)) implies
            (#[trigger] m[x][y] <==> kept(g, w as int, min_val, max_val, x, y)) by {
            if kept(g, w as int, min_val, max_val, x, y) {
                let p = choose|p: Seq<(int, int)>| #[trigger] weak_chain(g, w as int, min_val, max_val, p) && p.last() == (x, y);
                lemma_chain_marked(g, w as int, min_val, max_val, m, p);
            }
        }
    }
    let zero = T::zero();
    let mut i: usize = 0;
    while i < h
        invariant
            i <= h,
            h == g.len(),
            w == out.cols(),
            out.wf(),
            out@.len() == h,
            marks.wf(),
            marks@ == m,
            marks.same_shape(out),
            zero == T::spec_zero(),
            goal == suppressed(g, w as int, min_val, max_val),
            forall|x: int, y: int| in_grid(h as int, w as int, (x, y)) ==> (#[trigger] m[x][y] <==> kept(g, w as int, min_val, max_val, x, y)),
            forall|a: int| 0 <= a < h ==> (#[trigger] g[a]).len() == w,
            forall|a: int| 0 <= a < i ==> #[trigger] out@[a] == goal[a],
            forall|a: int| i <= a < h ==> #[trigger] out@[a] == g[a],
        decreases h - i,
    {
        let mut j: usize = 0;
        while j < w
            invariant
                i < h,
                j <= w,
                h == g.len(),
                w == out.cols(),
                out.wf(),
                out@.len() == h,
                marks.wf(),
                marks@ == m,
                marks.same_shape(out),
                zero == T::spec_zero(),
                goal == suppressed(g, w as int, min_val, max_val),
                forall|x: int, y: int| in_grid(h as int, w as int, (x, y)) ==> (#[trigger] m[x][y] <==> kept(g, w as int, min_val, max_val, x, y)),
                forall|a: int| 0 <= a < h ==> (#[trigger] g[a]).len() == w,
                forall|a: int| 0 <= a < i ==> #[trigger] out@[a] == goal[a],
                forall|a: int| i < a < h ==> #[trigger] out@[a] == g[a],
                forall|b: int| 0 <= b < j ==> #[trigger] out@[i as int][b] == goal[i as int][b],
                forall|b: int| j <= b < w ==> #[trigger] out@[i as int][b] == g[i as int][b],
            decreases w - j,
        {
            if !*marks.get(i, j) {
                out.set(i, j, zero);
            }
            assert(m[i as int][j as int] <==> kept(g, w as int, min_val, max_val, i as int, j as int));
            j = j + 1;
        }
        assert(out@[i as int] =~= goal[i as int]);
        i = i + 1;
    }
    assert(out@ =~= goal);
}

/// Lowering the weak threshold never loses a kept cell: with `low2 <= low`,
/// every cell that hysteresis keeps under `low` it also keeps under `low2`, with
/// the same value. The set of kept cells, and so their number, can only grow.
pub proof fn lemma_hysteresis_monotone(g: Seq<Seq<i64>>, w: int, low: i64, low2: i64, high: i64)
    requires
        low2 <= low,
        has_shape(g, g.len() as int, w),
    ensures
        forall|i: int, j: int|
            #[trigger] kept(g, w, low, high, i, j) ==> kept(g, w, low2, high, i, j),
        forall|i: int, j: int|
            0 <= i < g.len() && 0 <= j < w && #[trigger] suppressed(g, w, low, high)[i][j] != 0
                ==> suppressed(g, w, low2, high)[i][j] == suppressed(g, w, low, high)[i][j],
{
    assert forall|i: int, j: int| #[trigger] kept(g, w, low, high, i, j) implies kept(g, w, low2, high, i, j) by {
        let p = choose|p: Seq<(int, int)>| #[trigger] weak_chain(g, w, low, high, p) && p.last() == (i, j);
        assert(weak_chain(g, w, low2, high, p));
    }
}

} // verus!

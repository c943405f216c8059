use vstd::prelude::*;

use crate::energy::{EnergyMap, EnergyView};
use crate::image::{lemma_row_major_index, lemma_row_major_injective};

verus! {

/// The cumulative energy of the cheapest allowed path from the top row down
/// to `(x, y)`: a path may step straight down or down from the column to the
/// right, so a cell's predecessor is itself or its left neighbor.
pub open spec fn cum_energy(e: EnergyView, x: int, y: int) -> int
    decreases y,
{
    if y <= 0 {
        e.rows[0][x] as int
    } else {
        e.rows[y][x] + if x <= 0 {
            cum_energy(e, 0, y - 1)
        } else if cum_energy(e, x, y - 1) < cum_energy(e, x - 1, y - 1) {
            cum_energy(e, x, y - 1)
        } else {
            cum_energy(e, x - 1, y - 1)
        }
    }
}

/// The predecessor column chosen for `(x, y)` with `y >= 1`: out of the
/// candidates `x - 1` and `x` in the row above, the one with strictly
/// smaller cumulative energy; `x - 1` is examined first, and an equal later
/// value does not displace it.
pub open spec fn prev_col(e: EnergyView, x: int, y: int) -> int {
    if x <= 0 {
        0
    } else if cum_energy(e, x, y - 1) < cum_energy(e, x - 1, y - 1) {
        x
    } else {
        x - 1
    }
}

/// The cumulative energy of a cell below the top row is the chosen
/// predecessor's cumulative energy plus the cell's own value.
pub proof fn lemma_cum_energy_step(e: EnergyView, x: int, y: int)
    requires
        1 <= y,
    ensures
        cum_energy(e, x, y) == cum_energy(e, prev_col(e, x, y), y - 1) + e.rows[y][x],
{
}

/// The column with the least cumulative energy among the first `n` columns
/// of the bottom row; on ties the leftmost occurrence wins.
pub open spec fn bottom_best(e: EnergyView, n: int) -> int
    decreases n,
{
    if n <= 1 {
        0
    } else {
        let b = bottom_best(e, n - 1);
        if cum_energy(e, n - 1, e.height - 1) < cum_energy(e, b, e.height - 1) {
            n - 1
        } else {
            b
        }
    }
}

/// The seam's column in row `y`: the best bottom-row column, walked upward
/// through the chosen predecessors.
pub open spec fn seam_col(e: EnergyView, y: int) -> int
    decreases e.height - y,
{
    if y >= e.height - 1 {
        bottom_best(e, e.width as int)
    } else {
        prev_col(e, seam_col(e, y + 1), y + 1)
    }
}

/// The seam an energy map determines: one column per row.
pub open spec fn seam_of(e: EnergyView) -> Seq<usize> {
    Seq::new(e.height, |y: int| seam_col(e, y) as usize)
}

/// The best bottom-row column among the first `n` lies within them.
pub proof fn lemma_bottom_best_in_range(e: EnergyView, n: int)
    requires
        1 <= n,
    ensures
        0 <= bottom_best(e, n) < n,
    decreases n,
{
    if n > 1 {
        lemma_bottom_best_in_range(e, n - 1);
    }
}

/// Every seam column lies within the map's width.
pub proof fn lemma_seam_col_in_range(e: EnergyView, y: int)
    requires
        1 <= e.width,
        y < e.height,
    ensures
        0 <= seam_col(e, y) < e.width,
    decreases e.height - y,
{
    if y >= e.height - 1 {
        lemma_bottom_best_in_range(e, e.width as int);
    } else {
        lemma_seam_col_in_range(e, y + 1);
    }
}

/// Cumulative energies are nonnegative and grow by less than one 32-bit
/// value per row.
pub proof fn lemma_cum_energy_bounds(e: EnergyView, x: int, y: int)
    requires
        e.wf(),
        0 <= x < e.width,
        0 <= y < e.height,
    ensures
        0 <= cum_energy(e, x, y) <= (y + 1) * 0x1_0000_0000,
    decreases y,
{
    if y == 0 {
    } else {
        lemma_cum_energy_bounds(e, x, y - 1);
        if x > 0 {
            lemma_cum_energy_bounds(e, x - 1, y - 1);
        }
    }
}

/// An allowed vertical path: one in-range column per row, and descending a
/// row keeps the column or moves one to the right, so the predecessor above
/// any cell is the cell's own column or its left neighbor.
pub open spec fn path_ok(e: EnergyView, p: Seq<int>) -> bool {
    &&& p.len() == e.height
    &&& forall|y: int| 0 <= y < p.len() ==> 0 <= #[trigger] p[y] < e.width
    &&& forall|y: int| 1 <= y < p.len() ==> p[y - 1] == #[trigger] p[y] || p[y - 1] == p[y] - 1
}

/// The total energy of the path's cells down to row `y`.
pub open spec fn path_cost(e: EnergyView, p: Seq<int>, y: int) -> int
    decreases y,
{
    if y <= 0 {
        e.rows[0][p[0]] as int
    } else {
        path_cost(e, p, y - 1) + e.rows[y][p[y]]
    }
}

/// The columns of the seam itself, as a path.
pub open spec fn seam_path(e: EnergyView) -> Seq<int> {
    Seq::new(e.height, |y: int| seam_col(e, y))
}

/// The seam is an allowed path: in range everywhere, and each row's column
/// is the chosen predecessor of the row below, which never drifts right.
pub proof fn lemma_seam_path_ok(e: EnergyView)
    requires
        1 <= e.width,
        1 <= e.height,
    ensures
        path_ok(e, seam_path(e)),
{
    let p = seam_path(e);
    assert forall|y: int| 0 <= y < p.len() implies 0 <= #[trigger] p[y] < e.width by {
        lemma_seam_col_in_range(e, y);
    }
    assert forall|y: int| 1 <= y < p.len() implies p[y - 1] == #[trigger] p[y] || p[y - 1] == p[y]
        - 1 by {
        assert(seam_col(e, y - 1) == prev_col(e, seam_col(e, y), y));
    }
}

/// The cumulative energy of a cell bounds the cost of every allowed path
/// that ends there: the dynamic program always keeps the cheaper of the two
/// candidate predecessors.
pub proof fn lemma_cum_energy_minimal(e: EnergyView, p: Seq<int>, y: int)
    requires
        path_ok(e, p),
        0 <= y < e.height,
    ensures
        cum_energy(e, p[y], y) <= path_cost(e, p, y),
    decreases y,
{
    if y > 0 {
        lemma_cum_energy_minimal(e, p, y - 1);
    }
}

/// The seam's columns follow the chosen predecessors, so the seam's total
/// cost is exactly its bottom cell's cumulative energy.
pub proof fn lemma_seam_cost(e: EnergyView, y: int)
    requires
        1 <= e.width,
        0 <= y < e.height,
    ensures
        path_cost(e, seam_path(e), y) == cum_energy(e, seam_col(e, y), y),
    decreases y,
{
    lemma_seam_col_in_range(e, y);
    if y > 0 {
        lemma_seam_cost(e, y - 1);
        assert(seam_col(e, y - 1) == prev_col(e, seam_col(e, y), y));
        lemma_cum_energy_step(e, seam_col(e, y), y);
    }
}

/// The best bottom-row column is no more expensive than any of the first
/// `n` bottom-row columns.
pub proof fn lemma_bottom_best_minimal(e: EnergyView, n: int, x: int)
    requires
        0 <= x < n,
    ensures
        cum_energy(e, bottom_best(e, n), e.height - 1) <= cum_energy(e, x, e.height - 1),
    decreases n,
{
    if x < n - 1 {
        lemma_bottom_best_minimal(e, n - 1, x);
    }
}

/// The seam the dynamic program determines has the least total energy of
/// all allowed vertical paths through the map.
pub proof fn lemma_seam_minimal(e: EnergyView, p: Seq<int>)
    requires
        1 <= e.width,
        1 <= e.height,
        path_ok(e, p),
    ensures
        path_cost(e, seam_path(e), e.height - 1) <= path_cost(e, p, e.height - 1),
{
    lemma_seam_cost(e, e.height - 1);
    lemma_cum_energy_minimal(e, p, e.height - 1);
    lemma_bottom_best_minimal(e, e.width as int, p[e.height - 1]);
}

/// One cell of the dynamic-programming surface: the cumulative energy of
/// the cheapest path ending here, and the chosen predecessor column in the
/// row above (none in the top row).
#[derive(Clone, Copy)]
struct SeamCell {
    energy: u128,
    prev: Option<usize>,
}

/// The dynamic-programming surface: one cell per pixel, row-major.
struct SeamGrid {
    width: usize,
    height: usize,
    cells: Vec<SeamCell>,
}

/// The cell at `(x, y)` carries the cumulative energy of `(x, y)` and, below
/// the top row, the chosen predecessor column.
spec fn cell_ok(e: EnergyView, cells: Seq<SeamCell>, x: int, y: int) -> bool {
    let c = cells[y * e.width + x];
    &&& c.energy == cum_energy(e, x, y)
    &&& c.prev == (if y == 0 {
        Option::<usize>::None
    } else {
        Option::Some(prev_col(e, x, y) as usize)
    })
}

impl SeamGrid {
    fn new(width: usize, height: usize, n: usize) -> (g: SeamGrid)
        requires
            n == width * height,
        ensures
            g.width == width,
            g.height == height,
            g.cells@.len() == n,
    {
        let mut cells: Vec<SeamCell> = Vec::new();
        for i in 0..n
            invariant
                cells@.len() == i,
        {
            cells.push(SeamCell { energy: 0, prev: None });
        }
        SeamGrid { width, height, cells }
    }

    fn get(&self, x: usize, y: usize) -> (c: SeamCell)
        requires
            x < self.width,
            y < self.height,
            self.cells@.len() == self.width * self.height,
        ensures
            c == self.cells@[y as int * self.width as int + x as int],
    {
        proof {
            lemma_row_major_index(self.width as int, self.height as int, x as int, y as int);
        }
        let n = self.cells.len();
        assert(y * self.width + x < n);
        self.cells[y * self.width + x]
    }

    fn set(&mut self, x: usize, y: usize, c: SeamCell)
        requires
            x < old(self).width,
            y < old(self).height,
            old(self).cells@.len() == old(self).width * old(self).height,
        ensures
            final(self).width == old(self).width,
            final(self).height == old(self).height,
            0 <= y as int * old(self).width as int + x as int,
            (y as int * old(self).width as int + x as int) < old(self).cells@.len(),
            final(self).cells@.len() == old(self).cells@.len(),
            final(self).cells@ == old(self).cells@.update(
                y as int * old(self).width as int + x as int,
                c,
            ),
    {
        let n = self.cells.len();
        proof {
            lemma_row_major_index(self.width as int, self.height as int, x as int, y as int);
        }
        assert(y * self.width + x < n);
        self.cells[y * self.width + x] = c;
    }
}

/// The lowest-cumulative-energy vertical seam of the map, one coordinate per
/// row, found by the row-by-row dynamic program and a walk back up the
/// chosen predecessors. A map with no columns yields an empty seam.
#[verifier::loop_isolation(false)]
pub fn find_low_energy_seam(em: &EnergyMap) -> (s: Seam)
    ensures
        em@.width > 0 ==> s@ == seam_of(em@),
        em@.width > 0 ==> s@.len() == em@.height,
        em@.width == 0 ==> s@.len() == 0,
        forall|y: int| 0 <= y < s@.len() ==> (s@[y] as int) < em@.width,
{
    let w = em.width();
    let h = em.height();
    let ghost e = em@;
    if w == 0 || h == 0 {
        let xs: Vec<usize> = Vec::new();
        proof {
            if w > 0 {
                assert(xs@ =~= seam_of(e));
            }
        }
        return Seam { xs };
    }
    let n = em.num_values();
    let mut grid = SeamGrid::new(w, h, n);
    // Top row: each cell's cumulative energy is its own value, no back-pointer.
    for x in 0..w
        invariant
            grid.width == w,
            grid.height == h,
            grid.cells@.len() == n,
            forall|j: int| 0 <= j < x ==> cell_ok(e, grid.cells@, j, 0),
    {
        let ghost before = grid.cells@;
        grid.set(x, 0, SeamCell { energy: em.get(x, 0) as u128, prev: None });
        proof {
            assert forall|j: int| 0 <= j < x + 1 implies cell_ok(e, grid.cells@, j, 0) by {
                assert((0 as int) * (e.width as int) == 0) by (nonlinear_arith);
                assert((0 as int) * (w as int) == 0) by (nonlinear_arith);
                lemma_row_major_index(w as int, h as int, j, 0);
                if j < x {
                    assert(cell_ok(e, before, j, 0));
                    assert(grid.cells@[j] == before[j]);
                }
            }
        }
    }
    // Each later row: choose the cheaper of the two allowed predecessors,
    // `x - 1` examined before `x`, and add the cell's own value.
    for y in 1..h
        invariant
            grid.width == w,
            grid.height == h,
            grid.cells@.len() == n,
            forall|yy: int, xx: int|
                0 <= yy < y && 0 <= xx < w ==> cell_ok(e, grid.cells@, xx, yy),
    {
        for x in 0..w
            invariant
                grid.width == w,
                grid.height == h,
                grid.cells@.len() == n,
                forall|yy: int, xx: int|
                    0 <= yy < y && 0 <= xx < w ==> cell_ok(e, grid.cells@, xx, yy),
                forall|xx: int| 0 <= xx < x ==> cell_ok(e, grid.cells@, xx, y as int),
        {
            let above = grid.get(x, y - 1).energy;
            let (px, pe): (usize, u128) = if x == 0 {
                (x, above)
            } else {
                let left = grid.get(x - 1, y - 1).energy;
                if above < left {
                    (x, above)
                } else {
                    (x - 1, left)
                }
            };
            proof {
                assert(cell_ok(e, grid.cells@, x as int, y as int - 1));
                if x > 0 {
                    assert(cell_ok(e, grid.cells@, x as int - 1, y as int - 1));
                }
                assert(px as int == prev_col(e, x as int, y as int));
                lemma_cum_energy_bounds(e, px as int, y as int - 1);
                lemma_cum_energy_step(e, x as int, y as int);
            }
            let val = pe + em.get(x, y) as u128;
            let ghost before = grid.cells@;
            grid.set(x, y, SeamCell { energy: val, prev: Some(px) });
            proof {
                assert forall|yy: int, xx: int|
                    (0 <= yy < y && 0 <= xx < w) || (yy == y && 0 <= xx < x + 1) implies cell_ok(
                    e,
                    grid.cells@,
                    xx,
                    yy,
                ) by {
                    lemma_row_major_index(w as int, h as int, xx, yy);
                    lemma_row_major_index(w as int, h as int, x as int, y as int);
                    if yy != y || xx != x {
                        if yy * (w as int) + xx == y as int * (w as int) + x {
                            lemma_row_major_injective(w as int, xx, yy, x as int, y as int);
                            assert(false);
                        }
                        assert(cell_ok(e, before, xx, yy));
                        assert(grid.cells@[yy * (w as int) + xx] == before[yy * (w as int) + xx]);
                    }
                }
            }
        }
    }
    // The seam's bottom endpoint: the least cumulative energy in the final
    // row, the leftmost occurrence on ties.
    let mut best: usize = 0;
    let mut best_e: u128 = grid.get(0, h - 1).energy;
    proof {
        assert(cell_ok(e, grid.cells@, 0, h as int - 1));
    }
    for x in 1..w
        invariant
            best < x,
            best as int == bottom_best(e, x as int),
            best_e == cum_energy(e, best as int, h as int - 1),
    {
        let cand = grid.get(x, h - 1).energy;
        proof {
            assert(cell_ok(e, grid.cells@, x as int, h as int - 1));
        }
        if cand < best_e {
            best = x;
            best_e = cand;
        }
    }
    proof {
        assert(best as int == seam_col(e, h as int - 1));
    }
    // Walk the back-pointers upward, recording one column per row.
    let mut rev: Vec<usize> = Vec::new();
    let mut cx = best;
    let mut y = h;
    while y > 0
        invariant
            y <= h,
            rev@.len() == h - y,
            y >= 1 ==> cx as int == seam_col(e, y as int - 1) && cx < w,
            forall|k: int| 0 <= k < h - y ==> rev@[k] as int == seam_col(e, h as int - 1 - k),
        decreases y,
    {
        y = y - 1;
        rev.push(cx);
        if y > 0 {
            proof {
                lemma_seam_col_in_range(e, y as int);
            }
            let c = grid.get(cx, y);
            proof {
                assert(cell_ok(e, grid.cells@, cx as int, y as int));
            }
            cx = match c.prev {
                Some(v) => v,
                None => 0,
            };
            proof {
                lemma_seam_col_in_range(e, y as int - 1);
            }
        }
    }
    // The walk recorded bottom-up; lay the columns out top-down.
    let mut xs: Vec<usize> = Vec::new();
    for yy in 0..h
        invariant
            rev@.len() == h,
            forall|k: int| 0 <= k < h ==> rev@[k] as int == seam_col(e, h as int - 1 - k),
            xs@.len() == yy,
            forall|j: int| 0 <= j < yy ==> xs@[j] as int == seam_col(e, j),
    {
        xs.push(rev[h - 1 - yy]);
    }
    proof {
        assert forall|j: int| 0 <= j < h implies xs@[j] == seam_of(e)[j] by {
            lemma_seam_col_in_range(e, j);
        }
        assert(xs@ =~= seam_of(e));
        assert forall|j: int| 0 <= j < h implies (xs@[j] as int) < em@.width by {
            lemma_seam_col_in_range(e, j);
        }
    }
    Seam { xs }
}

/// A vertical seam, stored as the column removed from each row.
#[derive(Debug)]
pub struct Seam {
    xs: Vec<usize>,
}

impl View for Seam {
    type V = Seq<usize>;

    closed spec fn view(&self) -> Seq<usize> {
        self.xs@
    }
}

impl Seam {
    /// Builds a seam from its per-row columns.
    pub fn from_columns(xs: Vec<usize>) -> (s: Seam)
        ensures
            s@ == xs@,
    {
        Seam { xs }
    }

    /// How many rows the seam covers.
    pub fn len(&self) -> (n: usize)
        ensures
            n == self@.len(),
    {
        self.xs.len()
    }

    /// The column the seam removes from row `y`.
    pub fn column(&self, y: usize) -> (x: usize)
        requires
            y < self@.len(),
        ensures
            x == self@[y as int],
    {
        self.xs[y]
    }
}

} // verus!

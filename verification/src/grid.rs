//! The occupancy grid: a height x width boolean matrix. A cell is
//! true while it lies inside the shape silhouette and has not yet
//! been claimed by a placed word.

use vstd::prelude::*;

verus! {

/// Number of true cells in one row.
pub open spec fn count_row(row: Seq<bool>) -> nat
    decreases row.len(),
{
    if row.len() == 0 {
        0
    } else {
        count_row(row.drop_last()) + if row.last() {
            1nat
        } else {
            0nat
        }
    }
}

/// Number of true cells in a sequence of rows.
pub open spec fn count_grid(rows: Seq<Seq<bool>>) -> nat
    decreases rows.len(),
{
    if rows.len() == 0 {
        0
    } else {
        count_grid(rows.drop_last()) + count_row(rows.last())
    }
}

pub struct OccupancyGrid {
    pub rows: Vec<Vec<bool>>,
    pub width: usize,
    pub height: usize,
}

impl OccupancyGrid {
    /// Shape of the matrix: `height` rows of `width` cells each, with
    /// a total cell count that a `usize` can hold.
    pub open spec fn wf(&self) -> bool {
        &&& self.rows@.len() == self.height
        &&& forall|r: int| 0 <= r < self.rows@.len() ==> (#[trigger] self.rows@[r])@.len()
            == self.width
        &&& self.height * self.width <= usize::MAX
    }

    pub open spec fn spec_width(&self) -> usize {
        self.width
    }

    pub open spec fn spec_height(&self) -> usize {
        self.height
    }

    /// The matrix as a sequence of rows.
    pub open spec fn grid_seq(&self) -> Seq<Seq<bool>> {
        self.rows@.map_values(|v: Vec<bool>| v@)
    }

    /// The cell in row `r`, column `c`.
    pub open spec fn cell(&self, r: int, c: int) -> bool {
        self.grid_seq()[r][c]
    }

    /// Number of true cells of the whole grid.
    pub open spec fn spec_count(&self) -> nat {
        count_grid(self.grid_seq())
    }

    pub fn width(&self) -> (w: usize)
        ensures
            w == self.spec_width(),
    {
        self.width
    }

    pub fn height(&self) -> (h: usize)
        ensures
            h == self.spec_height(),
    {
        self.height
    }

    /// A fresh grid with every cell false.
    pub fn new(height: usize, width: usize) -> (g: OccupancyGrid)
        requires
            height * width <= usize::MAX,
        ensures
            g.wf(),
            g.spec_height() == height,
            g.spec_width() == width,
            forall|r: int, c: int|
                0 <= r < height && 0 <= c < width ==> !g.cell(r, c),
    {
        let mut rows: Vec<Vec<bool>> = Vec::new();
        let mut r: usize = 0;
        while r < height
            invariant
                r <= height,
                rows@.len() == r,
                forall|i: int| 0 <= i < r ==> (#[trigger] rows@[i])@.len() == width,
                forall|i: int, j: int|
                    0 <= i < r && 0 <= j < width ==> !(#[trigger] rows@[i]@[j]),
            decreases height - r,
        {
            let mut row: Vec<bool> = Vec::new();
            let mut c: usize = 0;
            while c < width
                invariant
                    c <= width,
                    row@.len() == c,
                    forall|j: int| 0 <= j < c ==> !(#[trigger] row@[j]),
                decreases width - c,
            {
                row.push(false);
                c = c + 1;
            }
            rows.push(row);
            r = r + 1;
        }
        OccupancyGrid { rows, width, height }
    }

    pub fn get(&self, r: usize, c: usize) -> (v: bool)
        requires
            self.wf(),
            r < self.spec_height(),
            c < self.spec_width(),
        ensures
            v == self.cell(r as int, c as int),
    {
        self.rows[r][c]
    }

    pub fn set(&mut self, r: usize, c: usize, v: bool)
        requires
            old(self).wf(),
            r < old(self).spec_height(),
            c < old(self).spec_width(),
        ensures
            final(self).wf(),
            final(self).spec_height() == old(self).spec_height(),
            final(self).spec_width() == old(self).spec_width(),
            final(self).cell(r as int, c as int) == v,
            forall|i: int, j: int|
                0 <= i < old(self).spec_height() && 0 <= j < old(self).spec_width() && !(i == r
                    && j == c) ==> final(self).cell(i, j) == old(self).cell(i, j),
    {
        let row = &mut self.rows[r];
        row.set(c, v);
    }

    /// Number of true cells, by a full scan.
    pub fn count_true(&self) -> (n: usize)
        requires
            self.wf(),
        ensures
            n == self.spec_count(),
    {
        let ghost rows = self.grid_seq();
        let mut n: usize = 0;
        let mut r: usize = 0;
        proof {
            assert(rows.take(0) =~= Seq::<Seq<bool>>::empty());
        }
        while r < self.height
            invariant
                self.wf(),
                rows == self.grid_seq(),
                r <= self.height,
                n == count_grid(rows.take(r as int)),
                n <= r * self.width,
            decreases self.height - r,
        {
            let ghost row = rows[r as int];
            let mut c: usize = 0;
            let mut rowcount: usize = 0;
            proof {
                assert(row.take(0) =~= Seq::<bool>::empty());
            }
            while c < self.width
                invariant
                    self.wf(),
                    rows == self.grid_seq(),
                    r < self.height,
                    row == rows[r as int],
                    c <= self.width,
                    rowcount == count_row(row.take(c as int)),
                    rowcount <= c,
                decreases self.width - c,
            {
                proof {
                    assert(row.take(c + 1).drop_last() =~= row.take(c as int));
                    assert(row.take(c + 1).last() == row[c as int]);
                }
                if self.rows[r][c] {
                    rowcount = rowcount + 1;
                }
                c = c + 1;
            }
            proof {
                assert(row.take(self.width as int) =~= row);
                assert(rows.take(r + 1).drop_last() =~= rows.take(r as int));
                assert(rows.take(r + 1).last() == rows[r as int]);
                assert(n + rowcount <= r * self.width + self.width);
                assert((r + 1) * self.width == r * self.width + self.width) by (nonlinear_arith);
                lemma_mul_le(r + 1, self.height as int, self.width as int);
            }
            n = n + rowcount;
            r = r + 1;
        }
        proof {
            assert(rows.take(self.height as int) =~= rows);
        }
        n
    }
}

/// Multiplying by a common non-negative factor keeps the order.
pub proof fn lemma_mul_le(a: int, b: int, w: int)
    requires
        0 <= a <= b,
        0 <= w,
    ensures
        a * w <= b * w,
{
    vstd::arithmetic::mul::lemma_mul_inequality(a, b, w);
}

/// Shape facts about the row sequence of a well-formed grid.
pub proof fn lemma_grid_seq_shape(g: &OccupancyGrid)
    requires
        g.wf(),
    ensures
        g.grid_seq().len() == g.spec_height(),
        forall|r: int|
            0 <= r < g.grid_seq().len() ==> (#[trigger] g.grid_seq()[r]).len() == g.spec_width(),
{
    assert forall|r: int|
        0 <= r < g.grid_seq().len() implies (#[trigger] g.grid_seq()[r]).len()
        == g.spec_width() by {
        assert(g.grid_seq()[r] == g.rows@[r]@);
    }
}

/// A well-formed grid with every cell false has a zero count.
pub proof fn lemma_count_zero(g: &OccupancyGrid)
    requires
        g.wf(),
        forall|r: int, c: int|
            0 <= r < g.spec_height() && 0 <= c < g.spec_width() ==> !g.cell(r, c),
    ensures
        g.spec_count() == 0,
{
    lemma_grid_seq_shape(g);
    let rows = g.grid_seq();
    assert forall|r: int, c: int|
        0 <= r < rows.len() && 0 <= c < rows[r].len() implies !(#[trigger] rows[r][c]) by {
        assert(!g.cell(r, c));
    }
    lemma_count_grid_zero(rows);
}

/// A grid whose true cells all are true in another grid of the same
/// shape has no more true cells than it.
pub proof fn lemma_count_le_of_subset(a: &OccupancyGrid, b: &OccupancyGrid)
    requires
        a.wf(),
        b.wf(),
        a.spec_height() == b.spec_height(),
        a.spec_width() == b.spec_width(),
        forall|r: int, c: int|
            0 <= r < a.spec_height() && 0 <= c < a.spec_width() && a.cell(r, c) ==> b.cell(r, c),
    ensures
        a.spec_count() <= b.spec_count(),
{
    lemma_grid_seq_shape(a);
    lemma_grid_seq_shape(b);
    let ra = a.grid_seq();
    let rb = b.grid_seq();
    assert forall|r: int, c: int|
        0 <= r < ra.len() && 0 <= c < ra[r].len() && (#[trigger] ra[r][c]) implies rb[r][c] by {
        assert(a.cell(r, c));
        assert(b.cell(r, c));
    }
    lemma_count_grid_le(ra, rb);
}

/// A well-formed grid holds at most height x width true cells.
pub proof fn lemma_count_le_total(g: &OccupancyGrid)
    requires
        g.wf(),
    ensures
        g.spec_count() <= g.spec_height() * g.spec_width(),
{
    lemma_grid_seq_shape(g);
    lemma_count_grid_le_total(g.grid_seq(), g.spec_width() as int);
}

/// A row holds at most as many true cells as it has cells.
pub proof fn lemma_count_row_le_len(row: Seq<bool>)
    ensures
        count_row(row) <= row.len(),
    decreases row.len(),
{
    if row.len() > 0 {
        lemma_count_row_le_len(row.drop_last());
    }
}

/// A grid of equal-width rows holds at most rows x width true cells.
pub proof fn lemma_count_grid_le_total(rows: Seq<Seq<bool>>, width: int)
    requires
        forall|r: int| 0 <= r < rows.len() ==> (#[trigger] rows[r]).len() == width,
    ensures
        count_grid(rows) <= rows.len() * width,
    decreases rows.len(),
{
    if rows.len() > 0 {
        lemma_count_grid_le_total(rows.drop_last(), width);
        lemma_count_row_le_len(rows.last());
        assert(rows.len() * width == (rows.len() - 1) * width + width) by (nonlinear_arith);
    }
}

/// An all-false grid has no true cells.
pub proof fn lemma_count_grid_zero(rows: Seq<Seq<bool>>)
    requires
        forall|r: int, c: int|
            0 <= r < rows.len() && 0 <= c < rows[r].len() ==> !(#[trigger] rows[r][c]),
    ensures
        count_grid(rows) == 0,
    decreases rows.len(),
{
    if rows.len() > 0 {
        lemma_count_grid_zero(rows.drop_last());
        lemma_count_row_zero(rows.last());
    }
}

/// An all-false row has no true cells.
pub proof fn lemma_count_row_zero(row: Seq<bool>)
    requires
        forall|c: int| 0 <= c < row.len() ==> !(#[trigger] row[c]),
    ensures
        count_row(row) == 0,
    decreases row.len(),
{
    if row.len() > 0 {
        lemma_count_row_zero(row.drop_last());
    }
}

/// A row that is pointwise implied has no more true cells.
pub proof fn lemma_count_row_le(a: Seq<bool>, b: Seq<bool>)
    requires
        a.len() == b.len(),
        forall|i: int| 0 <= i < a.len() && a[i] ==> b[i],
    ensures
        count_row(a) <= count_row(b),
    decreases a.len(),
{
    if a.len() > 0 {
        lemma_count_row_le(a.drop_last(), b.drop_last());
    }
}

/// A grid that is pointwise implied has no more true cells.
pub proof fn lemma_count_grid_le(a: Seq<Seq<bool>>, b: Seq<Seq<bool>>)
    requires
        a.len() == b.len(),
        forall|r: int| 0 <= r < a.len() ==> (#[trigger] a[r]).len() == b[r].len(),
        forall|r: int, c: int|
            0 <= r < a.len() && 0 <= c < a[r].len() && (#[trigger] a[r][c]) ==> b[r][c],
    ensures
        count_grid(a) <= count_grid(b),
    decreases a.len(),
{
    if a.len() > 0 {
        lemma_count_grid_le(a.drop_last(), b.drop_last());
        lemma_count_row_le(a.last(), b.last());
    }
}

} // verus!

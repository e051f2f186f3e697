use vstd::prelude::*;
use crate::cell::Cell;

verus! {

/// The mathematical content of a surface: `cells[y][x]` is the cell in
/// column `x` of row `y`.
pub struct Canvas {
    pub cols: nat,
    pub rows: nat,
    pub cells: Seq<Seq<Cell>>,
}

impl Canvas {
    /// Every row holds exactly `cols` cells and there are `rows` rows.
    pub open spec fn wf(self) -> bool {
        &&& self.cells.len() == self.rows
        &&& forall|y: int| 0 <= y < self.rows ==> (#[trigger] self.cells[y]).len() == self.cols
    }

    pub open spec fn in_bounds(self, x: int, y: int) -> bool {
        0 <= x < self.cols && 0 <= y < self.rows
    }

    pub open spec fn at(self, x: int, y: int) -> Cell {
        self.cells[y][x]
    }

    /// The canvas with the cell at column `x`, row `y` replaced by `c`.
    pub open spec fn with_cell(self, x: int, y: int, c: Cell) -> Canvas {
        Canvas { cells: self.cells.update(y, self.cells[y].update(x, c)), ..self }
    }

    /// Two canvases of the same shape with the same cell everywhere.
    pub open spec fn same_cells(self, other: Canvas) -> bool {
        &&& self.cols == other.cols
        &&& self.rows == other.rows
        &&& forall|x: int, y: int| self.in_bounds(x, y) ==> #[trigger] self.at(x, y) == other.at(x, y)
    }
}

/// Two well-formed canvases that agree on every cell are equal.
pub proof fn lemma_same_cells_eq(a: Canvas, b: Canvas)
    requires
        a.wf(),
        b.wf(),
        a.same_cells(b),
    ensures
        a == b,
{
    assert forall|y: int| 0 <= y < a.rows implies #[trigger] a.cells[y] == b.cells[y] by {
        assert forall|x: int| 0 <= x < a.cols implies a.cells[y][x] == b.cells[y][x] by {
            assert(a.at(x, y) == b.at(x, y));
        }
        assert(a.cells[y] =~= b.cells[y]);
    }
    assert(a.cells =~= b.cells);
}

/// An addressable grid of cells, `cols` wide and `rows` high.
pub struct Surface {
    cols: usize,
    rows: usize,
    grid: Vec<Vec<Cell>>,
}

impl View for Surface {
    type V = Canvas;

    closed spec fn view(&self) -> Canvas {
        Canvas {
            cols: self.cols as nat,
            rows: self.rows as nat,
            cells: self.grid@.map_values(|row: Vec<Cell>| row@),
        }
    }
}

impl Surface {
    /// Its shape is consistent and each side is short enough to be a vector's length.
    pub open spec fn wf(&self) -> bool {
        &&& self@.wf()
        &&& self@.cols <= isize::MAX
        &&& self@.rows <= isize::MAX
    }

    /// A surface of the given shape with every cell equal to `blank`.
    pub fn new(cols: usize, rows: usize, blank: Cell) -> (r: Surface)
        requires
            cols <= isize::MAX,
            rows <= isize::MAX,
        ensures
            r.wf(),
            r@.cols == cols,
            r@.rows == rows,
            forall|x: int, y: int| r@.in_bounds(x, y) ==> #[trigger] r@.at(x, y) == blank,
    {
        let mut grid: Vec<Vec<Cell>> = Vec::new();
        let mut y: usize = 0;
        while y < rows
            invariant
                y <= rows,
                grid@.len() == y,
                forall|j: int| 0 <= j < y ==> (#[trigger] grid@[j])@.len() == cols,
                forall|j: int, x: int| 0 <= j < y && 0 <= x < cols ==> #[trigger] grid@[j]@[x] == blank,
            decreases rows - y,
        {
            let mut row: Vec<Cell> = Vec::new();
            let mut x: usize = 0;
            while x < cols
                invariant
                    x <= cols,
                    row@.len() == x,
                    forall|i: int| 0 <= i < x ==> #[trigger] row@[i] == blank,
                decreases cols - x,
            {
                row.push(blank);
                x = x + 1;
            }
            grid.push(row);
            y = y + 1;
        }
        let r = Surface { cols, rows, grid };
        assert forall|x: int, y: int| r@.in_bounds(x, y) implies #[trigger] r@.at(x, y) == blank by {
            assert(r.grid@[y]@[x] == blank);
        }
        r
    }

    pub fn cols(&self) -> (r: usize)
        ensures
            r == self@.cols,
    {
        self.cols
    }

    pub fn rows(&self) -> (r: usize)
        ensures
            r == self@.rows,
    {
        self.rows
    }

    /// The cell at column `x`, row `y`, or `None` outside the grid.
    pub fn get(&self, x: usize, y: usize) -> (r: Option<Cell>)
        requires
            self.wf(),
        ensures
            r == (if self@.in_bounds(x as int, y as int) {
                Some(self@.at(x as int, y as int))
            } else {
                None
            }),
    {
        if x < self.cols && y < self.rows {
            assert(self@.cells[y as int] == self.grid@[y as int]@);
            Some(self.grid[y][x])
        } else {
            None
        }
    }

    /// Replaces the cell at column `x`, row `y`.
    pub fn set(&mut self, x: usize, y: usize, c: Cell)
        requires
            old(self).wf(),
            old(self)@.in_bounds(x as int, y as int),
        ensures
            final(self).wf(),
            final(self)@ == old(self)@.with_cell(x as int, y as int, c),
    {
        assert(self@.cells[y as int] == self.grid@[y as int]@);
        self.grid[y][x] = c;
        assert(self@.cells =~= old(self)@.with_cell(x as int, y as int, c).cells);
    }

    /// The cell at column `x`, row `y`, to be changed in place.
    pub fn get_mut(&mut self, x: usize, y: usize) -> (r: &mut Cell)
        requires
            old(self).wf(),
            old(self)@.in_bounds(x as int, y as int),
        ensures
            *r == old(self)@.at(x as int, y as int),
            final(self).wf(),
            final(self)@.same_cells(old(self)@.with_cell(x as int, y as int, *final(r))),
    {
        assert(self@.cells[y as int] == self.grid@[y as int]@);
        assert forall|j: int| 0 <= j < self.rows implies (#[trigger] self.grid@[j]@).len() == self.cols by {
            assert(self@.cells[j] == self.grid@[j]@);
        }
        let row = &mut self.grid[y];
        &mut row[x]
    }
}

} // verus!

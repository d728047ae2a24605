//! A rectangular grid stored as one flat vector, with verified bounds
//! handling for reads and writes.

use vstd::prelude::*;

verus! {

/// A `rows` x `cols` grid of cells, stored row-major in one vector.
#[derive(Clone, Debug)]
pub struct Grid<T> {
    pub cells: Vec<T>,
    pub rows: usize,
    pub cols: usize,
}

/// The flat index of cell (y, x) lies inside the grid's vector, and distinct
/// cells have distinct flat indices.
pub proof fn lemma_flat_index(y: int, x: int, rows: int, cols: int)
    requires
        0 <= y < rows,
        0 <= x < cols,
    ensures
        0 <= y * cols + x < rows * cols,
        y * cols <= (rows - 1) * cols,
{
    assert(0 <= y * cols + x < rows * cols && y * cols <= (rows - 1) * cols)
        by (nonlinear_arith)
        requires
            0 <= y < rows,
            0 <= x < cols,
    ;
}

/// Two distinct in-bounds cells map to distinct flat indices.
proof fn lemma_flat_index_injective(y1: int, x1: int, y2: int, x2: int, cols: int)
    requires
        0 <= x1 < cols,
        0 <= x2 < cols,
        y1 >= 0,
        y2 >= 0,
        !(y1 == y2 && x1 == x2),
    ensures
        y1 * cols + x1 != y2 * cols + x2,
{
    assert(y1 * cols + x1 != y2 * cols + x2)
        by (nonlinear_arith)
        requires
            0 <= x1 < cols,
            0 <= x2 < cols,
            y1 >= 0,
            y2 >= 0,
            !(y1 == y2 && x1 == x2),
    ;
}

impl<T: Copy> Grid<T> {
    /// The vector holds exactly one cell for every grid position.
    pub open spec fn wf(&self) -> bool {
        &&& self.rows >= 1
        &&& self.cols >= 1
        &&& self.rows * self.cols <= usize::MAX
        &&& self.cells@.len() == self.rows * self.cols
    }

    /// The cell at position (y, x).
    pub open spec fn at(&self, y: int, x: int) -> T
        recommends
            self.wf(),
            0 <= y < self.rows,
            0 <= x < self.cols,
    {
        self.cells@[y * self.cols + x]
    }

    /// A grid with every cell set to `init`.
    pub fn new(rows: usize, cols: usize, init: T) -> (r: Self)
        requires
            rows >= 1,
            cols >= 1,
            rows * cols <= usize::MAX,
        ensures
            r.wf(),
            r.rows == rows,
            r.cols == cols,
            forall|y: int, x: int| 0 <= y < rows && 0 <= x < cols ==> r.at(y, x) == init,
    {
        proof {
            lemma_flat_index(rows - 1, cols - 1, rows as int, cols as int);
        }
        let n = rows * cols;
        let mut cells: Vec<T> = Vec::new();
        let mut i: usize = 0;
        while i < n
            invariant
                i <= n,
                cells@.len() == i,
                forall|j: int| 0 <= j < i ==> cells@[j] == init,
            decreases n - i,
        {
            cells.push(init);
            i = i + 1;
        }
        let r = Self { cells, rows, cols };
        proof {
            assert forall|y: int, x: int| 0 <= y < rows && 0 <= x < cols implies r.at(y, x)
                == init by {
                lemma_flat_index(y, x, rows as int, cols as int);
            }
        }
        r
    }

    /// Read the cell at (y, x).
    pub fn get(&self, y: usize, x: usize) -> (r: T)
        requires
            self.wf(),
            y < self.rows,
            x < self.cols,
        ensures
            r == self.at(y as int, x as int),
    {
        proof {
            lemma_flat_index(y as int, x as int, self.rows as int, self.cols as int);
            lemma_flat_index(self.rows - 1, self.cols - 1, self.rows as int, self.cols as int);
        }
        self.cells[y * self.cols + x]
    }

    /// Write the cell at (y, x), leaving every other cell unchanged.
    pub fn set(&mut self, y: usize, x: usize, v: T)
        requires
            old(self).wf(),
            y < old(self).rows,
            x < old(self).cols,
        ensures
            final(self).wf(),
            final(self).rows == old(self).rows,
            final(self).cols == old(self).cols,
            final(self).at(y as int, x as int) == v,
            final(self).cells@ == old(self).cells@.update(y * old(self).cols + x, v),
            forall|y2: int, x2: int|
                0 <= y2 < old(self).rows && 0 <= x2 < old(self).cols && !(y2 == y && x2 == x)
                    ==> final(self).at(y2, x2) == old(self).at(y2, x2),
    {
        proof {
            lemma_flat_index(y as int, x as int, self.rows as int, self.cols as int);
            lemma_flat_index(self.rows - 1, self.cols - 1, self.rows as int, self.cols as int);
        }
        let idx = y * self.cols + x;
        self.cells[idx] = v;
        proof {
            assert forall|y2: int, x2: int|
                0 <= y2 < old(self).rows && 0 <= x2 < old(self).cols && !(y2 == y && x2
                    == x) implies self.at(y2, x2) == old(self).at(y2, x2) by {
                lemma_flat_index_injective(y2, x2, y as int, x as int, self.cols as int);
                lemma_flat_index(y2, x2, self.rows as int, self.cols as int);
            }
        }
    }
}

} // verus!

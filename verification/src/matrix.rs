//! The square grid that every pass reads and writes.

use vstd::prelude::*;
use vstd::arithmetic::div_mod::{lemma_fundamental_div_mod, lemma_fundamental_div_mod_converse};

verus! {

/// The element types a grid may hold: plain non-negative numbers. The
/// passes of this library work on grids of `u32`.
pub trait Number: Copy {

}

impl Number for u8 {

}

impl Number for u16 {

}

impl Number for u32 {

}

impl Number for u64 {

}

impl Number for usize {

}

/// A square grid of `size * size` cells, stored row by row.
#[derive(Clone, Debug)]
pub struct Vmatrix<T: Number> {
    pub size: usize,
    pub data: Vec<T>,
}

impl<T: Number> View for Vmatrix<T> {
    type V = Seq<T>;

    /// The cells in row-major order.
    open spec fn view(&self) -> Seq<T> {
        self.data@
    }
}

/// Flat index of the cell in row `row` and column `col` of a grid of width `n`.
pub open spec fn flat_index(n: int, row: int, col: int) -> int {
    row * n + col
}

/// Whether flat index `i` lies in the leftmost or the rightmost column of a
/// grid of width `n`.
pub open spec fn border_column(i: int, n: int) -> bool {
    i % n == 0 || i % n == n - 1
}

/// The flat index of a cell of the grid lies among the grid's `n * n` flat
/// indices, at or after the first of its row.
pub proof fn lemma_flat_index_in_range(n: int, row: int, col: int)
    requires
        0 <= row < n,
        0 <= col < n,
    ensures
        0 <= row * n <= flat_index(n, row, col) < n * n,
{
    assert(row * n + col < n * n) by (nonlinear_arith)
        requires
            0 <= row < n,
            0 <= col < n,
    ;
    assert(0 <= row * n) by (nonlinear_arith)
        requires
            0 <= row,
            0 <= n,
    ;
}

/// The cell in row `row` and column `col` has a flat index of its own, from
/// which the row and the column are had back by division; it lies in a
/// border column exactly if `col` is the first or the last column.
pub proof fn lemma_flat_index_splits(n: int, row: int, col: int)
    requires
        0 <= row < n,
        0 <= col < n,
    ensures
        0 <= flat_index(n, row, col) < n * n,
        flat_index(n, row, col) / n == row,
        flat_index(n, row, col) % n == col,
        border_column(flat_index(n, row, col), n) == (col == 0 || col == n - 1),
{
    lemma_flat_index_in_range(n, row, col);
    lemma_fundamental_div_mod_converse(flat_index(n, row, col), n, row, col);
}

/// Every flat index of a grid is that of the cell in row `i / n` and column
/// `i % n`.
pub proof fn lemma_flat_index_joins(n: int, i: int)
    requires
        n >= 1,
        0 <= i < n * n,
    ensures
        0 <= i / n < n,
        0 <= i % n < n,
        flat_index(n, i / n, i % n) == i,
{
    lemma_fundamental_div_mod(i, n);
    let row = i / n;
    let col = i % n;
    assert(n * row == row * n) by (nonlinear_arith);
    assert(0 <= col < n) by (nonlinear_arith)
        requires
            n >= 1,
            col == i % n,
    ;
    assert(0 <= row < n) by (nonlinear_arith)
        requires
            n >= 1,
            0 <= i < n * n,
            i == row * n + col,
            0 <= col < n,
    ;
}

impl<T: Number> Vmatrix<T> {
    /// A grid is well formed when it has at least one cell and exactly
    /// `size * size` of them.
    pub open spec fn wf(&self) -> bool {
        &&& self.size >= 1
        &&& self.data@.len() == self.size * self.size
    }

    /// Tells whether the grid is well formed.
    pub fn is_well_formed(&self) -> (well_formed: bool)
        ensures
            well_formed == self.wf(),
    {
        assert(self.data@.len() == self.data.len());
        match self.size.checked_mul(self.size) {
            Some(cells) => self.size >= 1 && self.data.len() == cells,
            None => false,
        }
    }

    /// Makes a grid of width `size` out of its cells.
    pub fn build(size: usize, new_data: Vec<T>) -> (grid: Vmatrix<T>)
        requires
            size >= 1,
            new_data@.len() == size * size,
        ensures
            grid.wf(),
            grid.size == size,
            grid@ == new_data@,
    {
        Vmatrix { size, data: new_data }
    }

    /// The cell at flat index `i`.
    pub fn get_flat(&self, i: usize) -> (cell: T)
        requires
            i < self@.len(),
        ensures
            cell == self@[i as int],
    {
        self.data[i]
    }

    /// The cell in row `row` and column `col`.
    pub fn get(&self, row: usize, col: usize) -> (cell: T)
        requires
            self.wf(),
            row < self.size,
            col < self.size,
        ensures
            cell == self@[flat_index(self.size as int, row as int, col as int)],
    {
        proof {
            lemma_flat_index_in_range(self.size as int, row as int, col as int);
            assert(self.data@.len() == self.data.len());
        }
        self.data[row * self.size + col]
    }

    /// Overwrites the cell at flat index `i`, and no other.
    pub fn set_flat(&mut self, i: usize, value: T)
        requires
            i < old(self)@.len(),
        ensures
            final(self).size == old(self).size,
            final(self)@ == old(self)@.update(i as int, value),
    {
        self.data.set(i, value);
    }

    /// Overwrites the cell in row `row` and column `col`, and no other.
    pub fn set(&mut self, row: usize, col: usize, value: T)
        requires
            old(self).wf(),
            row < old(self).size,
            col < old(self).size,
        ensures
            final(self).size == old(self).size,
            final(self)@ == old(self)@.update(
                flat_index(old(self).size as int, row as int, col as int),
                value,
            ),
    {
        proof {
            lemma_flat_index_in_range(self.size as int, row as int, col as int);
            assert(self.data@.len() == self.data.len());
        }
        let i: usize = row * self.size + col;
        self.data.set(i, value);
    }

    /// Tells whether flat index `i` lies in the leftmost or the rightmost
    /// column. Rows are not looked at.
    pub fn is_border_column(&self, i: usize) -> (border: bool)
        requires
            self.size >= 1,
        ensures
            border == border_column(i as int, self.size as int),
    {
        let column: usize = i % self.size;
        column == 0 || column == self.size - 1
    }
}

impl Vmatrix<u32> {
    /// A grid of width `size` with every cell zero.
    pub fn zeroed(size: usize) -> (grid: Vmatrix<u32>)
        requires
            size * size <= usize::MAX,
        ensures
            size >= 1 ==> grid.wf(),
            grid.size == size,
            grid@.len() == size * size,
            forall|i: int| 0 <= i < grid@.len() ==> grid@[i] == 0,
    {
        let cells: usize = size * size;
        let mut data: Vec<u32> = Vec::new();
        let mut i: usize = 0;
        while i < cells
            invariant
                i <= cells,
                data@.len() == i,
                forall|j: int| 0 <= j < i ==> data@[j] == 0,
            decreases cells - i,
        {
            data.push(0);
            i += 1;
        }
        Vmatrix { size, data }
    }
}

} // verus!

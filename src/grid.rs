//! Row-major grids and the values their cells hold.
use vstd::prelude::*;

verus! {

/// A rectangular grid stored row by row: the cell at `(row, column)` is
/// `cells[row * columns + column]`.
pub struct Grid<T> {
    pub rows: usize,
    pub columns: usize,
    pub cells: Vec<T>,
}

impl<T> Grid<T> {
    /// The grid holds exactly one value per cell.
    pub open spec fn well_formed(&self) -> bool {
        self.cells@.len() == self.rows * self.columns
    }

    /// The number of cells that the dimensions describe.
    pub open spec fn size(&self) -> int {
        self.rows * self.columns
    }

    /// The value at a position, if the position lies on the grid.
    pub fn get(&self, row: usize, column: usize) -> (r: Option<&T>)
        requires
            self.well_formed(),
        ensures
            row < self.rows && column < self.columns ==> r == Some(
                &self.cells@[cell_index(row as int, column as int, self.columns as int)],
            ),
            !(row < self.rows && column < self.columns) ==> r.is_none(),
    {
        if row < self.rows && column < self.columns {
            proof {
                lemma_cell_index_bounds(row as int, column as int, self.rows as int, self.columns as int);
                assert(row * self.columns + column < self.cells.len());
            }
            Some(&self.cells[row * self.columns + column])
        } else {
            None
        }
    }
}

/// The position in row-major order of the cell at `(row, column)`.
pub open spec fn cell_index(row: int, column: int, columns: int) -> int {
    row * columns + column
}

/// A cell on the grid has a position in `0 .. rows * columns`.
pub proof fn lemma_cell_index_bounds(row: int, column: int, rows: int, columns: int)
    requires
        0 <= row < rows,
        0 <= column < columns,
    ensures
        0 <= cell_index(row, column, columns) < rows * columns,
        cell_index(row, column, columns) + 1 <= rows * columns,
{
    assert(0 <= row * columns + column < rows * columns) by (nonlinear_arith)
        requires
            0 <= row < rows,
            0 <= column < columns,
    ;
}

/// Two cells on the grid share a position only if they are the same cell.
pub proof fn lemma_cell_index_injective(r1: int, c1: int, r2: int, c2: int, columns: int)
    requires
        0 <= r1,
        0 <= r2,
        0 <= c1 < columns,
        0 <= c2 < columns,
        cell_index(r1, c1, columns) == cell_index(r2, c2, columns),
    ensures
        r1 == r2,
        c1 == c2,
{
    if r1 < r2 {
        assert(r1 * columns + c1 < r2 * columns + c2) by (nonlinear_arith)
            requires
                r1 < r2,
                0 <= c1 < columns,
                0 <= c2,
        ;
    } else if r2 < r1 {
        assert(r2 * columns + c2 < r1 * columns + c1) by (nonlinear_arith)
            requires
                r2 < r1,
                0 <= c2 < columns,
                0 <= c1,
        ;
    }
}

/// What a cell of the back-link grid says about the next step of a path.
#[derive(Clone, Copy, Debug, PartialEq, Eq, Structural)]
pub enum PointerCell {
    /// The grid's NoData value: the cell lies outside the cost-distance domain.
    NoData,
    /// A value of zero or below: the cell is a source, where paths end.
    Terminal,
    /// A positive whole number, which should be one of the eight direction codes.
    Code(u64),
    /// A positive value that is not a whole number a code could be.
    Malformed,
}

/// Whether an output cell holds NoData or a count.
#[derive(Clone, Copy, Debug, PartialEq, Eq, Structural)]
pub enum Base {
    Zero,
    NoData,
}

/// The value of an output cell: the grid's NoData value when `base` is
/// `NoData` (with `count` zero), else the whole number `count`.
#[derive(Clone, Copy, Debug, PartialEq, Eq, Structural)]
pub struct OutputValue {
    pub base: Base,
    pub count: u64,
}

/// The NoData value itself.
pub open spec fn nodata_value() -> OutputValue {
    OutputValue { base: Base::NoData, count: 0 }
}

/// The value of a cell that a given number of paths pass through, and no more.
pub open spec fn count_value(count: u64) -> OutputValue {
    OutputValue { base: Base::Zero, count }
}

/// The value of cells that no path has reached: zero when zero is the
/// background, else NoData.
pub open spec fn background_value(zero_background: bool) -> OutputValue {
    if zero_background {
        count_value(0)
    } else {
        nodata_value()
    }
}

impl OutputValue {
    /// The NoData value.
    pub fn nodata() -> (r: OutputValue)
        ensures
            r == nodata_value(),
    {
        OutputValue { base: Base::NoData, count: 0 }
    }

    /// The background value for the chosen option.
    pub fn background(zero_background: bool) -> (r: OutputValue)
        ensures
            r == background_value(zero_background),
    {
        if zero_background {
            OutputValue { base: Base::Zero, count: 0 }
        } else {
            OutputValue::nodata()
        }
    }
}

} // verus!

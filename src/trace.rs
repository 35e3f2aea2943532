//! Following one destination's chain of pointers back to its source.
use vstd::prelude::*;

use crate::direction::{direction_of_code, Direction};
use crate::grid::{cell_index, lemma_cell_index_bounds, lemma_cell_index_injective, Grid, PointerCell};

verus! {

/// Why the chain from one destination could not be followed to a source.
#[derive(Clone, Copy, Debug, PartialEq, Eq, Structural)]
pub enum TraceError {
    /// A positive pointer that is none of the eight direction codes.
    CorruptPointer,
    /// A pointer that leads off the grid.
    OutOfBounds,
    /// The chain grew longer than the grid has cells, so it runs in a cycle.
    LoopDetected,
}

/// Whether `(row, column)` lies on a grid of the given dimensions.
pub open spec fn on_grid(row: int, column: int, rows: int, columns: int) -> bool {
    0 <= row < rows && 0 <= column < columns
}

/// The chain from `(row, column)`, as the positions of the cells it visits,
/// allowing it at most `fuel` cells. A cell whose pointer is NoData or a
/// source ends it; a corrupt pointer, a step off the grid, or running out
/// of fuel makes it fail.
pub open spec fn walk(
    pointers: Seq<PointerCell>,
    rows: int,
    columns: int,
    row: int,
    column: int,
    fuel: nat,
) -> Result<Seq<usize>, TraceError>
    decreases fuel,
{
    if fuel == 0 {
        Err(TraceError::LoopDetected)
    } else {
        let here = cell_index(row, column, columns);
        match pointers[here] {
            PointerCell::NoData | PointerCell::Terminal => Ok(seq![here as usize]),
            PointerCell::Malformed => Err(TraceError::CorruptPointer),
            PointerCell::Code(code) => match direction_of_code(code) {
                None => Err(TraceError::CorruptPointer),
                Some(d) => {
                    let next_row = row + d.row_delta();
                    let next_column = column + d.col_delta();
                    if !on_grid(next_row, next_column, rows, columns) {
                        Err(TraceError::OutOfBounds)
                    } else {
                        prepend(
                            seq![here as usize],
                            walk(pointers, rows, columns, next_row, next_column, (fuel - 1) as nat),
                        )
                    }
                },
            },
        }
    }
}

/// A path result with `front` put before the path, or the same error.
pub open spec fn prepend(front: Seq<usize>, r: Result<Seq<usize>, TraceError>) -> Result<
    Seq<usize>,
    TraceError,
> {
    match r {
        Ok(path) => Ok(front + path),
        Err(e) => Err(e),
    }
}

/// The trace from the cell at `(row, column)` of a back-link grid: its
/// chain, allowed as many cells as the grid has.
pub open spec fn trace_of(pointers: Seq<PointerCell>, rows: int, columns: int, row: int, column: int) -> Result<
    Seq<usize>,
    TraceError,
> {
    walk(pointers, rows, columns, row, column, (rows * columns) as nat)
}

/// The view of an executable trace result.
pub open spec fn path_view(r: Result<Vec<usize>, TraceError>) -> Result<Seq<usize>, TraceError> {
    match r {
        Ok(p) => Ok(p@),
        Err(e) => Err(e),
    }
}

/// The cell that the pointer at `(row, column)` leads to; the cell itself
/// where the pointer names no direction.
pub open spec fn next_position(pointers: Seq<PointerCell>, columns: int, row: int, column: int) -> (int, int) {
    match pointers[cell_index(row, column, columns)] {
        PointerCell::Code(code) => match direction_of_code(code) {
            Some(d) => (row + d.row_delta(), column + d.col_delta()),
            None => (row, column),
        },
        _ => (row, column),
    }
}

/// The cell reached from `(row, column)` after `steps` steps along the pointers.
pub open spec fn follow(pointers: Seq<PointerCell>, columns: int, row: int, column: int, steps: nat) -> (int, int)
    decreases steps,
{
    if steps == 0 {
        (row, column)
    } else {
        let next = next_position(pointers, columns, row, column);
        follow(pointers, columns, next.0, next.1, (steps - 1) as nat)
    }
}

/// A chain that reaches its end does so whatever fuel it was given.
pub proof fn lemma_walk_fuel_irrelevant(
    pointers: Seq<PointerCell>,
    rows: int,
    columns: int,
    row: int,
    column: int,
    fuel1: nat,
    fuel2: nat,
)
    requires
        walk(pointers, rows, columns, row, column, fuel1) is Ok,
        walk(pointers, rows, columns, row, column, fuel2) is Ok,
    ensures
        walk(pointers, rows, columns, row, column, fuel1) == walk(pointers, rows, columns, row, column, fuel2),
    decreases fuel1,
{
    let next = next_position(pointers, columns, row, column);
    if fuel1 > 0 && fuel2 > 0 {
        match pointers[cell_index(row, column, columns)] {
            PointerCell::Code(code) => {
                lemma_walk_fuel_irrelevant(pointers, rows, columns, next.0, next.1, (fuel1 - 1) as nat, (fuel2 - 1) as nat);
            },
            _ => {},
        }
    }
}

/// Every part of a chain that reaches its end is the chain from the cell it
/// starts at.
pub proof fn lemma_walk_suffix(
    pointers: Seq<PointerCell>,
    rows: int,
    columns: int,
    row: int,
    column: int,
    fuel: nat,
    steps: nat,
)
    requires
        on_grid(row, column, rows, columns),
        rows * columns <= usize::MAX,
        walk(pointers, rows, columns, row, column, fuel) is Ok,
        steps < walk(pointers, rows, columns, row, column, fuel)->Ok_0.len(),
    ensures
        ({
            let path = walk(pointers, rows, columns, row, column, fuel)->Ok_0;
            let at = follow(pointers, columns, row, column, steps);
            &&& on_grid(at.0, at.1, rows, columns)
            &&& steps < fuel
            &&& path[steps as int] as int == cell_index(at.0, at.1, columns)
            &&& walk(pointers, rows, columns, at.0, at.1, (fuel - steps) as nat) == Ok::<Seq<usize>, TraceError>(
                path.subrange(steps as int, path.len() as int),
            )
        }),
    decreases steps,
{
    let path = walk(pointers, rows, columns, row, column, fuel)->Ok_0;
    lemma_cell_index_bounds(row, column, rows, columns);
    if steps == 0 {
        assert(path.subrange(0, path.len() as int) =~= path);
    } else {
        let next = next_position(pointers, columns, row, column);
        let rest = walk(pointers, rows, columns, next.0, next.1, (fuel - 1) as nat);
        lemma_walk_suffix(pointers, rows, columns, next.0, next.1, (fuel - 1) as nat, (steps - 1) as nat);
        let tail = rest->Ok_0;
        assert(path =~= seq![path[0]] + tail);
        assert(path.subrange(steps as int, path.len() as int) =~= tail.subrange(
            steps - 1,
            tail.len() as int,
        ));
    }
}

/// A chain that reaches its end stays on the grid and visits no cell twice.
pub proof fn lemma_walk_distinct(
    pointers: Seq<PointerCell>,
    rows: int,
    columns: int,
    row: int,
    column: int,
    fuel: nat,
)
    requires
        on_grid(row, column, rows, columns),
        rows * columns <= usize::MAX,
        walk(pointers, rows, columns, row, column, fuel) is Ok,
    ensures
        walk(pointers, rows, columns, row, column, fuel)->Ok_0.no_duplicates(),
        forall|i: int|
            0 <= i < walk(pointers, rows, columns, row, column, fuel)->Ok_0.len()
                ==> (#[trigger] walk(pointers, rows, columns, row, column, fuel)->Ok_0[i]) < rows * columns,
    decreases fuel,
{
    let path = walk(pointers, rows, columns, row, column, fuel)->Ok_0;
    let here = cell_index(row, column, columns);
    lemma_cell_index_bounds(row, column, rows, columns);
    match pointers[here] {
        PointerCell::Code(code) => {
            let next = next_position(pointers, columns, row, column);
            let tail = walk(pointers, rows, columns, next.0, next.1, (fuel - 1) as nat)->Ok_0;
            lemma_walk_distinct(pointers, rows, columns, next.0, next.1, (fuel - 1) as nat);
            assert(path =~= seq![here as usize] + tail);
            assert forall|j: int| 0 <= j < tail.len() implies tail[j] != here as usize by {
                if tail[j] == here as usize {
                    lemma_walk_suffix(pointers, rows, columns, next.0, next.1, (fuel - 1) as nat, j as nat);
                    let at = follow(pointers, columns, next.0, next.1, j as nat);
                    lemma_cell_index_injective(at.0, at.1, row, column, columns);
                    lemma_walk_fuel_irrelevant(pointers, rows, columns, row, column, fuel, (fuel - 1 - j) as nat);
                    assert(path.len() == tail.len() - j);
                }
            }
        },
        _ => {},
    }
}

/// A chain of cells, each on the grid with a legal direction code and each
/// leading to the next, whose last cell leads back to the cell at `back`:
/// following the pointers from its first cell goes round for ever.
pub open spec fn runs_in_cycle(
    pointers: Seq<PointerCell>,
    rows: int,
    columns: int,
    chain: Seq<(int, int)>,
    back: int,
) -> bool {
    &&& 0 <= back < chain.len()
    &&& forall|i: int| 0 <= i < chain.len() ==> on_grid(#[trigger] chain[i].0, chain[i].1, rows, columns)
    &&& forall|i: int|
        0 <= i < chain.len() ==> match #[trigger] pointers[cell_index(chain[i].0, chain[i].1, columns)] {
            PointerCell::Code(code) => direction_of_code(code) is Some,
            _ => false,
        }
    &&& forall|i: int|
        0 <= i < chain.len() ==> #[trigger] next_position(pointers, columns, chain[i].0, chain[i].1) == if i
            + 1 < chain.len() {
            chain[i + 1]
        } else {
            chain[back]
        }
}

/// A walk from any cell of such a chain fails as a loop, whatever its fuel.
proof fn lemma_cycle_walk(
    pointers: Seq<PointerCell>,
    rows: int,
    columns: int,
    chain: Seq<(int, int)>,
    back: int,
    i: int,
    fuel: nat,
)
    requires
        runs_in_cycle(pointers, rows, columns, chain, back),
        0 <= i < chain.len(),
    ensures
        walk(pointers, rows, columns, chain[i].0, chain[i].1, fuel) == Err::<Seq<usize>, TraceError>(
            TraceError::LoopDetected,
        ),
    decreases fuel,
{
    if fuel > 0 {
        let j = if i + 1 < chain.len() {
            i + 1
        } else {
            back
        };
        assert(on_grid(chain[j].0, chain[j].1, rows, columns));
        assert(next_position(pointers, columns, chain[i].0, chain[i].1) == chain[j]);
        assert(match pointers[cell_index(chain[i].0, chain[i].1, columns)] {
            PointerCell::Code(code) => direction_of_code(code) is Some,
            _ => false,
        });
        lemma_cycle_walk(pointers, rows, columns, chain, back, j, (fuel - 1) as nat);
    }
}

/// Termination: where the pointers from a cell lead, through legal codes and
/// without leaving the grid, back to a cell already visited, the trace from
/// that cell fails with `LoopDetected` instead of running for ever;
/// `trace_path` gives up after as many steps as the grid has cells.
pub proof fn lemma_cycle_is_detected(backlink: Grid<PointerCell>, chain: Seq<(int, int)>, back: int)
    requires
        backlink.well_formed(),
        runs_in_cycle(backlink.cells@, backlink.rows as int, backlink.columns as int, chain, back),
    ensures
        trace_of(backlink.cells@, backlink.rows as int, backlink.columns as int, chain[0].0, chain[0].1)
            == Err::<Seq<usize>, TraceError>(TraceError::LoopDetected),
{
    lemma_cycle_walk(
        backlink.cells@,
        backlink.rows as int,
        backlink.columns as int,
        chain,
        back,
        0,
        (backlink.rows * backlink.columns) as nat,
    );
}

/// `index + delta`, if it lies in `0 .. limit`.
fn shifted(index: usize, delta: i8, limit: usize) -> (r: Option<usize>)
    requires
        -1 <= delta <= 1,
        index < limit,
    ensures
        0 <= index + delta < limit ==> r == Some((index + delta) as usize),
        index + delta < 0 || index + delta >= limit ==> r.is_none(),
{
    if delta < 0 {
        if index == 0 {
            None
        } else {
            Some(index - 1)
        }
    } else if delta > 0 {
        if limit - index < 2 {
            None
        } else {
            Some(index + 1)
        }
    } else if index < limit {
        Some(index)
    } else {
        None
    }
}

/// Follows the pointers from the cell at `(row, column)` until a source or
/// a NoData cell is reached, and returns the positions of the cells visited,
/// in order; or the reason the chain cannot be followed. At most as many
/// cells are visited as the grid has.
pub fn trace_path(backlink: &Grid<PointerCell>, row: usize, column: usize) -> (r: Result<
    Vec<usize>,
    TraceError,
>)
    requires
        backlink.well_formed(),
        row < backlink.rows,
        column < backlink.columns,
    ensures
        path_view(r) == trace_of(
            backlink.cells@,
            backlink.rows as int,
            backlink.columns as int,
            row as int,
            column as int,
        ),
{
    let rows = backlink.rows;
    let columns = backlink.columns;
    let ghost pointers = backlink.cells@;
    let ghost whole = trace_of(pointers, rows as int, columns as int, row as int, column as int);
    let mut path: Vec<usize> = Vec::new();
    let mut r: usize = row;
    let mut c: usize = column;
    let mut fuel: usize = backlink.cells.len();
    proof {
        assert(path@ + seq![] =~= seq![]);
        assert(prepend(path@, walk(pointers, rows as int, columns as int, r as int, c as int, fuel as nat)) == whole) by {
            match walk(pointers, rows as int, columns as int, r as int, c as int, fuel as nat) {
                Ok(p) => { assert(path@ + p =~= p); },
                Err(_) => {},
            }
        }
    }
    loop
        invariant
            backlink.well_formed(),
            rows == backlink.rows,
            columns == backlink.columns,
            pointers == backlink.cells@,
            whole == trace_of(pointers, rows as int, columns as int, row as int, column as int),
            backlink.cells@.len() == rows * columns,
            backlink.cells@.len() <= usize::MAX,
            r < rows,
            c < columns,
            whole == prepend(path@, walk(pointers, rows as int, columns as int, r as int, c as int, fuel as nat)),
        decreases fuel,
    {
        if fuel == 0 {
            return Err(TraceError::LoopDetected);
        }
        proof {
            lemma_cell_index_bounds(r as int, c as int, rows as int, columns as int);
            assert(r * columns + c < backlink.cells@.len());
        }
        let here = r * columns + c;
        let ghost before = path@;
        path.push(here);
        proof {
            assert(path@ =~= before + seq![here]);
        }
        match backlink.cells[here] {
            PointerCell::NoData | PointerCell::Terminal => {
                return Ok(path);
            },
            PointerCell::Malformed => {
                return Err(TraceError::CorruptPointer);
            },
            PointerCell::Code(code) => match Direction::from_code(code) {
                None => {
                    return Err(TraceError::CorruptPointer);
                },
                Some(d) => {
                    let (dr, dc) = d.offset();
                    let next_r = shifted(r, dr, rows);
                    let next_c = shifted(c, dc, columns);
                    match (next_r, next_c) {
                        (Some(nr), Some(nc)) => {
                            proof {
                                let rest = walk(pointers, rows as int, columns as int, nr as int, nc as int, (fuel - 1) as nat);
                                match rest {
                                    Ok(p) => { assert(before + (seq![here] + p) =~= (before + seq![here]) + p); },
                                    Err(_) => {},
                                }
                            }
                            r = nr;
                            c = nc;
                            fuel = fuel - 1;
                        },
                        _ => {
                            return Err(TraceError::OutOfBounds);
                        },
                    }
                },
            },
        }
    }
}

} // verus!

//! The scan over all cells: a trace from every destination, counted into an
//! output grid, and the cells outside the cost-distance domain set to NoData.
use vstd::prelude::*;

use crate::grid::{
    background_value, count_value, lemma_cell_index_bounds, nodata_value, Base, Grid, OutputValue,
    PointerCell,
};
use crate::trace::{lemma_walk_distinct, trace_of, trace_path, TraceError};

verus! {

/// A trace that failed, with the destination it started from.
#[derive(Clone, Copy, Debug, PartialEq, Eq, Structural)]
pub struct TraceFailure {
    pub row: usize,
    pub column: usize,
    pub error: TraceError,
}

/// Why no output could be made at all.
#[derive(Clone, Copy, Debug, PartialEq, Eq, Structural)]
pub enum PathwayError {
    /// The destination and back-link grids differ in size, or a grid does
    /// not hold one value per cell.
    InvalidInput,
}

/// The output of a scan: the accumulation grid, and every trace that
/// failed, in scan order.
pub struct Pathways {
    pub output: Grid<OutputValue>,
    pub failures: Vec<TraceFailure>,
}

/// The value of a cell after one more path passes through it: one if it
/// held the background value or NoData, else one more than its count.
pub open spec fn bump(v: OutputValue, background: OutputValue) -> OutputValue {
    if v == background || v.base is NoData {
        count_value(1)
    } else {
        count_value((v.count + 1) as u64)
    }
}

/// The output after bumping each cell of a path in turn.
pub open spec fn mark_path(out: Seq<OutputValue>, path: Seq<usize>, background: OutputValue) -> Seq<
    OutputValue,
>
    decreases path.len(),
{
    if path.len() == 0 {
        out
    } else {
        let at = path[0] as int;
        mark_path(out.update(at, bump(out[at], background)), path.drop_first(), background)
    }
}

/// Whether the scan starts a trace at position `s`: a destination whose own
/// pointer is not NoData.
pub open spec fn starts_trace(destination: Seq<bool>, pointers: Seq<PointerCell>, s: int) -> bool {
    destination[s] && !(pointers[s] is NoData)
}

/// The trace that the scan starts at position `s`.
pub open spec fn trace_at(pointers: Seq<PointerCell>, rows: int, columns: int, s: int) -> Result<
    Seq<usize>,
    TraceError,
> {
    trace_of(pointers, rows, columns, s / columns, s % columns)
}

/// The output grid's cells once the scan has handled the first `done` cells
/// in row-major order. A destination with a pointer of its own has its trace
/// counted, if the trace succeeds; a cell whose own pointer is NoData is set
/// to NoData when the scan reaches it, whatever traces put there before.
pub open spec fn scan_output(
    destination: Seq<bool>,
    pointers: Seq<PointerCell>,
    rows: int,
    columns: int,
    zero_background: bool,
    done: nat,
) -> Seq<OutputValue>
    decreases done,
{
    if done == 0 {
        Seq::new((rows * columns) as nat, |_i: int| background_value(zero_background))
    } else {
        let s = done - 1;
        let before = scan_output(destination, pointers, rows, columns, zero_background, (done - 1) as nat);
        if starts_trace(destination, pointers, s) {
            match trace_at(pointers, rows, columns, s) {
                Ok(path) => mark_path(before, path, background_value(zero_background)),
                Err(_) => before,
            }
        } else if pointers[s] is NoData {
            before.update(s, nodata_value())
        } else {
            before
        }
    }
}

/// The failed traces, in scan order, among the first `done` cells.
pub open spec fn scan_failures(
    destination: Seq<bool>,
    pointers: Seq<PointerCell>,
    rows: int,
    columns: int,
    done: nat,
) -> Seq<TraceFailure>
    decreases done,
{
    if done == 0 {
        seq![]
    } else {
        let s = done - 1;
        let before = scan_failures(destination, pointers, rows, columns, (done - 1) as nat);
        if starts_trace(destination, pointers, s) {
            match trace_at(pointers, rows, columns, s) {
                Ok(_) => before,
                Err(e) => before.push(
                    TraceFailure { row: (s / columns) as usize, column: (s % columns) as usize, error: e },
                ),
            }
        } else {
            before
        }
    }
}

/// Whether the two grids can be traced together.
pub open spec fn inputs_match(destination: Grid<bool>, backlink: Grid<PointerCell>) -> bool {
    &&& destination.well_formed()
    &&& backlink.well_formed()
    &&& destination.rows == backlink.rows
    &&& destination.columns == backlink.columns
}

/// Marking a path that visits no cell twice bumps each of its cells once and
/// leaves every other cell as it was.
pub proof fn lemma_mark_path(out: Seq<OutputValue>, path: Seq<usize>, background: OutputValue)
    requires
        path.no_duplicates(),
        forall|i: int| 0 <= i < path.len() ==> (#[trigger] path[i]) < out.len(),
        out.len() <= usize::MAX,
    ensures
        mark_path(out, path, background).len() == out.len(),
        forall|q: int|
            0 <= q < out.len() ==> (#[trigger] mark_path(out, path, background)[q]) == if path.contains(
                q as usize,
            ) {
                bump(out[q], background)
            } else {
                out[q]
            },
    decreases path.len(),
{
    if path.len() > 0 {
        let at = path[0] as int;
        let next = out.update(at, bump(out[at], background));
        let rest = path.drop_first();
        assert forall|i: int| 0 <= i < rest.len() implies rest[i] != path[0] by {
            assert(rest[i] == path[i + 1]);
        }
        lemma_mark_path(next, rest, background);
        assert forall|q: int| 0 <= q < out.len() implies (#[trigger] mark_path(out, path, background)[q])
            == if path.contains(q as usize) {
            bump(out[q], background)
        } else {
            out[q]
        } by {
            if q == at {
                assert(path.contains(q as usize)) by {
                    assert(path[0] == q as usize);
                }
                assert(!rest.contains(q as usize));
            } else {
                if path.contains(q as usize) {
                    let j = choose|j: int| 0 <= j < path.len() && path[j] == q as usize;
                    assert(j != 0);
                    assert(rest[j - 1] == q as usize);
                }
                if rest.contains(q as usize) {
                    let j = choose|j: int| 0 <= j < rest.len() && rest[j] == q as usize;
                    assert(path[j + 1] == q as usize);
                }
            }
        }
    }
}

/// Traces the pathway from every destination cell and counts, for each cell,
/// how many of them pass through it.
///
/// The cells are scanned in row-major order. A destination (a `true` cell of
/// `destination`) whose own back-link is not NoData starts a trace: each
/// cell along it goes from the background value or NoData to one, or else
/// up by one, unless the trace fails, which leaves the output as it was and is listed
/// among the failures. A cell whose own back-link is NoData is set to NoData
/// when the scan reaches it. Cells start at zero when `zero_background` is
/// set, else at NoData.
pub fn trace_pathways(destination: &Grid<bool>, backlink: &Grid<PointerCell>, zero_background: bool) -> (r:
    Result<Pathways, PathwayError>)
    ensures
        r is Err <==> !inputs_match(*destination, *backlink),
        r matches Err(e) ==> e == PathwayError::InvalidInput,
        r matches Ok(p) ==> scan_result(*destination, *backlink, zero_background, p),
{
    if destination.rows != backlink.rows || destination.columns != backlink.columns
        || destination.cells.len() != backlink.cells.len() {
        return Err(PathwayError::InvalidInput);
    }
    let rows = backlink.rows;
    let columns = backlink.columns;
    let n = backlink.cells.len();
    if rows.checked_mul(columns) != Some(n) {
        return Err(PathwayError::InvalidInput);
    }
    let ghost dest = destination.cells@;
    let ghost pointers = backlink.cells@;
    let background = OutputValue::background(zero_background);
    let mut out: Vec<OutputValue> = Vec::new();
    while out.len() < n
        invariant
            out@.len() <= n,
            forall|q: int| 0 <= q < out@.len() ==> out@[q] == background,
        decreases n - out@.len(),
    {
        out.push(background);
    }
    proof {
        assert(out@ =~= scan_output(dest, pointers, rows as int, columns as int, zero_background, 0));
    }
    let mut failures: Vec<TraceFailure> = Vec::new();
    let mut s: usize = 0;
    let mut row: usize = 0;
    while row < rows
        invariant
            row <= rows,
            n == rows * columns,
            dest == destination.cells@,
            pointers == backlink.cells@,
            dest.len() == n,
            pointers.len() == n,
            backlink.rows == rows,
            backlink.columns == columns,
            background == background_value(zero_background),
            s == row * columns,
            out@.len() == n,
            forall|q: int| 0 <= q < n ==> (#[trigger] out@[q]).count <= s,
            out@ == scan_output(dest, pointers, rows as int, columns as int, zero_background, s as nat),
            failures@ == scan_failures(dest, pointers, rows as int, columns as int, s as nat),
        decreases rows - row,
    {
        let mut column: usize = 0;
        while column < columns
            invariant
                row < rows,
                column <= columns,
                n == rows * columns,
                dest == destination.cells@,
                pointers == backlink.cells@,
                dest.len() == n,
                pointers.len() == n,
                backlink.rows == rows,
                backlink.columns == columns,
                background == background_value(zero_background),
                s == row * columns + column,
                out@.len() == n,
                forall|q: int| 0 <= q < n ==> (#[trigger] out@[q]).count <= s,
                out@ == scan_output(dest, pointers, rows as int, columns as int, zero_background, s as nat),
                failures@ == scan_failures(dest, pointers, rows as int, columns as int, s as nat),
            decreases columns - column,
        {
            proof {
                lemma_cell_index_bounds(row as int, column as int, rows as int, columns as int);
                vstd::arithmetic::div_mod::lemma_fundamental_div_mod_converse(
                    s as int,
                    columns as int,
                    row as int,
                    column as int,
                );
            }
            let ghost before = out@;
            if destination.cells[s] && !matches!(backlink.cells[s], PointerCell::NoData) {
                match trace_path(backlink, row, column) {
                    Ok(path) => {
                        proof {
                            lemma_walk_distinct(
                                pointers,
                                rows as int,
                                columns as int,
                                row as int,
                                column as int,
                                (rows * columns) as nat,
                            );
                            lemma_mark_path(before, path@, background);
                            assert((s as int) < u64::MAX);
                        }
                        mark(&mut out, &path, background);
                        proof {
                            assert forall|q: int| 0 <= q < n implies (#[trigger] out@[q]).count <= s + 1 by {
                                assert(before[q].count <= s);
                            }
                        }
                    },
                    Err(e) => {
                        failures.push(TraceFailure { row, column, error: e });
                    },
                }
            } else if matches!(backlink.cells[s], PointerCell::NoData) {
                out.set(s, OutputValue::nodata());
            }
            s = s + 1;
            column = column + 1;
        }
        proof {
            assert(s == (row + 1) * columns) by (nonlinear_arith)
                requires
                    s == row * columns + columns,
            ;
        }
        row = row + 1;
    }
    Ok(Pathways { output: Grid { rows, columns, cells: out }, failures })
}

/// What a complete scan of matching grids gives: an output of their size
/// holding the scanned values, and the failed traces.
pub open spec fn scan_result(
    destination: Grid<bool>,
    backlink: Grid<PointerCell>,
    zero_background: bool,
    result: Pathways,
) -> bool {
    let n = (backlink.rows * backlink.columns) as nat;
    &&& backlink.rows * backlink.columns <= usize::MAX
    &&& result.output.rows == destination.rows
    &&& result.output.columns == destination.columns
    &&& result.output.well_formed()
    &&& result.output.cells@ == scan_output(
        destination.cells@,
        backlink.cells@,
        backlink.rows as int,
        backlink.columns as int,
        zero_background,
        n,
    )
    &&& result.failures@ == scan_failures(
        destination.cells@,
        backlink.cells@,
        backlink.rows as int,
        backlink.columns as int,
        n,
    )
}

/// Bumps every cell of a path that visits no cell twice.
fn mark(out: &mut Vec<OutputValue>, path: &Vec<usize>, background: OutputValue)
    requires
        path@.no_duplicates(),
        forall|i: int| 0 <= i < path@.len() ==> (#[trigger] path@[i]) < old(out)@.len(),
        forall|q: int| 0 <= q < old(out)@.len() ==> (#[trigger] old(out)@[q]).count < u64::MAX,
    ensures
        final(out)@ == mark_path(old(out)@, path@, background),
{
    let ghost start = out@;
    let mut k: usize = 0;
    proof {
        assert(path@.subrange(0, path@.len() as int) =~= path@);
    }
    while k < path.len()
        invariant
            k <= path@.len(),
            out@.len() == start.len(),
            path@.no_duplicates(),
            forall|i: int| 0 <= i < path@.len() ==> (#[trigger] path@[i]) < start.len(),
            forall|q: int| 0 <= q < start.len() ==> (#[trigger] start[q]).count < u64::MAX,
            forall|i: int| k <= i < path@.len() ==> out@[#[trigger] path@[i] as int] == start[path@[i] as int],
            mark_path(out@, path@.subrange(k as int, path@.len() as int), background) == mark_path(
                start,
                path@,
                background,
            ),
        decreases path@.len() - k,
    {
        let at = path[k];
        let v = out[at];
        let nv = if v == background || matches!(v.base, Base::NoData) {
            OutputValue { base: Base::Zero, count: 1 }
        } else {
            OutputValue { base: Base::Zero, count: v.count + 1 }
        };
        let ghost before = out@;
        out.set(at, nv);
        proof {
            let rest = path@.subrange(k as int, path@.len() as int);
            assert(rest.drop_first() =~= path@.subrange(k + 1, path@.len() as int));
            assert forall|i: int| k + 1 <= i < path@.len() implies out@[#[trigger] path@[i] as int]
                == start[path@[i] as int] by {
                assert(path@[i] != path@[k as int]);
            }
        }
        k = k + 1;
    }
    proof {
        assert(path@.subrange(k as int, path@.len() as int) =~= seq![]);
    }
}

} // verus!

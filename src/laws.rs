//! What holds of every scan.
use vstd::prelude::*;

use crate::grid::{
    background_value, cell_index, count_value, nodata_value, Grid, OutputValue, PointerCell,
};
use crate::pathway::{
    bump, inputs_match, lemma_mark_path, scan_output, scan_result, starts_trace, trace_at,
    Pathways,
};
use crate::trace::{lemma_walk_distinct, on_grid};

verus! {

/// Whether the trace that the scan starts at position `s` succeeds and
/// passes through the cell at position `p`.
pub open spec fn passes_through(
    destination: Seq<bool>,
    pointers: Seq<PointerCell>,
    rows: int,
    columns: int,
    s: int,
    p: int,
) -> bool {
    starts_trace(destination, pointers, s) && match trace_at(pointers, rows, columns, s) {
        Ok(path) => path.contains(p as usize),
        Err(_) => false,
    }
}

/// How many of the traces that the scan starts among its first `done` cells
/// succeed and pass through the cell at position `p`.
pub open spec fn visits(
    destination: Seq<bool>,
    pointers: Seq<PointerCell>,
    rows: int,
    columns: int,
    p: int,
    done: nat,
) -> nat
    decreases done,
{
    if done == 0 {
        0
    } else {
        let here: nat = if passes_through(destination, pointers, rows, columns, done - 1, p) {
            1
        } else {
            0
        };
        visits(destination, pointers, rows, columns, p, (done - 1) as nat) + here
    }
}

/// Position `s` of a grid is the cell at `(s / columns, s % columns)`.
pub proof fn lemma_position(s: int, rows: int, columns: int)
    requires
        0 <= s < rows * columns,
        0 <= rows,
        0 <= columns,
    ensures
        on_grid(s / columns, s % columns, rows, columns),
        cell_index(s / columns, s % columns, columns) == s,
{
    if columns <= 0 {
        assert(rows * columns <= 0) by (nonlinear_arith)
            requires
                columns <= 0,
                0 <= rows,
        ;
    }
    vstd::arithmetic::div_mod::lemma_fundamental_div_mod(s, columns);
    vstd::arithmetic::div_mod::lemma_mod_bound(s, columns);
    vstd::arithmetic::div_mod::lemma_div_pos_is_pos(s, columns);
    let q = s / columns;
    let r = s % columns;
    assert(s == q * columns + r) by (nonlinear_arith)
        requires
            s == columns * q + r,
    ;
    if q >= rows {
        assert(q * columns >= rows * columns) by (nonlinear_arith)
            requires
                q >= rows,
                columns > 0,
        ;
    }
}

/// The grids as a scan sees them: one value per cell, positions that fit a
/// `usize`.
pub open spec fn scannable(destination: Seq<bool>, pointers: Seq<PointerCell>, rows: int, columns: int) -> bool {
    &&& 0 <= rows
    &&& 0 <= columns
    &&& rows * columns <= usize::MAX
    &&& destination.len() == rows * columns
    &&& pointers.len() == rows * columns
}

/// One step of the scan, cell by cell: handling position `s` bumps the cells
/// its trace passes through, sets `s` itself to NoData if its own pointer is
/// NoData and it starts no trace, and leaves every other cell as it was.
proof fn lemma_scan_step(
    destination: Seq<bool>,
    pointers: Seq<PointerCell>,
    rows: int,
    columns: int,
    zero_background: bool,
    s: int,
)
    requires
        scannable(destination, pointers, rows, columns),
        0 <= s < rows * columns,
        scan_output(destination, pointers, rows, columns, zero_background, s as nat).len() == rows * columns,
    ensures
        ({
            let before = scan_output(destination, pointers, rows, columns, zero_background, s as nat);
            let after = scan_output(destination, pointers, rows, columns, zero_background, (s + 1) as nat);
            &&& after.len() == rows * columns
            &&& forall|q: int|
                0 <= q < rows * columns ==> #[trigger] after[q] == if passes_through(
                    destination,
                    pointers,
                    rows,
                    columns,
                    s,
                    q,
                ) {
                    bump(before[q], background_value(zero_background))
                } else if q == s && !starts_trace(destination, pointers, s) && pointers[s] is NoData {
                    nodata_value()
                } else {
                    before[q]
                }
        }),
{
    let before = scan_output(destination, pointers, rows, columns, zero_background, s as nat);
    if starts_trace(destination, pointers, s) {
        match trace_at(pointers, rows, columns, s) {
            Ok(path) => {
                lemma_position(s, rows, columns);
                lemma_walk_distinct(pointers, rows, columns, s / columns, s % columns, (rows * columns) as nat);
                lemma_mark_path(before, path, background_value(zero_background));
            },
            Err(_) => {},
        }
    }
}

/// The scan keeps one value per cell.
proof fn lemma_length_upto(
    destination: Seq<bool>,
    pointers: Seq<PointerCell>,
    rows: int,
    columns: int,
    zero_background: bool,
    done: nat,
)
    requires
        scannable(destination, pointers, rows, columns),
        done <= rows * columns,
    ensures
        scan_output(destination, pointers, rows, columns, zero_background, done).len() == rows * columns,
    decreases done,
{
    if done > 0 {
        lemma_length_upto(destination, pointers, rows, columns, zero_background, (done - 1) as nat);
        lemma_scan_step(destination, pointers, rows, columns, zero_background, done - 1);
    }
}

proof fn lemma_accumulation_upto(
    destination: Seq<bool>,
    pointers: Seq<PointerCell>,
    rows: int,
    columns: int,
    zero_background: bool,
    p: int,
    done: nat,
)
    requires
        scannable(destination, pointers, rows, columns),
        0 <= p < rows * columns,
        done <= rows * columns,
        !(pointers[p] is NoData),
    ensures
        scan_output(destination, pointers, rows, columns, zero_background, done).len() == rows * columns,
        visits(destination, pointers, rows, columns, p, done) <= done,
        scan_output(destination, pointers, rows, columns, zero_background, done)[p] == if visits(
            destination,
            pointers,
            rows,
            columns,
            p,
            done,
        ) == 0 {
            background_value(zero_background)
        } else {
            count_value(visits(destination, pointers, rows, columns, p, done) as u64)
        },
    decreases done,
{
    if done > 0 {
        lemma_accumulation_upto(destination, pointers, rows, columns, zero_background, p, (done - 1) as nat);
        lemma_scan_step(destination, pointers, rows, columns, zero_background, done - 1);
    }
}

/// Accumulation: after the scan, a cell whose own back-link is not NoData
/// holds the number of successful traces that pass through it, or the
/// background value if none does.
pub proof fn law_accumulation(
    destination: Grid<bool>,
    backlink: Grid<PointerCell>,
    zero_background: bool,
    result: Pathways,
    p: int,
)
    requires
        inputs_match(destination, backlink),
        scan_result(destination, backlink, zero_background, result),
        0 <= p < backlink.size(),
        !(backlink.cells@[p] is NoData),
    ensures
        ({
            let n = visits(
                destination.cells@,
                backlink.cells@,
                backlink.rows as int,
                backlink.columns as int,
                p,
                backlink.size() as nat,
            );
            result.output.cells@[p] == if n == 0 {
                background_value(zero_background)
            } else {
                count_value(n as u64)
            }
        }),
{
    lemma_accumulation_upto(
        destination.cells@,
        backlink.cells@,
        backlink.rows as int,
        backlink.columns as int,
        zero_background,
        p,
        backlink.size() as nat,
    );
}

/// How many of the traces that the scan starts after position `p`, among
/// its first `done` cells, succeed and pass through the cell at `p`.
pub open spec fn later_visits(
    destination: Seq<bool>,
    pointers: Seq<PointerCell>,
    rows: int,
    columns: int,
    p: int,
    done: nat,
) -> nat
    decreases done,
{
    if done == 0 || done <= p + 1 {
        0
    } else {
        let here: nat = if passes_through(destination, pointers, rows, columns, done - 1, p) {
            1
        } else {
            0
        };
        later_visits(destination, pointers, rows, columns, p, (done - 1) as nat) + here
    }
}

proof fn lemma_exclusion_after(
    destination: Seq<bool>,
    pointers: Seq<PointerCell>,
    rows: int,
    columns: int,
    zero_background: bool,
    p: int,
    done: nat,
)
    requires
        scannable(destination, pointers, rows, columns),
        0 <= p < done <= rows * columns,
        pointers[p] is NoData,
    ensures
        scan_output(destination, pointers, rows, columns, zero_background, done).len() == rows * columns,
        later_visits(destination, pointers, rows, columns, p, done) < done,
        scan_output(destination, pointers, rows, columns, zero_background, done)[p] == if later_visits(
            destination,
            pointers,
            rows,
            columns,
            p,
            done,
        ) == 0 {
            nodata_value()
        } else {
            count_value(later_visits(destination, pointers, rows, columns, p, done) as u64)
        },
    decreases done,
{
    let s = done - 1;
    if s == p {
        lemma_length_upto(destination, pointers, rows, columns, zero_background, (done - 1) as nat);
    } else {
        lemma_exclusion_after(destination, pointers, rows, columns, zero_background, p, (done - 1) as nat);
    }
    lemma_scan_step(destination, pointers, rows, columns, zero_background, s);
}

/// Domain exclusion: a cell whose own back-link is NoData is set to NoData
/// when the scan reaches it, whatever earlier traces put there; after the
/// scan it holds NoData, or, where traces that the scan starts later pass
/// through it, the number of those traces, under either background option.
pub proof fn law_domain_exclusion(
    destination: Grid<bool>,
    backlink: Grid<PointerCell>,
    zero_background: bool,
    result: Pathways,
    p: int,
)
    requires
        inputs_match(destination, backlink),
        scan_result(destination, backlink, zero_background, result),
        0 <= p < backlink.size(),
        backlink.cells@[p] is NoData,
    ensures
        ({
            let k = later_visits(
                destination.cells@,
                backlink.cells@,
                backlink.rows as int,
                backlink.columns as int,
                p,
                backlink.size() as nat,
            );
            result.output.cells@[p] == if k == 0 {
                nodata_value()
            } else {
                count_value(k as u64)
            }
        }),
{
    lemma_exclusion_after(
        destination.cells@,
        backlink.cells@,
        backlink.rows as int,
        backlink.columns as int,
        zero_background,
        p,
        backlink.size() as nat,
    );
}

/// How the values of one cell under the two background options relate: the
/// same, except that an untouched cell is zero under one and NoData under
/// the other.
pub open spec fn agree_but_background(with_zero: OutputValue, with_nodata: OutputValue) -> bool {
    with_zero == with_nodata || (with_zero == count_value(0) && with_nodata == nodata_value())
}

proof fn lemma_options_agree_upto(
    destination: Seq<bool>,
    pointers: Seq<PointerCell>,
    rows: int,
    columns: int,
    p: int,
    done: nat,
)
    requires
        scannable(destination, pointers, rows, columns),
        0 <= p < rows * columns,
        done <= rows * columns,
    ensures
        scan_output(destination, pointers, rows, columns, true, done).len() == rows * columns,
        scan_output(destination, pointers, rows, columns, false, done).len() == rows * columns,
        agree_but_background(
            scan_output(destination, pointers, rows, columns, true, done)[p],
            scan_output(destination, pointers, rows, columns, false, done)[p],
        ),
    decreases done,
{
    if done > 0 {
        lemma_options_agree_upto(destination, pointers, rows, columns, p, (done - 1) as nat);
        lemma_scan_step(destination, pointers, rows, columns, true, done - 1);
        lemma_scan_step(destination, pointers, rows, columns, false, done - 1);
    }
}

/// Background option: a cell that no successful trace passes through and
/// whose own back-link is not NoData holds zero when zero is the background
/// and NoData otherwise; every other cell holds the same value under either
/// option.
pub proof fn law_background_option(
    destination: Grid<bool>,
    backlink: Grid<PointerCell>,
    with_zero: Pathways,
    with_nodata: Pathways,
    p: int,
)
    requires
        inputs_match(destination, backlink),
        scan_result(destination, backlink, true, with_zero),
        scan_result(destination, backlink, false, with_nodata),
        0 <= p < backlink.size(),
    ensures
        agree_but_background(with_zero.output.cells@[p], with_nodata.output.cells@[p]),
        with_zero.output.cells@[p] != count_value(0) ==> with_zero.output.cells@[p]
            == with_nodata.output.cells@[p],
        !(backlink.cells@[p] is NoData) ==> (visits(
            destination.cells@,
            backlink.cells@,
            backlink.rows as int,
            backlink.columns as int,
            p,
            backlink.size() as nat,
        ) == 0 <==> with_zero.output.cells@[p] == count_value(0) && with_nodata.output.cells@[p]
            == nodata_value()),
{
    let d = destination.cells@;
    let b = backlink.cells@;
    let rows = backlink.rows as int;
    let columns = backlink.columns as int;
    lemma_options_agree_upto(d, b, rows, columns, p, backlink.size() as nat);
    if !(b[p] is NoData) {
        lemma_accumulation_upto(d, b, rows, columns, true, p, backlink.size() as nat);
        lemma_accumulation_upto(d, b, rows, columns, false, p, backlink.size() as nat);
    }
}

/// Determinism: two scans of the same grids with the same option give the
/// same output grid and the same failures.
pub proof fn law_deterministic(
    destination: Grid<bool>,
    backlink: Grid<PointerCell>,
    zero_background: bool,
    first: Pathways,
    second: Pathways,
)
    requires
        scan_result(destination, backlink, zero_background, first),
        scan_result(destination, backlink, zero_background, second),
    ensures
        first.output.rows == second.output.rows,
        first.output.columns == second.output.columns,
        first.output.cells@ == second.output.cells@,
        first.failures@ == second.failures@,
{
}

} // verus!

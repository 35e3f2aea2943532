use cost_pathway::direction::Direction;
use cost_pathway::grid::{Base, Grid, OutputValue, PointerCell};
use cost_pathway::pathway::{trace_pathways, PathwayError, TraceFailure};
use cost_pathway::tool::CostPathway;
use cost_pathway::trace::{trace_path, TraceError};

const NORTH: u64 = 128;
const EAST: u64 = 2;
const WEST: u64 = 32;
const SOUTH_WEST: u64 = 16;

fn nodata() -> OutputValue {
    OutputValue { base: Base::NoData, count: 0 }
}

fn count(n: u64) -> OutputValue {
    OutputValue { base: Base::Zero, count: n }
}

fn dest_grid(rows: usize, columns: usize, cells: Vec<bool>) -> Grid<bool> {
    Grid { rows, columns, cells }
}

fn ptr_grid(rows: usize, columns: usize, cells: Vec<PointerCell>) -> Grid<PointerCell> {
    Grid { rows, columns, cells }
}

/// A 3x3 grid whose only destination is (2, 0), with the chain
/// (2,0) -> (1,0) -> (0,0) given by `code` at (2,0) and (1,0); every other
/// back-link is NoData.
fn chain_example(code: u64) -> (Grid<bool>, Grid<PointerCell>) {
    let mut dest = vec![false; 9];
    dest[6] = true;
    let mut ptr = vec![PointerCell::NoData; 9];
    ptr[3] = PointerCell::Code(code);
    ptr[6] = PointerCell::Code(code);
    (dest_grid(3, 3, dest), ptr_grid(3, 3, ptr))
}

#[test]
fn chain_to_source_default_background() {
    let (dest, ptr) = chain_example(NORTH);
    let r = trace_pathways(&dest, &ptr, false).unwrap();
    assert_eq!(r.output.rows, 3);
    assert_eq!(r.output.columns, 3);
    assert!(r.failures.is_empty());
    for i in 0..9 {
        let expected = if i == 0 || i == 3 || i == 6 { count(1) } else { nodata() };
        assert_eq!(r.output.cells[i], expected, "cell {}", i);
    }
}

#[test]
fn chain_to_source_zero_background() {
    let (dest, ptr) = chain_example(NORTH);
    let r = trace_pathways(&dest, &ptr, true).unwrap();
    assert!(r.failures.is_empty());
    // (0,0) was set to NoData by the scan, then the trace counted it.
    assert_eq!(r.output.cells[0], count(1));
    assert_eq!(r.output.cells[3], count(1));
    assert_eq!(r.output.cells[6], count(1));
    for i in [1, 2, 4, 5, 7, 8] {
        assert_eq!(r.output.cells[i], nodata(), "cell {}", i);
    }
}

#[test]
fn south_west_code_leaves_grid() {
    let (dest, ptr) = chain_example(SOUTH_WEST);
    let r = trace_pathways(&dest, &ptr, false).unwrap();
    assert_eq!(
        r.failures,
        vec![TraceFailure { row: 2, column: 0, error: TraceError::OutOfBounds }]
    );
    for i in 0..9 {
        assert_eq!(r.output.cells[i], nodata(), "cell {}", i);
    }
}

#[test]
fn mismatched_rows_rejected() {
    let dest = dest_grid(2, 3, vec![false; 6]);
    let ptr = ptr_grid(3, 2, vec![PointerCell::Terminal; 6]);
    assert!(matches!(trace_pathways(&dest, &ptr, false), Err(PathwayError::InvalidInput)));
}

#[test]
fn short_cell_vector_rejected() {
    let dest = dest_grid(2, 2, vec![true; 3]);
    let ptr = ptr_grid(2, 2, vec![PointerCell::Terminal; 3]);
    assert!(matches!(trace_pathways(&dest, &ptr, true), Err(PathwayError::InvalidInput)));
}

#[test]
fn empty_grid_gives_empty_output() {
    let dest = dest_grid(0, 4, vec![]);
    let ptr = ptr_grid(0, 4, vec![]);
    let r = trace_pathways(&dest, &ptr, false).unwrap();
    assert_eq!(r.output.rows, 0);
    assert_eq!(r.output.columns, 4);
    assert!(r.output.cells.is_empty());
    assert!(r.failures.is_empty());
}

#[test]
fn shared_path_counts_each_trace() {
    // One row: (0,0) and (0,1) both flow east into the source at (0,2).
    let dest = dest_grid(1, 4, vec![true, true, false, false]);
    let ptr = ptr_grid(
        1,
        4,
        vec![
            PointerCell::Code(EAST),
            PointerCell::Code(EAST),
            PointerCell::Terminal,
            PointerCell::Terminal,
        ],
    );
    let r = trace_pathways(&dest, &ptr, true).unwrap();
    assert_eq!(r.output.cells, vec![count(1), count(2), count(2), count(0)]);
    let r = trace_pathways(&dest, &ptr, false).unwrap();
    assert_eq!(r.output.cells, vec![count(1), count(2), count(2), nodata()]);
}

#[test]
fn destination_on_source_counts_itself() {
    let dest = dest_grid(1, 2, vec![true, false]);
    let ptr = ptr_grid(1, 2, vec![PointerCell::Terminal, PointerCell::Terminal]);
    let r = trace_pathways(&dest, &ptr, true).unwrap();
    assert_eq!(r.output.cells, vec![count(1), count(0)]);
}

#[test]
fn destination_without_pointer_is_nodata() {
    let dest = dest_grid(1, 2, vec![true, true]);
    let ptr = ptr_grid(1, 2, vec![PointerCell::NoData, PointerCell::Terminal]);
    let r = trace_pathways(&dest, &ptr, true).unwrap();
    assert_eq!(r.output.cells, vec![nodata(), count(1)]);
    assert!(r.failures.is_empty());
}

#[test]
fn exclusion_overrides_earlier_trace() {
    // (0,0) flows east into (0,1), whose own back-link is NoData: the trace
    // counts it, then the scan reaches it and sets it to NoData.
    let dest = dest_grid(1, 2, vec![true, false]);
    let ptr = ptr_grid(1, 2, vec![PointerCell::Code(EAST), PointerCell::NoData]);
    let r = trace_pathways(&dest, &ptr, true).unwrap();
    assert_eq!(r.output.cells, vec![count(1), nodata()]);
    let r = trace_pathways(&dest, &ptr, false).unwrap();
    assert_eq!(r.output.cells, vec![count(1), nodata()]);
}

#[test]
fn later_trace_reaches_excluded_cell() {
    let dest = dest_grid(1, 2, vec![false, true]);
    let ptr = ptr_grid(1, 2, vec![PointerCell::NoData, PointerCell::Code(WEST)]);
    let r = trace_pathways(&dest, &ptr, false).unwrap();
    assert_eq!(r.output.cells, vec![count(1), count(1)]);
    let r = trace_pathways(&dest, &ptr, true).unwrap();
    assert_eq!(r.output.cells, vec![count(1), count(1)]);
}

#[test]
fn corrupt_code_fails_only_its_trace() {
    let dest = dest_grid(1, 3, vec![true, true, true]);
    let ptr = ptr_grid(
        1,
        3,
        vec![PointerCell::Code(3), PointerCell::Malformed, PointerCell::Terminal],
    );
    let r = trace_pathways(&dest, &ptr, true).unwrap();
    assert_eq!(
        r.failures,
        vec![
            TraceFailure { row: 0, column: 0, error: TraceError::CorruptPointer },
            TraceFailure { row: 0, column: 1, error: TraceError::CorruptPointer },
        ]
    );
    assert_eq!(r.output.cells, vec![count(0), count(0), count(1)]);
}

#[test]
fn cycle_is_detected() {
    // (0,0) and (0,1) point at each other; (0,2) is an ordinary source.
    let dest = dest_grid(1, 3, vec![true, false, true]);
    let ptr = ptr_grid(
        1,
        3,
        vec![PointerCell::Code(EAST), PointerCell::Code(WEST), PointerCell::Terminal],
    );
    let r = trace_pathways(&dest, &ptr, false).unwrap();
    assert_eq!(
        r.failures,
        vec![TraceFailure { row: 0, column: 0, error: TraceError::LoopDetected }]
    );
    assert_eq!(r.output.cells, vec![nodata(), nodata(), count(1)]);
}

#[test]
fn trace_path_lists_cells_in_order() {
    let (_, ptr) = chain_example(NORTH);
    assert_eq!(trace_path(&ptr, 2, 0), Ok(vec![6, 3, 0]));
    assert_eq!(trace_path(&ptr, 0, 0), Ok(vec![0]));
    let (_, ptr) = chain_example(SOUTH_WEST);
    assert_eq!(trace_path(&ptr, 1, 0), Err(TraceError::OutOfBounds));
}

#[test]
fn path_through_whole_grid_is_allowed() {
    // A snake through all four cells of a 2x2 grid ends at its source.
    let ptr = ptr_grid(
        2,
        2,
        vec![
            PointerCell::Code(EAST),
            PointerCell::Code(8),
            PointerCell::Terminal,
            PointerCell::Code(WEST),
        ],
    );
    assert_eq!(trace_path(&ptr, 0, 0), Ok(vec![0, 1, 3, 2]));
}

#[test]
fn same_inputs_same_output() {
    let (dest, ptr) = chain_example(NORTH);
    let a = trace_pathways(&dest, &ptr, true).unwrap();
    let b = trace_pathways(&dest, &ptr, true).unwrap();
    assert_eq!(a.output.cells, b.output.cells);
    assert_eq!(a.failures, b.failures);
}

#[test]
fn background_option_keeps_counts() {
    let dest = dest_grid(2, 2, vec![true, false, true, false]);
    let ptr = ptr_grid(
        2,
        2,
        vec![
            PointerCell::Code(EAST),
            PointerCell::Terminal,
            PointerCell::Code(NORTH),
            PointerCell::Terminal,
        ],
    );
    let z = trace_pathways(&dest, &ptr, true).unwrap();
    let n = trace_pathways(&dest, &ptr, false).unwrap();
    assert_eq!(z.output.cells, vec![count(2), count(2), count(1), count(0)]);
    assert_eq!(n.output.cells, vec![count(2), count(2), count(1), nodata()]);
    for i in 0..4 {
        assert_eq!(z.output.cells[i].count, n.output.cells[i].count);
    }
}

#[test]
fn direction_codes() {
    let expected = [
        (1, Direction::NorthEast, (-1, 1)),
        (2, Direction::East, (0, 1)),
        (4, Direction::SouthEast, (1, 1)),
        (8, Direction::South, (1, 0)),
        (16, Direction::SouthWest, (1, -1)),
        (32, Direction::West, (0, -1)),
        (64, Direction::NorthWest, (-1, -1)),
        (128, Direction::North, (-1, 0)),
    ];
    for (code, d, offset) in expected {
        assert_eq!(Direction::from_code(code), Some(d));
        assert_eq!(d.offset(), offset);
    }
    for code in [0, 3, 5, 127, 129, 256, u64::MAX] {
        assert_eq!(Direction::from_code(code), None);
    }
}

#[test]
fn grid_get() {
    let g = ptr_grid(2, 2, vec![
        PointerCell::Terminal,
        PointerCell::Code(EAST),
        PointerCell::NoData,
        PointerCell::Malformed,
    ]);
    assert_eq!(g.get(0, 1), Some(&PointerCell::Code(EAST)));
    assert_eq!(g.get(1, 1), Some(&PointerCell::Malformed));
    assert_eq!(g.get(2, 0), None);
    assert_eq!(g.get(0, 2), None);
}

#[test]
fn output_values() {
    assert_eq!(OutputValue::nodata(), nodata());
    assert_eq!(OutputValue::background(true), count(0));
    assert_eq!(OutputValue::background(false), nodata());
}

#[test]
fn tool_identity() {
    let t = CostPathway::new();
    assert_eq!(t.get_tool_name(), "CostPathway");
    assert_eq!(t.get_toolbox(), "GIS Analysis/Distance Tools");
    assert_eq!(
        t.get_tool_description(),
        "Performs cost-distance pathway analysis using a series of destination grid cells."
    );
}

#[test]
fn excluded_cell_counts_later_traces_in_both_modes() {
    // (0,0) has a NoData back-link; the destinations at (0,1) and (0,2) both
    // flow west through it after the scan has set it to NoData.
    let dest = dest_grid(1, 3, vec![false, true, true]);
    let ptr = ptr_grid(
        1,
        3,
        vec![PointerCell::NoData, PointerCell::Code(WEST), PointerCell::Code(WEST)],
    );
    let z = trace_pathways(&dest, &ptr, true).unwrap();
    let n = trace_pathways(&dest, &ptr, false).unwrap();
    assert_eq!(z.output.cells, vec![count(2), count(2), count(1)]);
    assert_eq!(n.output.cells, z.output.cells);
}

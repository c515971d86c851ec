//! Response builder: classifies every cell of the final grid and words the
//! warning about cells that stayed empty.

use vstd::prelude::*;
use crate::logic::text::{decimal, decimal_text};
use crate::models::garden::{
    count_in_row, count_in_rows, lemma_count_in_row_le, lemma_count_in_rows_le, CellKind,
    GardenGrid, GridView,
};
use crate::models::request::{PlanResponse, PlanView, PlannedCell, PlannedCellView};
use crate::models::{view_each, view_matrix};

verus! {

/// How the cell at `(r, c)` is presented: a plant in its own cell, the
/// anchor of a larger block, a cell covered by such an anchor, a blocked
/// cell or an empty one.
pub open spec fn classify(grid: GridView, r: int, c: int) -> PlannedCellView {
    let cell = grid.cells[r][c];
    match cell.vegetable {
        Some(p) => if p.anchor.row == r && p.anchor.col == c {
            if p.span == 1 {
                PlannedCellView::SelfContained {
                    id: p.id,
                    name: p.name,
                    reason: p.reason,
                    plants_per_cell: p.plants_per_cell,
                }
            } else {
                PlannedCellView::Overflowing {
                    id: p.id,
                    name: p.name,
                    reason: p.reason,
                    plants_per_cell: p.plants_per_cell,
                    width_cells: p.span,
                    length_cells: p.span,
                }
            }
        } else {
            PlannedCellView::Overflowed { covered_by: p.anchor }
        },
        None => if cell.blocked {
            PlannedCellView::Blocked
        } else {
            PlannedCellView::Empty
        },
    }
}

/// In a well-formed grid, a cell that is covered by an anchor points at the
/// anchor of a larger block that covers it, and only a plant that spans one
/// cell is shown in its own cell.
pub proof fn lemma_covered_by_anchor(grid: GridView, r: int, c: int)
    requires
        grid.wf(),
        grid.in_bounds(r, c),
    ensures
        match classify(grid, r, c) {
            PlannedCellView::Overflowed { covered_by } => {
                &&& grid.in_bounds(covered_by.row as int, covered_by.col as int)
                &&& classify(
                    grid,
                    covered_by.row as int,
                    covered_by.col as int,
                ) matches PlannedCellView::Overflowing { width_cells, length_cells, .. }
                &&& covered_by.row <= r < covered_by.row + length_cells
                &&& covered_by.col <= c < covered_by.col + width_cells
            },
            PlannedCellView::Overflowing { width_cells, length_cells, .. } => width_cells >= 2
                && length_cells == width_cells,
            _ => true,
        },
{
    assert(grid.cell_ok(r, c));
    match grid.cells[r][c].vegetable {
        Some(p) => {
            assert(grid.placement_at(p.anchor.row as int, p.anchor.col as int) == Some(p));
        },
        None => {},
    }
}

/// Every cell of the grid, classified, row by row.
pub open spec fn classified(grid: GridView) -> Seq<Seq<PlannedCellView>> {
    Seq::new(
        grid.cells.len(),
        |r: int| Seq::new(grid.cells[r].len(), |c: int| classify(grid, r, c)),
    )
}

/// The warning about `empty` cells that no candidate could fill.
pub open spec fn empty_warning(empty: nat) -> Seq<char> {
    decimal(empty)
        + " empty cell(s): not enough compatible vegetables to fill the entire grid."@
}

/// Which cells a tally counts.
#[derive(Clone, Copy)]
pub enum Tally {
    Occupied,
    Blocked,
    Free,
}

impl Tally {
    pub open spec fn kind(self) -> CellKind {
        match self {
            Tally::Occupied => CellKind::Occupied,
            Tally::Blocked => CellKind::Blocked,
            Tally::Free => CellKind::Free,
        }
    }
}

/// Counts the cells of the grid that hold a placement, that are blocked, or
/// that are free.
pub fn count_cells(grid: &GardenGrid, tally: Tally) -> (count: usize)
    requires
        grid@.shaped(),
        grid.rows * grid.cols <= usize::MAX,
    ensures
        count == grid@.count(tally.kind()),
{
    let ghost g = grid@;
    let ghost kind = tally.kind();
    let mut count: usize = 0;
    let mut r: usize = 0;
    while r < grid.rows
        invariant
            g == grid@,
            g.shaped(),
            kind == tally.kind(),
            grid.rows * grid.cols <= usize::MAX,
            r <= grid.rows,
            count == count_in_rows(g.cells, kind, r as nat),
        decreases grid.rows - r,
    {
        let ghost before = count;
        let mut c: usize = 0;
        while c < grid.cols
            invariant
                g == grid@,
                g.shaped(),
                kind == tally.kind(),
                grid.rows * grid.cols <= usize::MAX,
                r < grid.rows,
                c <= grid.cols,
                before == count_in_rows(g.cells, kind, r as nat),
                count == before + count_in_row(g.cells[r as int], kind, c as nat),
            decreases grid.cols - c,
        {
            proof {
                grid.lemma_shape();
                lemma_count_in_rows_le(g, kind, r as nat);
                lemma_count_in_row_le(g.cells[r as int], kind, c as nat);
                assert(r * grid.cols + c < grid.rows * grid.cols) by (nonlinear_arith)
                    requires
                        r < grid.rows,
                        c < grid.cols,
                ;
            }
            let cell = &grid.cells[r][c];
            let counted = match tally {
                Tally::Occupied => cell.vegetable.is_some(),
                Tally::Blocked => cell.blocked,
                Tally::Free => cell.vegetable.is_none() && !cell.blocked,
            };
            assert(counted == g.cells[r as int][c as int].is_kind(kind));
            if counted {
                count = count + 1;
            }
            c += 1;
        }
        assert(g.cells[r as int].len() == grid.cols);
        r += 1;
    }
    count
}

/// Returns a warning that states how many non-blocked cells remain
/// unplanted, or `None` when none does.
pub fn empty_cells_warning(grid: &GardenGrid) -> (warning: Option<String>)
    requires
        grid@.shaped(),
        grid.rows * grid.cols <= usize::MAX,
    ensures
        match warning {
            Some(text) => grid@.count(CellKind::Free) > 0 && text@ == empty_warning(
                grid@.count(CellKind::Free),
            ),
            None => grid@.count(CellKind::Free) == 0,
        },
{
    let empty = count_cells(grid, Tally::Free);
    if empty > 0 {
        let mut text = decimal_text(empty);
        text.append(" empty cell(s): not enough compatible vegetables to fill the entire grid.");
        Some(text)
    } else {
        None
    }
}

/// Classifies one cell of the grid.
fn classify_cell(grid: &GardenGrid, r: usize, c: usize) -> (planned: PlannedCell)
    requires
        r < grid.cells@.len(),
        c < grid.cells@[r as int]@.len(),
    ensures
        planned@ == classify(grid@, r as int, c as int),
{
    let cell = &grid.cells[r][c];
    match &cell.vegetable {
        Some(v) => {
            if v.anchor.row == r && v.anchor.col == c {
                if v.span == 1 {
                    PlannedCell::SelfContained {
                        id: v.id.clone(),
                        name: v.name.clone(),
                        reason: v.reason.clone(),
                        plants_per_cell: v.plants_per_cell,
                    }
                } else {
                    PlannedCell::Overflowing {
                        id: v.id.clone(),
                        name: v.name.clone(),
                        reason: v.reason.clone(),
                        plants_per_cell: v.plants_per_cell,
                        width_cells: v.span,
                        length_cells: v.span,
                    }
                }
            } else {
                PlannedCell::Overflowed { covered_by: v.anchor }
            }
        },
        None => {
            if cell.blocked {
                PlannedCell::Blocked
            } else {
                PlannedCell::Empty
            }
        },
    }
}

/// Builds the plan that is handed back: every cell classified, with the
/// grid's size, the score and the warnings.
pub fn build_response(
    grid: GardenGrid,
    rows: usize,
    cols: usize,
    score: i32,
    warnings: Vec<String>,
) -> (response: PlanResponse)
    ensures
        response@ == (PlanView {
            grid: classified(grid@),
            rows: rows as nat,
            cols: cols as nat,
            score: score as int,
            warnings: view_each(warnings@),
        }),
{
    let ghost g = grid@;
    let mut planned_grid: Vec<Vec<PlannedCell>> = Vec::new();
    let mut r: usize = 0;
    while r < grid.cells.len()
        invariant
            g == grid@,
            r <= grid.cells.len(),
            planned_grid.len() == r,
            forall|i: int|
                0 <= i < r ==> view_each((#[trigger] planned_grid@[i])@) == classified(g)[i],
        decreases grid.cells.len() - r,
    {
        let mut planned_row: Vec<PlannedCell> = Vec::new();
        let mut c: usize = 0;
        while c < grid.cells[r].len()
            invariant
                g == grid@,
                r < grid.cells.len(),
                c <= grid.cells@[r as int]@.len(),
                planned_row.len() == c,
                forall|j: int|
                    0 <= j < c ==> (#[trigger] planned_row@[j])@ == classify(g, r as int, j),
            decreases grid.cells@[r as int]@.len() - c,
        {
            planned_row.push(classify_cell(&grid, r, c));
            c += 1;
        }
        assert(view_each(planned_row@) =~= classified(g)[r as int]);
        planned_grid.push(planned_row);
        r += 1;
    }
    assert(view_matrix(planned_grid@) =~= classified(g));
    PlanResponse { grid: planned_grid, rows, cols, score, warnings }
}

} // verus!

//! The planning run: validates the layout, builds the grid from it, runs the
//! two placement phases and builds the plan.

use vstd::prelude::*;
use crate::logic::allocation::{build_placement_queue, queue_plan};
use crate::logic::phases::{
    explicit_phase, fill, fill_remaining_cells, lemma_fill, lemma_fill_leaves_no_gap,
    lemma_run_queue, place_candidates, seed_counts, QueueState,
};
use crate::logic::placer::{grown_by, span_for};
use crate::logic::response::{
    build_response, classified, count_cells, empty_cells_warning, empty_warning, Tally,
};
use crate::logic::spacing::{plants_in_cell, plants_per_cell};
use crate::logic::text::{decimal, decimal_text};
use crate::models::garden::{
    lemma_count_in_rows_all, lemma_count_in_rows_le, lemma_count_in_rows_partition,
    lemma_count_in_rows_none, lemma_extends_transitive, lemma_zero_in_rows, CellKind, CellView,
    GardenGrid, GridView, PlacedVegetable, PlacedView,
};
use crate::models::request::{
    LayoutCell, LayoutCellView, PlanRequest, PlanRequestView, PlanResponse, PlanView,
    PlannedCellView, PreferenceEntry, PreferenceView,
};
use crate::models::vegetable::{find_by_id, lemma_position_of, position_of, Vegetable, VegetableView};
use crate::models::{view_each, view_matrix, Coordinate};

pub use crate::logic::spacing::{cell_span, CELL_SIZE_CM};

verus! {

/// The error for a layout without rows.
pub open spec fn no_rows_error() -> Seq<char> {
    "Layout must contain at least one row."@
}

/// The error for a layout whose first row has no columns.
pub open spec fn no_columns_error() -> Seq<char> {
    "Layout rows must not be empty."@
}

/// The size that a layout gives the grid: its number of rows and the length
/// of its first row; an error when either is zero.
pub open spec fn layout_size(layout: Seq<Seq<LayoutCellView>>) -> Result<(usize, usize), Seq<char>> {
    if layout.len() == 0 {
        Err(no_rows_error())
    } else if layout[0].len() == 0 {
        Err(no_columns_error())
    } else {
        Ok((layout.len() as usize, layout[0].len() as usize))
    }
}

/// Validates that the layout has at least one row and that its first row has
/// at least one column. Returns `(rows, cols)` on success.
pub fn validate_layout(layout: &[Vec<LayoutCell>]) -> (size: Result<(usize, usize), String>)
    ensures
        match (size, layout_size(view_matrix(layout@))) {
            (Ok(found), Ok(stated)) => found == stated,
            (Err(found), Err(stated)) => found@ == stated,
            _ => false,
        },
{
    if layout.len() == 0 {
        return Err(String::from_str("Layout must contain at least one row."));
    }
    let cols = layout[0].len();
    assert(view_matrix(layout@)[0].len() == cols);
    if cols == 0 {
        return Err(String::from_str("Layout rows must not be empty."));
    }
    Ok((layout.len(), cols))
}

/// A cell that holds nothing and is not blocked.
pub open spec fn open_cell() -> CellView {
    CellView { vegetable: None, blocked: false }
}

/// The note that a plant of the existing layout carries.
pub open spec fn present_reason() -> Seq<char> {
    "Present in the existing layout."@
}

/// The placement for a plant of the existing layout: one cell, anchored
/// where it stands.
pub open spec fn present_placement(variety: VegetableView, r: int, c: int) -> PlacedView {
    PlacedView {
        id: variety.id,
        name: variety.name,
        reason: present_reason(),
        plants_per_cell: plants_in_cell(variety.spacing_cm as nat) as u32,
        span: 1,
        anchor: Coordinate { row: r as usize, col: c as usize },
    }
}

/// The grid cell that a layout cell at `(r, c)` gives: blocked where the
/// layout blocks it, planted where the layout names a variety that the
/// catalogue knows, open otherwise.
pub open spec fn initial_cell(
    cell: LayoutCellView,
    catalogue: Seq<VegetableView>,
    r: int,
    c: int,
) -> CellView {
    match cell {
        LayoutCellView::Blocked(true) => CellView { vegetable: None, blocked: true },
        LayoutCellView::Planted(id) => match position_of(catalogue, id) {
            Some(k) => CellView {
                vegetable: Some(present_placement(catalogue[k], r, c)),
                blocked: false,
            },
            None => open_cell(),
        },
        _ => open_cell(),
    }
}

/// The layout has a cell at `(r, c)`.
pub open spec fn layout_has(layout: Seq<Seq<LayoutCellView>>, r: int, c: int) -> bool {
    0 <= r < layout.len() && 0 <= c < layout[r].len()
}

/// The grid cell at `(r, c)` of a grid built from the layout; open where the
/// layout has no cell.
pub open spec fn initial_cell_at(
    layout: Seq<Seq<LayoutCellView>>,
    catalogue: Seq<VegetableView>,
    r: int,
    c: int,
) -> CellView {
    if layout_has(layout, r, c) {
        initial_cell(layout[r][c], catalogue, r, c)
    } else {
        open_cell()
    }
}

/// The grid of the given size as the layout fills it. Layout cells outside
/// the grid are left out.
pub open spec fn initial_grid(
    rows: usize,
    cols: usize,
    layout: Seq<Seq<LayoutCellView>>,
    catalogue: Seq<VegetableView>,
) -> GridView {
    GridView {
        rows,
        cols,
        cells: Seq::new(
            rows as nat,
            |r: int| Seq::new(cols as nat, |c: int| initial_cell_at(layout, catalogue, r, c)),
        ),
    }
}

/// The warning for a layout cell that names a variety that the catalogue
/// does not know.
pub open spec fn unknown_warning(id: Seq<char>, r: nat, c: nat) -> Seq<char> {
    "Vegetable '"@ + id + "' at ["@ + decimal(r) + ","@ + decimal(c)
        + "] not found in the database, skipped."@
}

/// The warning that the layout cell at `(r, c)` raises, if any.
pub open spec fn cell_warning(
    cell: LayoutCellView,
    catalogue: Seq<VegetableView>,
    r: nat,
    c: nat,
) -> Option<Seq<char>> {
    match cell {
        LayoutCellView::Planted(id) => if position_of(catalogue, id) is None {
            Some(unknown_warning(id, r, c))
        } else {
            None
        },
        _ => None,
    }
}

/// The warnings that the first `n` cells of layout row `r` raise.
pub open spec fn warnings_in_row(
    row: Seq<LayoutCellView>,
    catalogue: Seq<VegetableView>,
    r: nat,
    n: nat,
) -> Seq<Seq<char>>
    decreases n,
{
    if n == 0 {
        Seq::empty()
    } else {
        let earlier = warnings_in_row(row, catalogue, r, (n - 1) as nat);
        match cell_warning(row[n - 1], catalogue, r, (n - 1) as nat) {
            Some(text) => earlier.push(text),
            None => earlier,
        }
    }
}

/// How many cells of a layout row lie in a grid of `cols` columns.
pub open spec fn cells_within(row: Seq<LayoutCellView>, cols: usize) -> nat {
    if row.len() <= cols {
        row.len()
    } else {
        cols as nat
    }
}

/// The warnings that the first `n` layout rows raise, cell by cell.
pub open spec fn warnings_in_rows(
    layout: Seq<Seq<LayoutCellView>>,
    catalogue: Seq<VegetableView>,
    cols: usize,
    n: nat,
) -> Seq<Seq<char>>
    decreases n,
{
    if n == 0 {
        Seq::empty()
    } else {
        warnings_in_rows(layout, catalogue, cols, (n - 1) as nat) + warnings_in_row(
            layout[n - 1],
            catalogue,
            (n - 1) as nat,
            cells_within(layout[n - 1], cols),
        )
    }
}

/// How many layout rows lie in a grid of `rows` rows.
pub open spec fn rows_within(layout: Seq<Seq<LayoutCellView>>, rows: usize) -> nat {
    if layout.len() <= rows {
        layout.len()
    } else {
        rows as nat
    }
}

/// The warnings that building the grid raises: one for each layout cell in
/// the grid that names an unknown variety, in row-major order.
pub open spec fn initial_warnings(
    rows: usize,
    cols: usize,
    layout: Seq<Seq<LayoutCellView>>,
    catalogue: Seq<VegetableView>,
) -> Seq<Seq<char>> {
    warnings_in_rows(layout, catalogue, cols, rows_within(layout, rows))
}

/// A grid built from a layout is well-formed.
pub proof fn lemma_initial_grid_wf(
    rows: usize,
    cols: usize,
    layout: Seq<Seq<LayoutCellView>>,
    catalogue: Seq<VegetableView>,
)
    ensures
        initial_grid(rows, cols, layout, catalogue).wf(),
{
    let grid = initial_grid(rows, cols, layout, catalogue);
    assert forall|r: int, c: int| grid.in_bounds(r, c) implies #[trigger] grid.cell_ok(r, c) by {
        match grid.cells[r][c].vegetable {
            None => {},
            Some(p) => {
                assert(layout_has(layout, r, c));
                assert forall|i: int, j: int|
                    p.anchor.row <= i < p.anchor.row + p.span && p.anchor.col <= j < p.anchor.col
                        + p.span implies #[trigger] grid.placement_at(i, j) == Some(p) by {
                    assert(i == r && j == c);
                }
            },
        }
    }
}

fn unknown_warning_text(id: &str, r: usize, c: usize) -> (text: String)
    ensures
        text@ == unknown_warning(id@, r as nat, c as nat),
{
    let mut text = String::from_str("Vegetable '");
    text.append(id);
    text.append("' at [");
    let row = decimal_text(r);
    text.append(row.as_str());
    text.append(",");
    let col = decimal_text(c);
    text.append(col.as_str());
    text.append("] not found in the database, skipped.");
    text
}

/// Creates a blank grid and pre-fills it from the layout: blocked zones and
/// plants that are already there. Returns the grid and the warnings raised
/// for unknown vegetable identifiers.
pub fn initialize_grid(
    rows: usize,
    cols: usize,
    layout: &[Vec<LayoutCell>],
    catalogue: &[Vegetable],
) -> (built: (GardenGrid, Vec<String>))
    ensures
        built.0@ == initial_grid(rows, cols, view_matrix(layout@), view_each(catalogue@)),
        view_each(built.1@) == initial_warnings(
            rows,
            cols,
            view_matrix(layout@),
            view_each(catalogue@),
        ),
{
    let ghost plan = view_matrix(layout@);
    let ghost known = view_each(catalogue@);
    let mut grid = GardenGrid::new(rows, cols);
    let mut warnings: Vec<String> = Vec::new();
    let limit = if layout.len() <= rows {
        layout.len()
    } else {
        rows
    };
    let mut r: usize = 0;
    assert(view_each(warnings@) =~= Seq::<Seq<char>>::empty());
    assert forall|i: int, j: int| grid@.in_bounds(i, j) implies #[trigger] grid@.cell(i, j)
        == open_cell() by {
        assert(grid@.is_free(i, j));
    }
    while r < limit
        invariant
            plan == view_matrix(layout@),
            known == view_each(catalogue@),
            limit == rows_within(plan, rows),
            r <= limit,
            grid.rows == rows,
            grid.cols == cols,
            grid@.shaped(),
            view_each(warnings@) == warnings_in_rows(plan, known, cols, r as nat),
            forall|i: int, j: int|
                grid@.in_bounds(i, j) ==> #[trigger] grid@.cell(i, j) == if i < r {
                    initial_cell_at(plan, known, i, j)
                } else {
                    open_cell()
                },
        decreases limit - r,
    {
        let row = &layout[r];
        let width = if row.len() <= cols {
            row.len()
        } else {
            cols
        };
        let ghost earlier = view_each(warnings@);
        let ghost line = plan[r as int];
        assert(line == view_each(row@));
        let mut c: usize = 0;
        assert(earlier + Seq::<Seq<char>>::empty() =~= earlier);
        while c < width
            invariant
                plan == view_matrix(layout@),
                known == view_each(catalogue@),
                line == plan[r as int],
                line == view_each(row@),
                limit == rows_within(plan, rows),
                r < limit,
                width == cells_within(line, cols),
                c <= width,
                grid.rows == rows,
                grid.cols == cols,
                grid@.shaped(),
                earlier == warnings_in_rows(plan, known, cols, r as nat),
                view_each(warnings@) == earlier + warnings_in_row(line, known, r as nat, c as nat),
                forall|i: int, j: int|
                    grid@.in_bounds(i, j) ==> #[trigger] grid@.cell(i, j) == if i < r || (i == r
                        && j < c) {
                        initial_cell_at(plan, known, i, j)
                    } else {
                        open_cell()
                    },
            decreases width - c,
        {
            let ghost before = grid@;
            let ghost said = view_each(warnings@);
            proof {
                grid.lemma_shape();
                assert(line[c as int] == row@[c as int]@);
                assert(layout_has(plan, r as int, c as int));
                assert(before.cell(r as int, c as int) == open_cell());
            }
            match &row[c] {
                LayoutCell::Blocked(true) => {
                    grid.cells[r][c].blocked = true;
                },
                LayoutCell::Planted(id) => {
                    match find_by_id(catalogue, id.as_str()) {
                        Some(v) => {
                            proof {
                                lemma_position_of(known, id@);
                            }
                            grid.cells[r][c].vegetable = Some(
                                PlacedVegetable {
                                    id: v.id.clone(),
                                    name: v.name.clone(),
                                    reason: String::from_str("Present in the existing layout."),
                                    plants_per_cell: plants_per_cell(v.spacing_cm),
                                    span: 1,
                                    anchor: Coordinate { row: r, col: c },
                                },
                            );
                        },
                        None => {
                            warnings.push(unknown_warning_text(id.as_str(), r, c));
                        },
                    }
                },
                _ => {},
            }
            proof {
                assert(grid@.cells.len() == before.cells.len());
                assert forall|i: int| 0 <= i < grid.rows implies (#[trigger] grid@.cells[i]).len()
                    == grid.cols by {
                    assert(before.cells[i].len() == grid.cols);
                }
                assert forall|i: int, j: int| grid@.in_bounds(i, j) implies #[trigger] grid@.cell(
                    i,
                    j,
                ) == if i < r || (i == r && j < c + 1) {
                    initial_cell_at(plan, known, i, j)
                } else {
                    open_cell()
                } by {
                    if i == r && j == c {
                        assert(grid@.cell(i, j) == initial_cell(line[c as int], known, i, j));
                    } else {
                        assert(grid@.cell(i, j) == before.cell(i, j));
                    }
                }
                match cell_warning(line[c as int], known, r as nat, c as nat) {
                    Some(text) => {
                        assert(view_each(warnings@) =~= said.push(text));
                        assert(said.push(text) =~= earlier + warnings_in_row(
                            line,
                            known,
                            r as nat,
                            (c + 1) as nat,
                        ));
                    },
                    None => {
                        assert(view_each(warnings@) =~= said);
                    },
                }
            }
            c += 1;
        }
        proof {
            assert forall|i: int, j: int| grid@.in_bounds(i, j) implies #[trigger] grid@.cell(i, j)
                == if i < r + 1 {
                initial_cell_at(plan, known, i, j)
            } else {
                open_cell()
            } by {
                if i == r && j >= width {
                    assert(!layout_has(plan, i, j));
                }
            }
        }
        r += 1;
    }
    proof {
        let target = initial_grid(rows, cols, plan, known);
        assert(grid@.cells.len() == target.cells.len());
        assert forall|i: int| 0 <= i < grid@.cells.len() implies grid@.cells[i]
            =~= target.cells[i] by {
            assert(grid@.cells[i].len() == cols);
            assert forall|j: int| 0 <= j < cols implies grid@.cells[i][j]
                == target.cells[i][j] by {
                assert(grid@.cell(i, j) == grid@.cells[i][j]);
                if i >= limit {
                    assert(!layout_has(plan, i, j));
                }
            }
        }
        assert(grid@.cells =~= target.cells);
    }
    (grid, warnings)
}

/// Returns `(occupied, blocked)` cell counts for the given grid.
pub fn count_grid_occupancy(grid: &GardenGrid) -> (counts: (usize, usize))
    requires
        grid@.shaped(),
        grid.rows * grid.cols <= usize::MAX,
    ensures
        counts.0 == grid@.count(CellKind::Occupied),
        counts.1 == grid@.count(CellKind::Blocked),
{
    (count_cells(grid, Tally::Occupied), count_cells(grid, Tally::Blocked))
}

/// The warning for a layout that leaves no cell to plant.
pub open spec fn occupied_warning() -> Seq<char> {
    "The grid is already fully occupied by the existing layout."@
}

/// The plan for a request: the layout is validated, the grid is built from
/// it, and unless no plantable cell is left, the explicit-quantity phase and
/// then the fill phase place the candidates. The plan holds every cell
/// classified, the sum of the two phases' scores, and the warnings: those of
/// the layout first, then the one on a full grid or on cells left empty.
pub open spec fn plan(
    candidates: Seq<VegetableView>,
    request: PlanRequestView,
    catalogue: Seq<VegetableView>,
) -> Result<PlanView, Seq<char>> {
    match layout_size(request.layout) {
        Err(error) => Err(error),
        Ok((rows, cols)) => {
            let grid = initial_grid(rows, cols, request.layout, catalogue);
            let warnings = initial_warnings(rows, cols, request.layout, catalogue);
            let occupied = grid.count(CellKind::Occupied);
            let blocked = grid.count(CellKind::Blocked);
            let available = if rows * cols >= blocked {
                (rows * cols - blocked) as nat
            } else {
                0nat
            };
            if occupied >= available {
                Ok(
                    PlanView {
                        grid: classified(grid),
                        rows: rows as nat,
                        cols: cols as nat,
                        score: 0,
                        warnings: warnings.push(occupied_warning()),
                    },
                )
            } else {
                let (queue, caps) = queue_plan(
                    candidates,
                    request.preference_list(),
                    (available - occupied) as nat,
                );
                let (placed, first_score) = explicit_phase(grid, queue, caps);
                let (filled, second_score) = fill(placed, candidates);
                let empty = filled.count(CellKind::Free);
                Ok(
                    PlanView {
                        grid: classified(filled),
                        rows: rows as nat,
                        cols: cols as nat,
                        score: first_score + second_score,
                        warnings: if empty > 0 {
                            warnings.push(empty_warning(empty))
                        } else {
                            warnings
                        },
                    },
                )
            }
        },
    }
}

/// The layout's size is within what the machine can index.
pub open spec fn indexable(layout: Seq<Seq<LayoutCellView>>) -> bool {
    layout.len() <= usize::MAX && (layout.len() > 0 ==> layout[0].len() <= usize::MAX)
}

/// The grid that a plan ends with: the one built from the layout where no
/// plantable cell is left, otherwise the one that the two phases leave.
pub open spec fn final_grid(
    candidates: Seq<VegetableView>,
    request: PlanRequestView,
    catalogue: Seq<VegetableView>,
) -> GridView
    recommends
        layout_size(request.layout) is Ok,
{
    let (rows, cols) = layout_size(request.layout)->Ok_0;
    let grid = initial_grid(rows, cols, request.layout, catalogue);
    let occupied = grid.count(CellKind::Occupied);
    let blocked = grid.count(CellKind::Blocked);
    let available = if rows * cols >= blocked {
        (rows * cols - blocked) as nat
    } else {
        0nat
    };
    if occupied >= available {
        grid
    } else {
        let (queue, caps) = queue_plan(
            candidates,
            request.preference_list(),
            (available - occupied) as nat,
        );
        fill(explicit_phase(grid, queue, caps).0, candidates).0
    }
}

/// A plan holds the classified cells of its final grid, and that grid is
/// well-formed and has grown out of the one that the layout gave.
pub proof fn lemma_plan_grid(
    candidates: Seq<VegetableView>,
    request: PlanRequestView,
    catalogue: Seq<VegetableView>,
)
    requires
        layout_size(request.layout) is Ok,
    ensures
        plan(candidates, request, catalogue) is Ok,
        plan(candidates, request, catalogue)->Ok_0.grid == classified(
            final_grid(candidates, request, catalogue),
        ),
        final_grid(candidates, request, catalogue).wf(),
        final_grid(candidates, request, catalogue).extends(
            initial_grid(
                layout_size(request.layout)->Ok_0.0,
                layout_size(request.layout)->Ok_0.1,
                request.layout,
                catalogue,
            ),
        ),
{
    let (rows, cols) = layout_size(request.layout)->Ok_0;
    let grid = initial_grid(rows, cols, request.layout, catalogue);
    lemma_initial_grid_wf(rows, cols, request.layout, catalogue);
    let occupied = grid.count(CellKind::Occupied);
    let blocked = grid.count(CellKind::Blocked);
    let available = if rows * cols >= blocked {
        (rows * cols - blocked) as nat
    } else {
        0nat
    };
    if occupied < available {
        let (queue, caps) = queue_plan(
            candidates,
            request.preference_list(),
            (available - occupied) as nat,
        );
        let start = QueueState { grid, counts: seed_counts(grid), score: 0, stopped: false };
        lemma_run_queue(start, queue, caps, queue.len());
        let placed = explicit_phase(grid, queue, caps).0;
        lemma_fill(placed, candidates);
        lemma_extends_transitive(grid, placed, fill(placed, candidates).0);
    }
}

/// A plant that the layout already holds stays where it is: whatever the
/// phases place, the plan shows it in its own cell, with the note of the
/// existing layout.
pub proof fn lemma_plan_keeps_planted(
    candidates: Seq<VegetableView>,
    request: PlanRequestView,
    catalogue: Seq<VegetableView>,
    r: int,
    c: int,
)
    requires
        layout_size(request.layout) is Ok,
        indexable(request.layout),
        layout_has(request.layout, r, c),
        c < request.layout[0].len(),
        request.layout[r][c] is Planted,
        position_of(catalogue, request.layout[r][c]->Planted_0) is Some,
    ensures
        plan(candidates, request, catalogue) is Ok,
        ({
            let known = catalogue[position_of(catalogue, request.layout[r][c]->Planted_0).unwrap()];
            plan(candidates, request, catalogue)->Ok_0.grid[r][c]
                == (PlannedCellView::SelfContained {
                id: known.id,
                name: known.name,
                reason: present_reason(),
                plants_per_cell: plants_in_cell(known.spacing_cm as nat) as u32,
            })
        }),
{
    lemma_plan_grid(candidates, request, catalogue);
    let (rows, cols) = layout_size(request.layout)->Ok_0;
    let grid = initial_grid(rows, cols, request.layout, catalogue);
    let last = final_grid(candidates, request, catalogue);
    assert(grid.in_bounds(r, c));
    assert(!grid.is_free(r, c));
    assert(last.cells[r][c] == grid.cells[r][c]);
    assert(last.cells[r].len() == cols);
}

/// A layout that blocks every cell gives a plan without a placement, with
/// score zero and the warning that nothing is left to plant.
pub proof fn lemma_plan_all_blocked(
    candidates: Seq<VegetableView>,
    request: PlanRequestView,
    catalogue: Seq<VegetableView>,
)
    requires
        layout_size(request.layout) is Ok,
        indexable(request.layout),
        forall|r: int, c: int|
            0 <= r < request.layout.len() && 0 <= c < request.layout[0].len() ==> #[trigger] layout_has(
                request.layout,
                r,
                c,
            ) && request.layout[r][c] == LayoutCellView::Blocked(true),
    ensures
        plan(candidates, request, catalogue) is Ok,
        plan(candidates, request, catalogue)->Ok_0.score == 0,
        plan(candidates, request, catalogue)->Ok_0.warnings.len() >= 1,
        plan(candidates, request, catalogue)->Ok_0.warnings.last() == occupied_warning(),
        forall|r: int, c: int|
            0 <= r < request.layout.len() && 0 <= c < request.layout[0].len() ==> (#[trigger] plan(
                candidates,
                request,
                catalogue,
            )->Ok_0.grid[r][c]) == PlannedCellView::Blocked,
{
    let (rows, cols) = layout_size(request.layout)->Ok_0;
    let grid = initial_grid(rows, cols, request.layout, catalogue);
    lemma_initial_grid_wf(rows, cols, request.layout, catalogue);
    assert forall|r: int, c: int| grid.in_bounds(r, c) implies (#[trigger] grid.cell(r, c))
        == (CellView { vegetable: None, blocked: true }) by {
        assert(layout_has(request.layout, r, c));
    }
    lemma_count_in_rows_all(grid, CellKind::Blocked, rows as nat);
    lemma_count_in_rows_none(grid, CellKind::Occupied, rows as nat);
    assert forall|r: int, c: int|
        0 <= r < request.layout.len() && 0 <= c < request.layout[0].len() implies (#[trigger] plan(
        candidates,
        request,
        catalogue,
    )->Ok_0.grid[r][c]) == PlannedCellView::Blocked by {
        assert(grid.cell(r, c) == (CellView { vegetable: None, blocked: true }));
    }
}

/// Where one of the candidates fits a single cell, a plan leaves no cell
/// empty.
pub proof fn lemma_plan_leaves_no_gap(
    candidates: Seq<VegetableView>,
    request: PlanRequestView,
    catalogue: Seq<VegetableView>,
    k: int,
)
    requires
        layout_size(request.layout) is Ok,
        indexable(request.layout),
        0 <= k < candidates.len(),
        span_for(candidates[k]) == 1,
    ensures
        plan(candidates, request, catalogue) is Ok,
        forall|r: int, c: int|
            0 <= r < request.layout.len() && 0 <= c < request.layout[0].len() ==> !((#[trigger] plan(
                candidates,
                request,
                catalogue,
            )->Ok_0.grid[r][c]) is Empty),
{
    lemma_plan_grid(candidates, request, catalogue);
    let (rows, cols) = layout_size(request.layout)->Ok_0;
    let grid = initial_grid(rows, cols, request.layout, catalogue);
    let last = final_grid(candidates, request, catalogue);
    let occupied = grid.count(CellKind::Occupied);
    let blocked = grid.count(CellKind::Blocked);
    let available = if rows * cols >= blocked {
        (rows * cols - blocked) as nat
    } else {
        0nat
    };
    assert(last.shaped());
    assert forall|r: int, c: int| 0 <= r < rows && 0 <= c < cols implies !last.cells[r][c].is_free() by {
        assert(last.cells[r].len() == cols);
        if occupied >= available {
            lemma_initial_grid_wf(rows, cols, request.layout, catalogue);
            lemma_count_in_rows_partition(grid, rows as nat);
            lemma_zero_in_rows(grid, CellKind::Free, rows as nat, r, c);
        } else {
            let (queue, caps) = queue_plan(
                candidates,
                request.preference_list(),
                (available - occupied) as nat,
            );
            let start = QueueState { grid, counts: seed_counts(grid), score: 0, stopped: false };
            lemma_run_queue(start, queue, caps, queue.len());
            lemma_fill_leaves_no_gap(explicit_phase(grid, queue, caps).0, candidates, k);
            assert(!last.is_free(r, c));
        }
    }
    assert forall|r: int, c: int|
        0 <= r < request.layout.len() && 0 <= c < request.layout[0].len() implies !((#[trigger] plan(
        candidates,
        request,
        catalogue,
    )->Ok_0.grid[r][c]) is Empty) by {
        assert(!last.cells[r][c].is_free());
        assert(last.cells[r].len() == cols);
    }
}

/// Twelve points per cell of the layout's grid fit the machine's score
/// type. A layout that is rejected is under no such limit.
pub open spec fn scores_fit(layout: Seq<Seq<LayoutCellView>>) -> bool {
    layout.len() > 0 ==> 12 * (layout.len() * layout[0].len()) <= i32::MAX
}

/// Plans the garden of a request with the ranked candidates. The catalogue
/// resolves the identifiers of plants that the layout already holds.
/// Fails only on a layout without rows or with an empty first row.
pub fn plan_garden(
    candidates: Vec<Vegetable>,
    request: &PlanRequest,
    catalogue: &[Vegetable],
) -> (result: Result<PlanResponse, String>)
    requires
        scores_fit(request@.layout),
    ensures
        match (result, plan(view_each(candidates@), request@, view_each(catalogue@))) {
            (Ok(found), Ok(stated)) => found@ == stated,
            (Err(found), Err(stated)) => found@ == stated,
            _ => false,
        },
{
    let ghost cands = view_each(candidates@);
    let ghost known = view_each(catalogue@);
    let ghost layout = request@.layout;
    let (rows, cols) = match validate_layout(request.layout.as_slice()) {
        Ok(size) => size,
        Err(error) => {
            return Err(error);
        },
    };
    let (mut grid, mut warnings) = initialize_grid(
        rows,
        cols,
        request.layout.as_slice(),
        catalogue,
    );
    let ghost first = grid@;
    proof {
        lemma_initial_grid_wf(rows, cols, layout, known);
        assert(layout == view_matrix(request.layout@));
        assert(layout.len() == request.layout.len());
        assert(layout[0].len() == request.layout[0].len());
        assert(rows == layout.len());
        assert(cols == layout[0].len());
        assert(first.rows * first.cols == layout.len() * layout[0].len()) by (nonlinear_arith)
            requires
                first.rows == layout.len(),
                first.cols == layout[0].len(),
        ;
        assert(first.scores_fit());
        assert(rows * cols <= usize::MAX) by (nonlinear_arith)
            requires
                12 * (rows * cols) <= i32::MAX,
        ;
    }
    let (occupied, blocked_count) = count_grid_occupancy(&grid);
    let total = rows * cols;
    let available = if total >= blocked_count {
        total - blocked_count
    } else {
        0
    };
    if occupied >= available {
        let ghost said = view_each(warnings@);
        warnings.push(String::from_str("The grid is already fully occupied by the existing layout."));
        assert(view_each(warnings@) =~= said.push(occupied_warning()));
        return Ok(build_response(grid, rows, cols, 0, warnings));
    }
    let free_cells = available - occupied;
    let no_preferences: Vec<PreferenceEntry> = Vec::new();
    let preferences: &[PreferenceEntry] = match &request.preferences {
        Some(list) => list.as_slice(),
        None => no_preferences.as_slice(),
    };
    assert(view_each(preferences@) =~= request@.preference_list());
    let (queue, caps) = build_placement_queue(candidates.as_slice(), preferences, free_cells);
    let score_phase1 = place_candidates(&mut grid, queue.as_slice(), &caps);
    let ghost placed = grid@;
    let score_phase2 = fill_remaining_cells(&mut grid, candidates.as_slice());
    proof {
        lemma_count_in_rows_le(first, CellKind::Free, first.rows as nat);
    }
    let score = score_phase1 + score_phase2;
    let ghost said = view_each(warnings@);
    match empty_cells_warning(&grid) {
        Some(text) => {
            warnings.push(text);
            assert(view_each(warnings@) =~= said.push(empty_warning(grid@.count(CellKind::Free))));
        },
        None => {},
    }
    Ok(build_response(grid, rows, cols, score, warnings))
}

} // verus!

//! The grid model: a rectangular matrix of cells, the placements they hold,
//! and the block-level queries of the planner.

use vstd::prelude::*;
use crate::models::{view_each, view_matrix, Coordinate, Matrix};

verus! {

/// A plant committed to the grid. Every cell of its `span × span` block
/// carries the same value.
#[derive(Debug, PartialEq)]
pub struct PlacedVegetable {
    pub id: String,
    pub name: String,
    pub reason: String,
    /// Number of individual plants that fit in this 30 cm × 30 cm cell.
    pub plants_per_cell: u32,
    /// How many grid cells this plant occupies per axis.
    pub span: u32,
    /// Top-left cell of this plant's block.
    pub anchor: Coordinate,
}

/// A placement as plain mathematical values.
pub struct PlacedView {
    pub id: Seq<char>,
    pub name: Seq<char>,
    pub reason: Seq<char>,
    pub plants_per_cell: u32,
    pub span: u32,
    pub anchor: Coordinate,
}

impl View for PlacedVegetable {
    type V = PlacedView;

    open spec fn view(&self) -> PlacedView {
        PlacedView {
            id: self.id@,
            name: self.name@,
            reason: self.reason@,
            plants_per_cell: self.plants_per_cell,
            span: self.span,
            anchor: self.anchor,
        }
    }
}

impl Clone for PlacedVegetable {
    fn clone(&self) -> (copy: Self)
        ensures
            copy@ == self@,
    {
        PlacedVegetable {
            id: self.id.clone(),
            name: self.name.clone(),
            reason: self.reason.clone(),
            plants_per_cell: self.plants_per_cell,
            span: self.span,
            anchor: self.anchor,
        }
    }
}

/// One cell of the grid: at most one placement, and a blocked flag.
#[derive(Debug, Clone, PartialEq)]
pub struct Cell {
    pub vegetable: Option<PlacedVegetable>,
    /// True when the cell is a path, alley or other non-plantable zone.
    pub blocked: bool,
}

pub struct CellView {
    pub vegetable: Option<PlacedView>,
    pub blocked: bool,
}

impl View for Cell {
    type V = CellView;

    open spec fn view(&self) -> CellView {
        CellView {
            vegetable: match self.vegetable {
                Some(v) => Some(v@),
                None => None,
            },
            blocked: self.blocked,
        }
    }
}

/// The three states a cell is counted under.
pub enum CellKind {
    /// Holds a placement.
    Occupied,
    /// Holds a placement of the variety with this identifier.
    Holding(Seq<char>),
    /// Flagged as non-plantable.
    Blocked,
    /// Neither: open for planting.
    Free,
}

impl CellView {
    pub open spec fn is_free(self) -> bool {
        self.vegetable is None && !self.blocked
    }

    pub open spec fn is_kind(self, kind: CellKind) -> bool {
        match kind {
            CellKind::Occupied => self.vegetable is Some,
            CellKind::Holding(id) => self.vegetable is Some && self.vegetable->0.id == id,
            CellKind::Blocked => self.blocked,
            CellKind::Free => self.is_free(),
        }
    }
}

/// How many of the first `n` cells of a row are of the given kind.
pub open spec fn count_in_row(row: Seq<CellView>, kind: CellKind, n: nat) -> nat
    decreases n,
{
    if n == 0 {
        0
    } else {
        count_in_row(row, kind, (n - 1) as nat) + if row[n - 1].is_kind(kind) {
            1nat
        } else {
            0nat
        }
    }
}

/// How many cells of the first `n` rows are of the given kind.
pub open spec fn count_in_rows(cells: Seq<Seq<CellView>>, kind: CellKind, n: nat) -> nat
    decreases n,
{
    if n == 0 {
        0
    } else {
        count_in_rows(cells, kind, (n - 1) as nat) + count_in_row(
            cells[n - 1],
            kind,
            cells[n - 1].len(),
        )
    }
}

#[derive(Debug, Clone)]
pub struct GardenGrid {
    pub rows: usize,
    pub cols: usize,
    pub cells: Matrix<Cell>,
}

/// The grid as plain mathematical values.
pub struct GridView {
    pub rows: usize,
    pub cols: usize,
    pub cells: Seq<Seq<CellView>>,
}

impl View for GardenGrid {
    type V = GridView;

    open spec fn view(&self) -> GridView {
        GridView {
            rows: self.rows,
            cols: self.cols,
            cells: view_matrix(self.cells@),
        }
    }
}

/// The `k`-th cell of the ring around the `span × span` block at `(r, c)`:
/// for each offset along the block, the cell above it, the cell below it,
/// the cell to its left and the cell to its right, in that order.
pub open spec fn perimeter_cell(r: int, c: int, span: int, k: int) -> (int, int) {
    let d = k / 4;
    if k % 4 == 0 {
        (r - 1, c + d)
    } else if k % 4 == 1 {
        (r + span, c + d)
    } else if k % 4 == 2 {
        (r + d, c - 1)
    } else {
        (r + d, c + span)
    }
}

/// Whether one of the placements found so far has the given anchor.
pub open spec fn has_anchor(found: Seq<PlacedView>, anchor: Coordinate) -> bool {
    exists|i: int| 0 <= i < found.len() && (#[trigger] found[i]).anchor == anchor
}

/// Adds a placement to those found so far, unless the same block (the same
/// anchor) was found before.
pub open spec fn note_placement(found: Seq<PlacedView>, seen: Option<PlacedView>) -> Seq<
    PlacedView,
> {
    match seen {
        Some(p) => if has_anchor(found, p.anchor) {
            found
        } else {
            found.push(p)
        },
        None => found,
    }
}

impl GridView {
    /// The matrix has `rows` rows of `cols` cells each.
    pub open spec fn shaped(self) -> bool {
        &&& self.cells.len() == self.rows
        &&& forall|r: int| 0 <= r < self.rows ==> (#[trigger] self.cells[r]).len() == self.cols
    }

    pub open spec fn in_bounds(self, r: int, c: int) -> bool {
        0 <= r < self.rows && 0 <= c < self.cols
    }

    /// The cell at `(r, c)`.
    pub open spec fn cell(self, r: int, c: int) -> CellView {
        self.cells[r][c]
    }

    /// The placement in the cell at `(r, c)`; `None` outside the grid too.
    pub open spec fn placement_at(self, r: int, c: int) -> Option<PlacedView> {
        if self.in_bounds(r, c) {
            self.cells[r][c].vegetable
        } else {
            None
        }
    }

    /// The cell at `(r, c)` lies in the grid, holds nothing and is not blocked.
    pub open spec fn is_free(self, r: int, c: int) -> bool {
        self.in_bounds(r, c) && self.cells[r][c].is_free()
    }

    /// The `span × span` block at `(r, c)` lies in the grid and is free.
    pub open spec fn block_free(self, r: int, c: int, span: int) -> bool {
        &&& r + span <= self.rows
        &&& c + span <= self.cols
        &&& forall|i: int, j: int|
            r <= i < r + span && c <= j < c + span ==> #[trigger] self.is_free(i, j)
    }

    /// The distinct placements on the first `k` cells of the block's ring,
    /// in the order in which the ring is walked.
    pub open spec fn neighbors_upto(self, r: int, c: int, span: int, k: nat) -> Seq<PlacedView>
        decreases k,
    {
        if k == 0 {
            Seq::empty()
        } else {
            let cell = perimeter_cell(r, c, span, k - 1);
            note_placement(
                self.neighbors_upto(r, c, span, (k - 1) as nat),
                self.placement_at(cell.0, cell.1),
            )
        }
    }

    /// The distinct placements on the ring around the block.
    pub open spec fn block_neighbors(self, r: int, c: int, span: nat) -> Seq<PlacedView> {
        self.neighbors_upto(r, c, span as int, 4 * span)
    }

    /// The placements in the four cells that share an edge with `(r, c)`:
    /// above, below, left, right.
    pub open spec fn axis_neighbors(self, r: int, c: int) -> Seq<PlacedView> {
        optional(self.placement_at(r - 1, c)) + optional(self.placement_at(r + 1, c)) + optional(
            self.placement_at(r, c - 1),
        ) + optional(self.placement_at(r, c + 1))
    }

    /// What must hold of the placement, if any, in the cell at `(r, c)`: the
    /// cell is not blocked, the block lies in the grid and covers the cell,
    /// and every cell of the block carries the same placement.
    pub open spec fn cell_ok(self, r: int, c: int) -> bool {
        match self.cells[r][c].vegetable {
            None => true,
            Some(p) => {
                &&& !self.cells[r][c].blocked
                &&& p.span >= 1
                &&& p.anchor.row <= r < p.anchor.row + p.span
                &&& p.anchor.col <= c < p.anchor.col + p.span
                &&& p.anchor.row + p.span <= self.rows
                &&& p.anchor.col + p.span <= self.cols
                &&& forall|i: int, j: int|
                    p.anchor.row <= i < p.anchor.row + p.span && p.anchor.col <= j < p.anchor.col
                        + p.span ==> #[trigger] self.placement_at(i, j) == Some(p)
            },
        }
    }

    /// The grid's invariant: it is rectangular, no blocked cell holds a
    /// placement, and placements cover whole blocks that do not overlap.
    pub open spec fn wf(self) -> bool {
        &&& self.shaped()
        &&& forall|r: int, c: int| self.in_bounds(r, c) ==> #[trigger] self.cell_ok(r, c)
    }

    /// How many cells of the grid are of the given kind.
    pub open spec fn count(self, kind: CellKind) -> nat {
        count_in_rows(self.cells, kind, self.cells.len())
    }

    /// Twelve points per cell, the most that the scores of a plan can add up
    /// to either way, fit the machine's score type.
    pub open spec fn scores_fit(self) -> bool {
        12 * (self.rows * self.cols) <= i32::MAX
    }

    /// This grid has grown out of the earlier one: it has the same size and
    /// the same blocked cells, and every cell that was occupied is unchanged.
    pub open spec fn extends(self, earlier: GridView) -> bool {
        &&& self.rows == earlier.rows
        &&& self.cols == earlier.cols
        &&& forall|r: int, c: int|
            earlier.in_bounds(r, c) ==> {
                &&& (#[trigger] self.cells[r][c]).blocked == earlier.cells[r][c].blocked
                &&& !earlier.is_free(r, c) ==> self.cells[r][c] == earlier.cells[r][c]
            }
    }
}

/// No more cells of a row are of a kind than the row was counted over.
pub proof fn lemma_count_in_row_le(row: Seq<CellView>, kind: CellKind, n: nat)
    ensures
        count_in_row(row, kind, n) <= n,
    decreases n,
{
    if n > 0 {
        lemma_count_in_row_le(row, kind, (n - 1) as nat);
    }
}

/// A cell that holds a variety is not free: the two counts of a row
/// together stay within the cells counted.
pub proof fn lemma_count_in_row_apart(row: Seq<CellView>, id: Seq<char>, n: nat)
    ensures
        count_in_row(row, CellKind::Holding(id), n) + count_in_row(row, CellKind::Free, n) <= n,
    decreases n,
{
    if n > 0 {
        lemma_count_in_row_apart(row, id, (n - 1) as nat);
    }
}

/// The same for the first `n` rows of a rectangular matrix.
pub proof fn lemma_count_in_rows_apart(grid: GridView, id: Seq<char>, n: nat)
    requires
        grid.shaped(),
        n <= grid.rows,
    ensures
        count_in_rows(grid.cells, CellKind::Holding(id), n) + count_in_rows(
            grid.cells,
            CellKind::Free,
            n,
        ) <= n * grid.cols,
    decreases n,
{
    if n > 0 {
        lemma_count_in_rows_apart(grid, id, (n - 1) as nat);
        lemma_count_in_row_apart(grid.cells[n - 1], id, grid.cells[n - 1].len());
        let m = (n - 1) as nat;
        assert(n * grid.cols == m * grid.cols + grid.cols) by (nonlinear_arith)
            requires
                m == n - 1,
        ;
    }
}

/// No more cells of the first `n` rows are of a kind than those rows hold.
pub proof fn lemma_count_in_rows_le(grid: GridView, kind: CellKind, n: nat)
    requires
        grid.shaped(),
        n <= grid.rows,
    ensures
        count_in_rows(grid.cells, kind, n) <= n * grid.cols,
    decreases n,
{
    if n > 0 {
        lemma_count_in_rows_le(grid, kind, (n - 1) as nat);
        lemma_count_in_row_le(grid.cells[n - 1], kind, grid.cells[n - 1].len());
        let m = (n - 1) as nat;
        assert(n * grid.cols == m * grid.cols + grid.cols) by (nonlinear_arith)
            requires
                m == n - 1,
        ;
    }
}

/// A row none of whose cells is of a kind counts zero of that kind.
pub proof fn lemma_count_in_row_none(row: Seq<CellView>, kind: CellKind, n: nat)
    requires
        n <= row.len(),
        forall|j: int| 0 <= j < n ==> !(#[trigger] row[j]).is_kind(kind),
    ensures
        count_in_row(row, kind, n) == 0,
    decreases n,
{
    if n > 0 {
        lemma_count_in_row_none(row, kind, (n - 1) as nat);
    }
}

/// A row all of whose cells are of a kind counts them all.
pub proof fn lemma_count_in_row_all(row: Seq<CellView>, kind: CellKind, n: nat)
    requires
        n <= row.len(),
        forall|j: int| 0 <= j < n ==> (#[trigger] row[j]).is_kind(kind),
    ensures
        count_in_row(row, kind, n) == n,
    decreases n,
{
    if n > 0 {
        lemma_count_in_row_all(row, kind, (n - 1) as nat);
    }
}

/// A grid without a free cell counts zero free cells.
pub proof fn lemma_no_free_cell(grid: GridView, n: nat)
    requires
        grid.shaped(),
        n <= grid.rows,
        forall|r: int, c: int| !grid.is_free(r, c),
    ensures
        count_in_rows(grid.cells, CellKind::Free, n) == 0,
    decreases n,
{
    if n > 0 {
        lemma_no_free_cell(grid, (n - 1) as nat);
        let row = grid.cells[n - 1];
        assert forall|j: int| 0 <= j < row.len() implies !(#[trigger] row[j]).is_kind(
            CellKind::Free,
        ) by {
            assert(!grid.is_free(n - 1, j));
        }
        lemma_count_in_row_none(row, CellKind::Free, row.len());
    }
}

/// A grid all of whose cells are of a kind counts them all.
pub proof fn lemma_count_in_rows_all(grid: GridView, kind: CellKind, n: nat)
    requires
        grid.shaped(),
        n <= grid.rows,
        forall|r: int, c: int| grid.in_bounds(r, c) ==> (#[trigger] grid.cell(r, c)).is_kind(kind),
    ensures
        count_in_rows(grid.cells, kind, n) == n * grid.cols,
    decreases n,
{
    if n > 0 {
        lemma_count_in_rows_all(grid, kind, (n - 1) as nat);
        let row = grid.cells[n - 1];
        assert(row.len() == grid.cols);
        assert forall|j: int| 0 <= j < row.len() implies (#[trigger] row[j]).is_kind(kind) by {
            assert(grid.cell(n - 1, j).is_kind(kind));
        }
        lemma_count_in_row_all(row, kind, row.len());
        let m = (n - 1) as nat;
        assert(n * grid.cols == m * grid.cols + grid.cols) by (nonlinear_arith)
            requires
                m == n - 1,
        ;
    } else {
        assert(n * grid.cols == 0) by (nonlinear_arith)
            requires
                n == 0,
        ;
    }
}

/// A grid none of whose cells is of a kind counts zero of that kind.
pub proof fn lemma_count_in_rows_none(grid: GridView, kind: CellKind, n: nat)
    requires
        grid.shaped(),
        n <= grid.rows,
        forall|r: int, c: int| grid.in_bounds(r, c) ==> !(#[trigger] grid.cell(r, c)).is_kind(kind),
    ensures
        count_in_rows(grid.cells, kind, n) == 0,
    decreases n,
{
    if n > 0 {
        lemma_count_in_rows_none(grid, kind, (n - 1) as nat);
        let row = grid.cells[n - 1];
        assert forall|j: int| 0 <= j < row.len() implies !(#[trigger] row[j]).is_kind(kind) by {
            assert(!grid.cell(n - 1, j).is_kind(kind));
        }
        lemma_count_in_row_none(row, kind, row.len());
    }
}

/// Where no blocked cell holds a placement, every cell is of exactly one of
/// the kinds occupied, blocked and free: the three counts of a row add up
/// to the cells counted.
pub proof fn lemma_count_in_row_partition(row: Seq<CellView>, n: nat)
    requires
        n <= row.len(),
        forall|j: int| 0 <= j < n ==> !((#[trigger] row[j]).vegetable is Some && row[j].blocked),
    ensures
        count_in_row(row, CellKind::Occupied, n) + count_in_row(row, CellKind::Blocked, n)
            + count_in_row(row, CellKind::Free, n) == n,
    decreases n,
{
    if n > 0 {
        lemma_count_in_row_partition(row, (n - 1) as nat);
    }
}

/// The same for the first `n` rows of a well-formed grid.
pub proof fn lemma_count_in_rows_partition(grid: GridView, n: nat)
    requires
        grid.wf(),
        n <= grid.rows,
    ensures
        count_in_rows(grid.cells, CellKind::Occupied, n) + count_in_rows(
            grid.cells,
            CellKind::Blocked,
            n,
        ) + count_in_rows(grid.cells, CellKind::Free, n) == n * grid.cols,
    decreases n,
{
    if n > 0 {
        lemma_count_in_rows_partition(grid, (n - 1) as nat);
        let row = grid.cells[n - 1];
        assert(row.len() == grid.cols);
        assert forall|j: int| 0 <= j < row.len() implies !((#[trigger] row[j]).vegetable is Some
            && row[j].blocked) by {
            assert(grid.cell_ok(n - 1, j));
        }
        lemma_count_in_row_partition(row, row.len());
        let m = (n - 1) as nat;
        assert(n * grid.cols == m * grid.cols + grid.cols) by (nonlinear_arith)
            requires
                m == n - 1,
        ;
    } else {
        assert(n * grid.cols == 0) by (nonlinear_arith)
            requires
                n == 0,
        ;
    }
}

/// A row that counts zero cells of a kind holds none among those counted.
pub proof fn lemma_zero_in_row(row: Seq<CellView>, kind: CellKind, n: nat, j: int)
    requires
        count_in_row(row, kind, n) == 0,
        0 <= j < n,
    ensures
        !row[j].is_kind(kind),
    decreases n,
{
    if j < n - 1 {
        lemma_zero_in_row(row, kind, (n - 1) as nat, j);
    }
}

/// A grid that counts zero cells of a kind holds none.
pub proof fn lemma_zero_in_rows(grid: GridView, kind: CellKind, n: nat, r: int, c: int)
    requires
        grid.shaped(),
        n <= grid.rows,
        count_in_rows(grid.cells, kind, n) == 0,
        0 <= r < n,
        0 <= c < grid.cols,
    ensures
        !grid.cells[r][c].is_kind(kind),
    decreases n,
{
    if r < n - 1 {
        lemma_zero_in_rows(grid, kind, (n - 1) as nat, r, c);
    } else {
        lemma_zero_in_row(grid.cells[r], kind, grid.cells[r].len(), c);
    }
}

/// Two cells of a well-formed grid whose placements have the same anchor hold
/// the same placement, and so does every cell of the rectangle between them.
pub proof fn lemma_same_block(grid: GridView, r1: int, c1: int, r2: int, c2: int, r: int, c: int)
    requires
        grid.wf(),
        grid.placement_at(r1, c1) is Some,
        grid.placement_at(r2, c2) is Some,
        grid.placement_at(r1, c1)->0.anchor == grid.placement_at(r2, c2)->0.anchor,
        r1 <= r <= r2 || r2 <= r <= r1,
        c1 <= c <= c2 || c2 <= c <= c1,
    ensures
        grid.placement_at(r, c) == grid.placement_at(r1, c1),
{
    let p = grid.placement_at(r1, c1)->0;
    let q = grid.placement_at(r2, c2)->0;
    assert(grid.cell_ok(r1, c1));
    assert(grid.cell_ok(r2, c2));
    assert(grid.placement_at(p.anchor.row as int, p.anchor.col as int) == Some(p));
    assert(grid.placement_at(q.anchor.row as int, q.anchor.col as int) == Some(q));
}

/// Around a free cell of a well-formed grid, the ring of the cell's own
/// block is the four cells that share an edge with it: the distinct
/// placements on the ring are the placements of those cells.
pub proof fn lemma_single_cell_ring(grid: GridView, r: int, c: int)
    requires
        grid.wf(),
        grid.is_free(r, c),
    ensures
        grid.block_neighbors(r, c, 1) == grid.axis_neighbors(r, c),
{
    let up = grid.placement_at(r - 1, c);
    let down = grid.placement_at(r + 1, c);
    let left = grid.placement_at(r, c - 1);
    let right = grid.placement_at(r, c + 1);
    let none = Seq::<PlacedView>::empty();
    let first = note_placement(none, up);
    let second = note_placement(first, down);
    let third = note_placement(second, left);
    let fourth = note_placement(third, right);
    assert(perimeter_cell(r, c, 1, 0) == (r - 1, c));
    assert(perimeter_cell(r, c, 1, 1) == (r + 1, c));
    assert(perimeter_cell(r, c, 1, 2) == (r, c - 1));
    assert(perimeter_cell(r, c, 1, 3) == (r, c + 1));
    assert(grid.neighbors_upto(r, c, 1, 0) == none);
    assert(grid.neighbors_upto(r, c, 1, 1) == first);
    assert(grid.neighbors_upto(r, c, 1, 2) == second);
    assert(grid.neighbors_upto(r, c, 1, 3) == third);
    assert(grid.neighbors_upto(r, c, 1, 4) == fourth);
    if up is Some && down is Some && up->0.anchor == down->0.anchor {
        lemma_same_block(grid, r - 1, c, r + 1, c, r, c);
    }
    if up is Some && left is Some && up->0.anchor == left->0.anchor {
        lemma_same_block(grid, r - 1, c, r, c - 1, r, c);
    }
    if up is Some && right is Some && up->0.anchor == right->0.anchor {
        lemma_same_block(grid, r - 1, c, r, c + 1, r, c);
    }
    if down is Some && left is Some && down->0.anchor == left->0.anchor {
        lemma_same_block(grid, r + 1, c, r, c - 1, r, c);
    }
    if down is Some && right is Some && down->0.anchor == right->0.anchor {
        lemma_same_block(grid, r + 1, c, r, c + 1, r, c);
    }
    if left is Some && right is Some && left->0.anchor == right->0.anchor {
        lemma_same_block(grid, r, c - 1, r, c + 1, r, c);
    }
    assert(first =~= optional(up));
    assert(!(down is Some && has_anchor(first, down->0.anchor)));
    assert(second =~= optional(up) + optional(down));
    assert(!(left is Some && has_anchor(second, left->0.anchor)));
    assert(third =~= optional(up) + optional(down) + optional(left));
    assert(!(right is Some && has_anchor(third, right->0.anchor)));
    assert(fourth =~= optional(up) + optional(down) + optional(left) + optional(right));
}

/// Growing out of an earlier grid carries over to a grid that grew out of
/// this one.
pub proof fn lemma_extends_transitive(first: GridView, second: GridView, third: GridView)
    requires
        second.extends(first),
        third.extends(second),
    ensures
        third.extends(first),
{
    assert forall|r: int, c: int| first.in_bounds(r, c) implies {
        &&& (#[trigger] third.cells[r][c]).blocked == first.cells[r][c].blocked
        &&& !first.is_free(r, c) ==> third.cells[r][c] == first.cells[r][c]
    } by {
        assert(second.cells[r][c].blocked == first.cells[r][c].blocked);
        assert(third.cells[r][c].blocked == second.cells[r][c].blocked);
    }
}

/// A sequence of the value, if there is one.
pub open spec fn optional(p: Option<PlacedView>) -> Seq<PlacedView> {
    match p {
        Some(v) => seq![v],
        None => Seq::empty(),
    }
}

/// `base + delta` where that is below `limit`.
fn offset_within(base: usize, delta: usize, limit: usize) -> (at: Option<usize>)
    ensures
        at == if base + delta < limit {
            Some((base + delta) as usize)
        } else {
            None
        },
{
    if delta < limit && base < limit - delta {
        Some(base + delta)
    } else {
        None
    }
}

/// `base - 1` where `base` is positive and that is below `limit`.
fn step_back_within(base: usize, limit: usize) -> (at: Option<usize>)
    ensures
        at == if 0 <= base - 1 < limit {
            Some((base - 1) as usize)
        } else {
            None
        },
{
    if base > 0 && base - 1 < limit {
        Some(base - 1)
    } else {
        None
    }
}

/// The placement at a position given by a row and a column that are `None`
/// where they fall outside the grid.
pub open spec fn placement_at_checked(
    grid: GridView,
    r: Option<usize>,
    c: Option<usize>,
) -> Option<PlacedView> {
    match (r, c) {
        (Some(r), Some(c)) => grid.placement_at(r as int, c as int),
        _ => None,
    }
}

impl GardenGrid {
    /// The shape of the view is the shape of the matrix itself.
    pub proof fn lemma_shape(&self)
        requires
            self@.shaped(),
        ensures
            self.cells@.len() == self.rows,
            forall|r: int| 0 <= r < self.rows ==> (#[trigger] self.cells@[r])@.len() == self.cols,
    {
        assert forall|r: int| 0 <= r < self.rows implies (#[trigger] self.cells@[r])@.len()
            == self.cols by {
            assert(self@.cells[r].len() == self.cols);
        }
    }

    /// A grid of the given size in which every cell is empty and unblocked.
    pub fn new(rows: usize, cols: usize) -> (grid: Self)
        ensures
            grid@.rows == rows,
            grid@.cols == cols,
            grid@.wf(),
            forall|r: int, c: int| grid@.in_bounds(r, c) ==> #[trigger] grid@.is_free(r, c),
    {
        let mut cells: Vec<Vec<Cell>> = Vec::new();
        let mut r: usize = 0;
        while r < rows
            invariant
                r <= rows,
                cells.len() == r,
                forall|i: int| 0 <= i < r ==> (#[trigger] cells@[i]).len() == cols,
                forall|i: int, j: int|
                    0 <= i < r && 0 <= j < cols ==> (#[trigger] cells@[i]@[j]).vegetable is None
                        && !cells@[i]@[j].blocked,
            decreases rows - r,
        {
            let mut row: Vec<Cell> = Vec::new();
            let mut c: usize = 0;
            while c < cols
                invariant
                    c <= cols,
                    row.len() == c,
                    forall|j: int|
                        0 <= j < c ==> (#[trigger] row@[j]).vegetable is None && !row@[j].blocked,
                decreases cols - c,
            {
                row.push(Cell { vegetable: None, blocked: false });
                c += 1;
            }
            cells.push(row);
            r += 1;
        }
        let grid = GardenGrid { rows, cols, cells };
        proof {
            assert(grid@.shaped());
            assert forall|i: int, j: int| grid@.in_bounds(i, j) implies #[trigger] grid@.is_free(
                i,
                j,
            ) by {
                assert(grid.cells@[i]@[j].vegetable is None);
            }
            assert forall|i: int, j: int| grid@.in_bounds(i, j) implies #[trigger] grid@.cell_ok(
                i,
                j,
            ) by {
                assert(grid@.is_free(i, j));
            }
        }
        grid
    }

    /// The placements in the four cells that share an edge with
    /// `(row, col)`, in the order above, below, left, right.
    pub fn get_neighbors(&self, row: usize, col: usize) -> (neighbors: Vec<&PlacedVegetable>)
        requires
            self@.shaped(),
        ensures
            view_each(neighbors@) == self@.axis_neighbors(row as int, col as int),
    {
        let mut neighbors: Vec<&PlacedVegetable> = Vec::new();
        let same_row = offset_within(row, 0, self.rows);
        let same_col = offset_within(col, 0, self.cols);
        self.push_placement(&mut neighbors, step_back_within(row, self.rows), same_col);
        self.push_placement(&mut neighbors, offset_within(row, 1, self.rows), same_col);
        self.push_placement(&mut neighbors, same_row, step_back_within(col, self.cols));
        self.push_placement(&mut neighbors, same_row, offset_within(col, 1, self.cols));
        neighbors
    }

    /// Appends the placement at the position, if there is one.
    fn push_placement<'a>(
        &'a self,
        found: &mut Vec<&'a PlacedVegetable>,
        r: Option<usize>,
        c: Option<usize>,
    )
        requires
            self@.shaped(),
        ensures
            view_each(final(found)@) == view_each(old(found)@) + optional(
                placement_at_checked(self@, r, c),
            ),
    {
        let ghost before = view_each(found@);
        match (r, c) {
            (Some(r), Some(c)) => {
                if r < self.rows && c < self.cols {
                    match &self.cells[r][c].vegetable {
                        Some(v) => {
                            found.push(v);
                            assert(view_each(found@) =~= before + seq![v@]);
                        },
                        None => {
                            assert(before + Seq::<PlacedView>::empty() =~= before);
                        },
                    }
                } else {
                    assert(before + Seq::<PlacedView>::empty() =~= before);
                }
            },
            _ => {
                assert(before + Seq::<PlacedView>::empty() =~= before);
            },
        }
    }

    /// Returns true when every cell in the `span × span` block starting at
    /// `(row, col)` lies in the grid, holds no placement and is not blocked.
    pub fn is_block_free(&self, row: usize, col: usize, span: usize) -> (free: bool)
        requires
            self@.shaped(),
        ensures
            free == self@.block_free(row as int, col as int, span as int),
    {
        if span > self.rows || row > self.rows - span || span > self.cols || col > self.cols
            - span {
            return false;
        }
        let mut dr: usize = 0;
        while dr < span
            invariant
                self@.shaped(),
                dr <= span,
                row + span <= self.rows,
                col + span <= self.cols,
                forall|i: int, j: int|
                    row <= i < row + dr && col <= j < col + span ==> #[trigger] self@.is_free(i, j),
            decreases span - dr,
        {
            let mut dc: usize = 0;
            while dc < span
                invariant
                    self@.shaped(),
                    dr < span,
                    dc <= span,
                    row + span <= self.rows,
                    col + span <= self.cols,
                    forall|i: int, j: int|
                        row <= i < row + dr && col <= j < col + span ==> #[trigger] self@.is_free(
                            i,
                            j,
                        ),
                    forall|j: int| col <= j < col + dc ==> #[trigger] self@.is_free(row + dr, j),
                decreases span - dc,
            {
                proof {
                    self.lemma_shape();
                }
                let cell = &self.cells[row + dr][col + dc];
                if cell.vegetable.is_some() || cell.blocked {
                    assert(!self@.is_free(row + dr, col + dc));
                    return false;
                }
                assert(self@.is_free(row + dr, col + dc));
                dc += 1;
            }
            dr += 1;
        }
        true
    }

    /// Adds the placement at the position to those found, unless its block
    /// was found before.
    fn note_neighbor<'a>(
        &'a self,
        found: &mut Vec<&'a PlacedVegetable>,
        r: Option<usize>,
        c: Option<usize>,
    )
        requires
            self@.shaped(),
        ensures
            view_each(final(found)@) == note_placement(
                view_each(old(found)@),
                placement_at_checked(self@, r, c),
            ),
    {
        let ghost before = view_each(found@);
        match (r, c) {
            (Some(r), Some(c)) => {
                if r < self.rows && c < self.cols {
                    match &self.cells[r][c].vegetable {
                        Some(v) => {
                            let mut known = false;
                            let mut i: usize = 0;
                            while i < found.len()
                                invariant
                                    i <= found.len(),
                                    view_each(found@) == before,
                                    known == exists|k: int|
                                        0 <= k < i && (#[trigger] before[k]).anchor == v.anchor,
                                decreases found.len() - i,
                            {
                                if found[i].anchor == v.anchor {
                                    assert(before[i as int].anchor == v.anchor);
                                    known = true;
                                }
                                i += 1;
                            }
                            assert(known == has_anchor(before, v@.anchor));
                            if !known {
                                found.push(v);
                                assert(view_each(found@) =~= before.push(v@));
                            }
                        },
                        None => {},
                    }
                }
            },
            _ => {},
        }
    }

    /// Returns all distinct already-placed neighbours on the perimeter of a
    /// `span × span` block: each block that touches the ring is returned once,
    /// in the order in which the ring first meets it.
    pub fn get_block_neighbors(&self, row: usize, col: usize, span: usize) -> (neighbors: Vec<
        &PlacedVegetable,
    >)
        requires
            self@.shaped(),
        ensures
            view_each(neighbors@) == self@.block_neighbors(row as int, col as int, span as nat),
    {
        let mut neighbors: Vec<&PlacedVegetable> = Vec::new();
        let above = step_back_within(row, self.rows);
        let below = offset_within(row, span, self.rows);
        let left = step_back_within(col, self.cols);
        let right = offset_within(col, span, self.cols);
        assert(view_each(neighbors@) =~= Seq::<PlacedView>::empty());
        let mut d: usize = 0;
        while d < span
            invariant
                self@.shaped(),
                d <= span,
                above == step_back_within_spec(row, self.rows),
                below == offset_within_spec(row, span, self.rows),
                left == step_back_within_spec(col, self.cols),
                right == offset_within_spec(col, span, self.cols),
                view_each(neighbors@) == self@.neighbors_upto(
                    row as int,
                    col as int,
                    span as int,
                    (4 * d) as nat,
                ),
            decreases span - d,
        {
            let ghost r = row as int;
            let ghost c = col as int;
            let ghost s = span as int;
            let along_col = offset_within(col, d, self.cols);
            let along_row = offset_within(row, d, self.rows);
            proof {
                assert(perimeter_cell(r, c, s, 4 * d) == (r - 1, c + d));
                assert(perimeter_cell(r, c, s, 4 * d + 1) == (r + s, c + d));
                assert(perimeter_cell(r, c, s, 4 * d + 2) == (r + d, c - 1));
                assert(perimeter_cell(r, c, s, 4 * d + 3) == (r + d, c + s));
                assert(placement_at_checked(self@, above, along_col) == self@.placement_at(
                    r - 1,
                    c + d,
                ));
                assert(placement_at_checked(self@, below, along_col) == self@.placement_at(
                    r + s,
                    c + d,
                ));
                assert(placement_at_checked(self@, along_row, left) == self@.placement_at(
                    r + d,
                    c - 1,
                ));
                assert(placement_at_checked(self@, along_row, right) == self@.placement_at(
                    r + d,
                    c + s,
                ));
            }
            self.note_neighbor(&mut neighbors, above, along_col);
            assert(view_each(neighbors@) == self@.neighbors_upto(r, c, s, (4 * d + 1) as nat));
            self.note_neighbor(&mut neighbors, below, along_col);
            assert(view_each(neighbors@) == self@.neighbors_upto(r, c, s, (4 * d + 2) as nat));
            self.note_neighbor(&mut neighbors, along_row, left);
            assert(view_each(neighbors@) == self@.neighbors_upto(r, c, s, (4 * d + 3) as nat));
            self.note_neighbor(&mut neighbors, along_row, right);
            assert(view_each(neighbors@) == self@.neighbors_upto(r, c, s, (4 * d + 4) as nat));
            d += 1;
        }
        neighbors
    }
}

pub open spec fn offset_within_spec(base: usize, delta: usize, limit: usize) -> Option<usize> {
    if base + delta < limit {
        Some((base + delta) as usize)
    } else {
        None
    }
}

pub open spec fn step_back_within_spec(base: usize, limit: usize) -> Option<usize> {
    if 0 <= base - 1 < limit {
        Some((base - 1) as usize)
    } else {
        None
    }
}

} // verus!

//! Greedy placer: finds the best-scoring free block for a variety and
//! commits it, once per queue entry and then in sweeps until nothing fits.

use vstd::prelude::*;
use crate::logic::companion::{companion_score, lemma_score_bounds, score_of};
use crate::logic::spacing::{cell_span, plants_in_cell, plants_per_cell, span_of};
use crate::logic::text::{join_with_commas, joined};
use crate::models::garden::{
    count_in_row, count_in_rows, CellKind, CellView, GardenGrid, GridView, PlacedVegetable,
    PlacedView,
};
use crate::models::vegetable::{category_label, Vegetable, VegetableView};
use crate::models::{view_each, Coordinate};

verus! {

/// The identifiers of the placements, in the same order.
pub open spec fn ids_of(placements: Seq<PlacedView>) -> Seq<Seq<char>> {
    Seq::new(placements.len(), |i: int| placements[i].id)
}

/// The display names of the placements, in the same order.
pub open spec fn names_of(placements: Seq<PlacedView>) -> Seq<Seq<char>> {
    Seq::new(placements.len(), |i: int| placements[i].name)
}

/// The span of a variety, in cells per axis.
pub open spec fn span_for(variety: VegetableView) -> nat {
    span_of(variety.spacing_cm as nat)
}

/// The companion score of a variety for the block at `(r, c)`: its score
/// against the distinct placements on the block's ring.
pub open spec fn score_at(grid: GridView, variety: VegetableView, r: int, c: int) -> int {
    score_of(variety, ids_of(grid.block_neighbors(r, c, span_for(variety))))
}

/// Row-major order of positions.
pub open spec fn scans_before(r1: int, c1: int, r2: int, c2: int) -> bool {
    r1 < r2 || (r1 == r2 && c1 < c2)
}

/// `(r, c)` is the block that the placer commits for the variety, with
/// score `s`: it is free, no free block scores higher, and every free block
/// that a row-major scan meets earlier scores strictly lower.
pub open spec fn is_best_block(grid: GridView, variety: VegetableView, r: int, c: int, s: int) -> bool {
    &&& 0 <= r
    &&& 0 <= c
    &&& grid.block_free(r, c, span_for(variety) as int)
    &&& s == score_at(grid, variety, r, c)
    &&& forall|i: int, j: int|
        0 <= i && 0 <= j && #[trigger] grid.block_free(i, j, span_for(variety) as int) ==> {
            &&& score_at(grid, variety, i, j) <= s
            &&& scans_before(i, j, r, c) ==> score_at(grid, variety, i, j) < s
        }
}

/// Some free block exists for the variety.
pub open spec fn has_free_block(grid: GridView, variety: VegetableView) -> bool {
    exists|i: int, j: int|
        0 <= i && 0 <= j && #[trigger] grid.block_free(i, j, span_for(variety) as int)
}

/// The block that the placer commits for the variety, with its score, or
/// `None` when there is none.
pub open spec fn best_block(grid: GridView, variety: VegetableView) -> Option<(int, int, int)> {
    if exists|p: (int, int, int)| is_best_block(grid, variety, p.0, p.1, p.2) {
        Some(choose|p: (int, int, int)| is_best_block(grid, variety, p.0, p.1, p.2))
    } else {
        None
    }
}

/// At most one block is the best one.
pub proof fn lemma_best_block_unique(
    grid: GridView,
    variety: VegetableView,
    a: (int, int, int),
    b: (int, int, int),
)
    requires
        is_best_block(grid, variety, a.0, a.1, a.2),
        is_best_block(grid, variety, b.0, b.1, b.2),
    ensures
        a == b,
{
    if a.0 != b.0 || a.1 != b.1 {
        assert(scans_before(a.0, a.1, b.0, b.1) || scans_before(b.0, b.1, a.0, a.1));
    }
}

/// The note that a placement carries. A plant without neighbours, as the
/// first one on an empty grid is, gets the generic note that names its
/// category and beginner status; any other gets its name, a qualifier chosen
/// by the sign of the score, and the names of its neighbours.
pub open spec fn reason_text(variety: VegetableView, neighbor_names: Seq<Seq<char>>, score: int) -> Seq<
    char,
> {
    if neighbor_names.len() == 0 {
        "First placed ("@ + category_label(variety.category) + (if variety.beginner_friendly {
            ", beginner-friendly"@
        } else {
            Seq::empty()
        }) + ") "@
    } else {
        variety.name + " "@ + (if score > 0 {
            "good companion with"@
        } else if score < 0 {
            "constrained placement near"@
        } else {
            "neutral with"@
        }) + " "@ + joined(neighbor_names, ", "@) + (if variety.beginner_friendly {
            " (beginner-friendly)"@
        } else {
            Seq::empty()
        })
    }
}

/// The placement that every cell of a committed block carries.
pub open spec fn placement_of(variety: VegetableView, r: int, c: int, reason: Seq<char>) -> PlacedView {
    PlacedView {
        id: variety.id,
        name: variety.name,
        reason,
        plants_per_cell: plants_in_cell(variety.spacing_cm as nat) as u32,
        span: span_for(variety) as u32,
        anchor: Coordinate { row: r as usize, col: c as usize },
    }
}

/// `(i, j)` lies in the `span × span` block at `(r, c)`.
pub open spec fn in_block(r: int, c: int, span: int, i: int, j: int) -> bool {
    r <= i < r + span && c <= j < c + span
}

/// The grid after the variety's block at `(r, c)` has been filled: every
/// cell of the block carries the placement, every other cell is unchanged.
pub open spec fn commit(grid: GridView, variety: VegetableView, r: int, c: int, reason: Seq<char>) -> GridView {
    GridView {
        rows: grid.rows,
        cols: grid.cols,
        cells: Seq::new(
            grid.cells.len(),
            |i: int|
                Seq::new(
                    grid.cells[i].len(),
                    |j: int|
                        if in_block(r, c, span_for(variety) as int, i, j) {
                            CellView {
                                vegetable: Some(placement_of(variety, r, c, reason)),
                                blocked: grid.cells[i][j].blocked,
                            }
                        } else {
                            grid.cells[i][j]
                        },
                ),
        ),
    }
}

/// The note for committing the variety at `(r, c)` with score `s`.
pub open spec fn reason_at(grid: GridView, variety: VegetableView, r: int, c: int, s: int) -> Seq<char> {
    reason_text(variety, names_of(grid.block_neighbors(r, c, span_for(variety))), s)
}

/// One scan-and-commit: the grid after the variety's best block has been
/// filled, with the block's score; `None` when no free block exists.
pub open spec fn place_best(grid: GridView, variety: VegetableView) -> Option<(GridView, int)> {
    match best_block(grid, variety) {
        None => None,
        Some((r, c, s)) => Some((commit(grid, variety, r, c, reason_at(grid, variety, r, c, s)), s)),
    }
}

/// How many of the indices below `n` lie in `[start, start + len)`.
pub open spec fn overlap(n: int, start: int, len: int) -> int {
    if n <= start {
        0
    } else if n >= start + len {
        len
    } else {
        n - start
    }
}

proof fn lemma_row_free_count(before: Seq<CellView>, after: Seq<CellView>, c: int, span: int, n: nat)
    requires
        0 <= c,
        0 <= span,
        c + span <= before.len(),
        after.len() == before.len(),
        n <= before.len(),
        forall|j: int| 0 <= j < before.len() && !(c <= j < c + span) ==> after[j] == before[j],
        forall|j: int| c <= j < c + span ==> before[j].is_free() && !after[j].is_free(),
    ensures
        count_in_row(after, CellKind::Free, n) + overlap(n as int, c, span) == count_in_row(
            before,
            CellKind::Free,
            n,
        ),
    decreases n,
{
    if n > 0 {
        lemma_row_free_count(before, after, c, span, (n - 1) as nat);
    }
}

proof fn lemma_commit_free_rows(
    grid: GridView,
    variety: VegetableView,
    r: int,
    c: int,
    reason: Seq<char>,
    n: nat,
)
    requires
        grid.shaped(),
        0 <= r,
        0 <= c,
        grid.block_free(r, c, span_for(variety) as int),
        n <= grid.rows,
    ensures
        count_in_rows(commit(grid, variety, r, c, reason).cells, CellKind::Free, n) + span_for(
            variety,
        ) * overlap(n as int, r, span_for(variety) as int) == count_in_rows(
            grid.cells,
            CellKind::Free,
            n,
        ),
    decreases n,
{
    if n > 0 {
        lemma_commit_free_rows(grid, variety, r, c, reason, (n - 1) as nat);
        let i = n - 1;
        let after = commit(grid, variety, r, c, reason);
        let span = span_for(variety) as int;
        let less = overlap(n - 1, r, span);
        if r <= i < r + span {
            assert forall|j: int| c <= j < c + span implies grid.cells[i][j].is_free()
                && !after.cells[i][j].is_free() by {
                assert(grid.is_free(i, j));
            }
            lemma_row_free_count(grid.cells[i], after.cells[i], c, span, grid.cells[i].len());
            assert(overlap(n as int, r, span) == less + 1);
            assert(span * (less + 1) == span * less + span) by (nonlinear_arith);
        } else {
            assert(after.cells[i] =~= grid.cells[i]);
            assert(overlap(n as int, r, span) == less);
        }
    }
}

/// Committing a free block takes exactly the block's cells out of the free
/// ones.
pub proof fn lemma_commit_free_count(
    grid: GridView,
    variety: VegetableView,
    r: int,
    c: int,
    reason: Seq<char>,
)
    requires
        grid.shaped(),
        0 <= r,
        0 <= c,
        grid.block_free(r, c, span_for(variety) as int),
    ensures
        commit(grid, variety, r, c, reason).count(CellKind::Free) + span_for(variety) * span_for(
            variety,
        ) == grid.count(CellKind::Free),
{
    lemma_commit_free_rows(grid, variety, r, c, reason, grid.rows as nat);
}

/// Committing a free block of a well-formed grid leaves a well-formed grid
/// that has grown out of it.
pub proof fn lemma_commit_wf(grid: GridView, variety: VegetableView, r: int, c: int, reason: Seq<char>)
    requires
        grid.wf(),
        0 <= r,
        0 <= c,
        grid.block_free(r, c, span_for(variety) as int),
    ensures
        commit(grid, variety, r, c, reason).wf(),
        commit(grid, variety, r, c, reason).extends(grid),
{
    let after = commit(grid, variety, r, c, reason);
    let span = span_for(variety) as int;
    let p = placement_of(variety, r, c, reason);
    assert(1 <= span <= 143_165_577);
    assert(after.shaped());
    assert forall|i: int, j: int| after.in_bounds(i, j) implies #[trigger] after.cell_ok(i, j) by {
        if in_block(r, c, span, i, j) {
            assert(grid.is_free(i, j));
            assert(after.cells[i][j].vegetable == Some(p));
            assert forall|i2: int, j2: int|
                p.anchor.row <= i2 < p.anchor.row + p.span && p.anchor.col <= j2 < p.anchor.col
                    + p.span implies #[trigger] after.placement_at(i2, j2) == Some(p) by {
                assert(in_block(r, c, span, i2, j2));
            }
        } else {
            assert(grid.cell_ok(i, j));
            assert(after.cells[i][j] == grid.cells[i][j]);
            match grid.cells[i][j].vegetable {
                None => {},
                Some(q) => {
                    assert forall|i2: int, j2: int|
                        q.anchor.row <= i2 < q.anchor.row + q.span && q.anchor.col <= j2
                            < q.anchor.col + q.span implies #[trigger] after.placement_at(i2, j2)
                        == Some(q) by {
                        assert(grid.placement_at(i2, j2) == Some(q));
                        if in_block(r, c, span, i2, j2) {
                            assert(grid.is_free(i2, j2));
                        }
                    }
                },
            }
        }
    }
    assert forall|i: int, j: int| grid.in_bounds(i, j) implies {
        &&& (#[trigger] after.cells[i][j]).blocked == grid.cells[i][j].blocked
        &&& !grid.is_free(i, j) ==> after.cells[i][j] == grid.cells[i][j]
    } by {
        if in_block(r, c, span, i, j) {
            assert(grid.is_free(i, j));
        }
    }
}

/// One scan-and-commit on a well-formed grid leaves a well-formed grid that
/// has grown out of it, takes at least one cell out of the free ones, and
/// scores within twelve points per cell taken.
pub open spec fn grown_by(after: GridView, before: GridView, score: int) -> bool {
    &&& after.wf()
    &&& after.extends(before)
    &&& after.count(CellKind::Free) <= before.count(CellKind::Free)
    &&& -12 * (before.count(CellKind::Free) - after.count(CellKind::Free)) <= score
    &&& score <= 12 * (before.count(CellKind::Free) - after.count(CellKind::Free))
}

/// What holds of one scan-and-commit on a well-formed grid.
pub proof fn lemma_place_best(grid: GridView, variety: VegetableView)
    requires
        grid.wf(),
    ensures
        match place_best(grid, variety) {
            Some((after, s)) => grown_by(after, grid, s) && after.count(CellKind::Free)
                < grid.count(CellKind::Free),
            None => true,
        },
{
    match best_block(grid, variety) {
        None => {},
        Some((r, c, s)) => {
            let p = choose|p: (int, int, int)| is_best_block(grid, variety, p.0, p.1, p.2);
            assert(is_best_block(grid, variety, r, c, s));
            let reason = reason_at(grid, variety, r, c, s);
            lemma_commit_wf(grid, variety, r, c, reason);
            lemma_commit_free_count(grid, variety, r, c, reason);
            lemma_score_at_bounds(grid, variety, r, c);
            let span = span_for(variety) as int;
            assert(span * span >= span) by (nonlinear_arith)
                requires
                    span >= 1,
            ;
        },
    }
}

/// The ring of a block holds at most four placements per cell of its side.
pub proof fn lemma_neighbors_len(grid: GridView, r: int, c: int, span: int, k: nat)
    ensures
        grid.neighbors_upto(r, c, span, k).len() <= k,
    decreases k,
{
    if k > 0 {
        lemma_neighbors_len(grid, r, c, span, (k - 1) as nat);
    }
}

/// The score of a block lies within twelve points per cell of its side.
pub proof fn lemma_score_at_bounds(grid: GridView, variety: VegetableView, r: int, c: int)
    ensures
        -12 * span_for(variety) <= score_at(grid, variety, r, c) <= 8 * span_for(variety),
{
    let span = span_for(variety);
    lemma_neighbors_len(grid, r, c, span as int, 4 * span);
    lemma_score_bounds(variety, ids_of(grid.block_neighbors(r, c, span)));
}

fn neighbor_ids<'a>(neighbors: &Vec<&'a PlacedVegetable>) -> (ids: Vec<&'a str>)
    ensures
        view_each(ids@) == ids_of(view_each(neighbors@)),
{
    let mut ids: Vec<&str> = Vec::new();
    let mut i: usize = 0;
    while i < neighbors.len()
        invariant
            i <= neighbors.len(),
            ids.len() == i,
            forall|k: int| 0 <= k < i ==> ids@[k]@ == neighbors@[k].id@,
        decreases neighbors.len() - i,
    {
        ids.push(neighbors[i].id.as_str());
        i += 1;
    }
    assert(view_each(ids@) =~= ids_of(view_each(neighbors@)));
    ids
}

fn neighbor_names(neighbors: &Vec<&PlacedVegetable>) -> (names: Vec<String>)
    ensures
        view_each(names@) == names_of(view_each(neighbors@)),
{
    let mut names: Vec<String> = Vec::new();
    let mut i: usize = 0;
    while i < neighbors.len()
        invariant
            i <= neighbors.len(),
            names.len() == i,
            forall|k: int| 0 <= k < i ==> names@[k]@ == neighbors@[k].name@,
        decreases neighbors.len() - i,
    {
        names.push(neighbors[i].name.clone());
        i += 1;
    }
    assert(view_each(names@) =~= names_of(view_each(neighbors@)));
    names
}

/// Scans the grid for the free `span × span` block that maximises the
/// companion score for `vegetable`; the first one found wins a tie.
/// Returns `Some((row, col, score))`, or `None` when no free block exists.
pub fn find_best_block(grid: &GardenGrid, vegetable: &Vegetable) -> (best: Option<(usize, usize, i32)>)
    requires
        grid@.shaped(),
    ensures
        match best {
            Some((r, c, s)) => best_block(grid@, vegetable@) == Some((r as int, c as int, s as int))
                && is_best_block(grid@, vegetable@, r as int, c as int, s as int),
            None => best_block(grid@, vegetable@) is None && !has_free_block(grid@, vegetable@),
        },
{
    let span = cell_span(vegetable.spacing_cm) as usize;
    let ghost g = grid@;
    let ghost v = vegetable@;
    let ghost sp = span as int;
    if span > grid.rows || span > grid.cols {
        assert(!has_free_block(g, v));
        return None;
    }
    let last_row = grid.rows - span;
    let last_col = grid.cols - span;
    let mut best: Option<(usize, usize, i32)> = None;
    let mut r: usize = 0;
    while r <= last_row
        invariant
            g == grid@,
            v == vegetable@,
            sp == span_for(v),
            sp == span,
            1 <= span <= 143_165_577,
            g.shaped(),
            last_row == grid.rows - span,
            last_col == grid.cols - span,
            r <= last_row + 1,
            best_so_far(g, v, as_ints(best), r as int, 0),
        decreases last_row + 1 - r,
    {
        let mut c: usize = 0;
        while c <= last_col
            invariant
                g == grid@,
                v == vegetable@,
                sp == span_for(v),
                sp == span,
                1 <= span <= 143_165_577,
                g.shaped(),
                last_row == grid.rows - span,
                last_col == grid.cols - span,
                r <= last_row,
                c <= last_col + 1,
                best_so_far(g, v, as_ints(best), r as int, c as int),
            decreases last_col + 1 - c,
        {
            if grid.is_block_free(r, c, span) {
                let neighbors = grid.get_block_neighbors(r, c, span);
                let ids = neighbor_ids(&neighbors);
                proof {
                    lemma_neighbors_len(g, r as int, c as int, sp, (4 * span) as nat);
                    assert(view_each(ids@).len() == ids@.len());
                    assert(view_each(neighbors@).len() == g.block_neighbors(
                        r as int,
                        c as int,
                        span as nat,
                    ).len());
                    assert(ids@.len() <= 4 * span);
                }
                let score = companion_score(vegetable, ids.as_slice());
                assert(score == score_at(g, v, r as int, c as int));
                let better = match best {
                    None => true,
                    Some((_, _, top)) => score > top,
                };
                if better {
                    best = Some((r, c, score));
                }
            }
            c += 1;
        }
        r += 1;
    }
    proof {
        match best {
            Some((br, bc, bs)) => {
                let found = (br as int, bc as int, bs as int);
                assert(is_best_block(g, v, found.0, found.1, found.2));
                let chosen = choose|p: (int, int, int)| is_best_block(g, v, p.0, p.1, p.2);
                lemma_best_block_unique(g, v, chosen, found);
            },
            None => {
                assert(!has_free_block(g, v));
            },
        }
    }
    best
}

/// The cell that a committed block leaves at a position of the block.
pub open spec fn filled_cell(
    grid: GridView,
    variety: VegetableView,
    r: int,
    c: int,
    reason: Seq<char>,
    i: int,
    j: int,
) -> CellView {
    CellView {
        vegetable: Some(placement_of(variety, r, c, reason)),
        blocked: grid.cells[i][j].blocked,
    }
}

/// Fills a single `span × span` block starting at `(row, col)` with
/// `vegetable`: every cell of the block gets the same placement.
pub fn fill_block(grid: &mut GardenGrid, vegetable: &Vegetable, row: usize, col: usize, reason: &str)
    requires
        old(grid)@.shaped(),
        row + span_for(vegetable@) <= old(grid).rows,
        col + span_for(vegetable@) <= old(grid).cols,
    ensures
        final(grid)@ == commit(old(grid)@, vegetable@, row as int, col as int, reason@),
{
    let span = cell_span(vegetable.spacing_cm) as usize;
    let ppc = plants_per_cell(vegetable.spacing_cm);
    let ghost start = grid@;
    let ghost v = vegetable@;
    let ghost r = row as int;
    let ghost c = col as int;
    let mut dr: usize = 0;
    while dr < span
        invariant
            v == vegetable@,
            r == row,
            c == col,
            span == span_for(v),
            ppc == plants_in_cell(v.spacing_cm as nat),
            start.shaped(),
            grid@.shaped(),
            grid.rows == start.rows,
            grid.cols == start.cols,
            row + span <= grid.rows,
            col + span <= grid.cols,
            dr <= span,
            forall|i: int, j: int|
                start.in_bounds(i, j) ==> #[trigger] grid@.cell(i, j) == if in_block(
                    r,
                    c,
                    span as int,
                    i,
                    j,
                ) && i < r + dr {
                    filled_cell(start, v, r, c, reason@, i, j)
                } else {
                    start.cell(i, j)
                },
        decreases span - dr,
    {
        let mut dc: usize = 0;
        while dc < span
            invariant
                v == vegetable@,
                r == row,
                c == col,
                span == span_for(v),
                ppc == plants_in_cell(v.spacing_cm as nat),
                start.shaped(),
                grid@.shaped(),
                grid.rows == start.rows,
                grid.cols == start.cols,
                row + span <= grid.rows,
                col + span <= grid.cols,
                dr < span,
                dc <= span,
                forall|i: int, j: int|
                    start.in_bounds(i, j) ==> #[trigger] grid@.cell(i, j) == if in_block(
                        r,
                        c,
                        span as int,
                        i,
                        j,
                    ) && (i < r + dr || (i == r + dr && j < c + dc)) {
                        filled_cell(start, v, r, c, reason@, i, j)
                    } else {
                        start.cell(i, j)
                    },
            decreases span - dc,
        {
            let ghost before = grid@;
            let ghost at_r = r + dr;
            let ghost at_c = c + dc;
            proof {
                grid.lemma_shape();
                assert(before.cell(at_r, at_c) == start.cell(at_r, at_c));
            }
            let placed = PlacedVegetable {
                id: vegetable.id.clone(),
                name: vegetable.name.clone(),
                reason: String::from_str(reason),
                plants_per_cell: ppc,
                span: span as u32,
                anchor: Coordinate { row, col },
            };
            assert(placed@ == placement_of(v, r, c, reason@));
            grid.cells[row + dr][col + dc].vegetable = Some(placed);
            proof {
                assert(grid.cells@.len() == before.cells.len());
                assert forall|i: int| 0 <= i < grid.rows implies (#[trigger] grid@.cells[i]).len()
                    == grid.cols by {
                    assert(before.cells[i].len() == grid.cols);
                }
                assert forall|i: int, j: int| start.in_bounds(i, j) implies #[trigger] grid@.cell(
                    i,
                    j,
                ) == if in_block(r, c, span as int, i, j) && (i < r + dr || (i == r + dr && j < c
                    + dc + 1)) {
                    filled_cell(start, v, r, c, reason@, i, j)
                } else {
                    start.cell(i, j)
                } by {
                    if i == at_r && j == at_c {
                        assert(grid@.cell(i, j) == filled_cell(start, v, r, c, reason@, i, j));
                    } else {
                        assert(grid@.cell(i, j) == before.cell(i, j));
                    }
                }
            }
            dc += 1;
        }
        dr += 1;
    }
    proof {
        let target = commit(start, v, r, c, reason@);
        assert(grid@.cells.len() == target.cells.len());
        assert forall|i: int| 0 <= i < grid@.cells.len() implies grid@.cells[i]
            =~= target.cells[i] by {
            assert(start.cells[i].len() == start.cols);
            assert(grid@.cells[i].len() == start.cols);
            assert forall|j: int| 0 <= j < start.cols implies grid@.cells[i][j]
                == target.cells[i][j] by {
                assert(grid@.cell(i, j) == grid@.cells[i][j]);
            }
        }
        assert(grid@.cells =~= target.cells);
    }
}

/// Writes the note of a placement.
pub fn build_reason(vegetable: &Vegetable, neighbor_names: &Vec<String>, score: i32) -> (reason: String)
    ensures
        reason@ == reason_text(vegetable@, view_each(neighbor_names@), score as int),
{
    if neighbor_names.len() == 0 {
        let mut reason = String::from_str("First placed (");
        reason.append(vegetable.category.label());
        if vegetable.beginner_friendly {
            reason.append(", beginner-friendly");
        } else {
            assert(reason@ + Seq::<char>::empty() =~= reason@);
        }
        reason.append(") ");
        reason
    } else {
        let mut reason = vegetable.name.clone();
        reason.append(" ");
        if score > 0 {
            reason.append("good companion with");
        } else if score < 0 {
            reason.append("constrained placement near");
        } else {
            reason.append("neutral with");
        }
        reason.append(" ");
        let names = join_with_commas(neighbor_names);
        reason.append(names.as_str());
        if vegetable.beginner_friendly {
            reason.append(" (beginner-friendly)");
        } else {
            assert(reason@ + Seq::<char>::empty() =~= reason@);
        }
        reason
    }
}

/// One scan-and-commit for the variety: fills its best block, if a free
/// block exists, and returns the block's score.
pub fn commit_best_block(grid: &mut GardenGrid, vegetable: &Vegetable) -> (score: Option<i32>)
    requires
        old(grid)@.shaped(),
    ensures
        match place_best(old(grid)@, vegetable@) {
            Some((after, s)) => score == Some(s as i32) && s == s as i32 && final(grid)@ == after,
            None => score is None && final(grid)@ == old(grid)@ && !has_free_block(
                old(grid)@,
                vegetable@,
            ),
        },
{
    match find_best_block(grid, vegetable) {
        None => None,
        Some((r, c, score)) => {
            let span = cell_span(vegetable.spacing_cm) as usize;
            let neighbors = grid.get_block_neighbors(r, c, span);
            let names = neighbor_names(&neighbors);
            let reason = build_reason(vegetable, &names, score);
            fill_block(grid, vegetable, r, c, reason.as_str());
            Some(score)
        },
    }
}

/// A position and score found by the scan, as mathematical integers.
pub open spec fn as_ints(best: Option<(usize, usize, i32)>) -> Option<(int, int, int)> {
    match best {
        Some((r, c, s)) => Some((r as int, c as int, s as int)),
        None => None,
    }
}

/// What a row-major scan knows when it stands at `(r, c)`: `best` is the
/// best block among the positions that come before `(r, c)`.
pub open spec fn best_so_far(
    grid: GridView,
    variety: VegetableView,
    best: Option<(int, int, int)>,
    r: int,
    c: int,
) -> bool {
    match best {
        None => forall|i: int, j: int|
            0 <= i && 0 <= j && #[trigger] grid.block_free(i, j, span_for(variety) as int)
                ==> !scans_before(i, j, r, c),
        Some((br, bc, bs)) => {
            &&& 0 <= br
            &&& 0 <= bc
            &&& scans_before(br, bc, r, c)
            &&& grid.block_free(br, bc, span_for(variety) as int)
            &&& bs == score_at(grid, variety, br, bc)
            &&& forall|i: int, j: int|
                0 <= i && 0 <= j && #[trigger] grid.block_free(i, j, span_for(variety) as int)
                    && scans_before(i, j, r, c) ==> {
                    &&& score_at(grid, variety, i, j) <= bs
                    &&& scans_before(i, j, br, bc) ==> score_at(grid, variety, i, j) < bs
                }
        },
    }
}

/// A row-major scan up to `(r, c)` has a best block so far.
proof fn lemma_scan(grid: GridView, variety: VegetableView, r: int, c: int) -> (best: Option<
    (int, int, int),
>)
    requires
        0 <= r,
        0 <= c,
    ensures
        best_so_far(grid, variety, best, r, c),
    decreases r, c,
{
    let span = span_for(variety) as int;
    assert(span >= 1);
    if c > 0 {
        let prev = lemma_scan(grid, variety, r, c - 1);
        if grid.block_free(r, c - 1, span) {
            let s = score_at(grid, variety, r, c - 1);
            match prev {
                None => Some((r, c - 1, s)),
                Some((br, bc, bs)) => if s > bs {
                    Some((r, c - 1, s))
                } else {
                    prev
                },
            }
        } else {
            prev
        }
    } else if r > 0 {
        let prev = lemma_scan(grid, variety, r - 1, grid.cols as int);
        assert forall|i: int, j: int|
            0 <= i && 0 <= j && #[trigger] grid.block_free(i, j, span) && scans_before(
                i,
                j,
                r,
                0,
            ) implies scans_before(i, j, r - 1, grid.cols as int) by {
            assert(j + span <= grid.cols);
        }
        prev
    } else {
        None
    }
}

/// Where a free block exists for the variety, the placer has a block to
/// commit.
pub proof fn lemma_best_exists(grid: GridView, variety: VegetableView)
    requires
        has_free_block(grid, variety),
    ensures
        best_block(grid, variety) is Some,
{
    let span = span_for(variety) as int;
    assert(span >= 1);
    let best = lemma_scan(grid, variety, grid.rows as int, 0);
    assert forall|i: int, j: int|
        0 <= i && 0 <= j && #[trigger] grid.block_free(i, j, span) implies scans_before(
        i,
        j,
        grid.rows as int,
        0,
    ) by {
        assert(i + span <= grid.rows);
    }
    match best {
        None => {
            assert(false);
        },
        Some((r, c, s)) => {
            assert(is_best_block(grid, variety, (r, c, s).0, (r, c, s).1, (r, c, s).2));
        },
    }
}

} // verus!

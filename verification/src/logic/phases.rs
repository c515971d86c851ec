//! The two placement phases: the explicit queue, then sweeps over the
//! ranked candidates until a whole sweep places nothing.

use vstd::prelude::*;
use crate::logic::allocation::{amount, Ledger};
use crate::logic::spacing::cell_span;
use crate::logic::placer::{
    best_block, commit_best_block, grown_by, has_free_block, lemma_best_exists,
    lemma_place_best, place_best, span_for,
};
use crate::models::garden::{
    count_in_row, count_in_rows, lemma_count_in_row_le, lemma_count_in_rows_apart,
    lemma_count_in_rows_le, lemma_extends_transitive, lemma_no_free_cell, CellKind, GardenGrid,
    GridView,
};
use crate::models::vegetable::{Vegetable, VegetableView};
use crate::models::view_each;

verus! {

/// Where the explicit-quantity phase stands: the grid, how many cells or
/// placements each variety has, the score so far, and whether the phase has
/// found the grid exhausted.
pub struct QueueState {
    pub grid: GridView,
    pub counts: Map<Seq<char>, nat>,
    pub score: int,
    pub stopped: bool,
}

/// One queue entry: skipped once the phase has stopped or the variety has
/// reached its cap; otherwise its best block is committed and counted. When
/// no block is free, a single-cell variety stops the phase and a larger one
/// is passed over.
pub open spec fn queue_step(state: QueueState, variety: VegetableView, caps: Map<Seq<char>, nat>) -> QueueState {
    if state.stopped || amount(state.counts, variety.id) >= amount(caps, variety.id) {
        state
    } else {
        match place_best(state.grid, variety) {
            Some((grid, s)) => QueueState {
                grid,
                counts: state.counts.insert(variety.id, amount(state.counts, variety.id) + 1),
                score: state.score + s,
                stopped: false,
            },
            None => QueueState { stopped: span_for(variety) == 1, ..state },
        }
    }
}

/// The state after the first `n` queue entries.
pub open spec fn run_queue(
    start: QueueState,
    queue: Seq<VegetableView>,
    caps: Map<Seq<char>, nat>,
    n: nat,
) -> QueueState
    decreases n,
{
    if n == 0 {
        start
    } else {
        queue_step(run_queue(start, queue, caps, (n - 1) as nat), queue[n - 1], caps)
    }
}

/// The counts that the phase starts from: for each variety, the cells of the
/// grid that already hold it.
pub open spec fn seed_counts(grid: GridView) -> Map<Seq<char>, nat> {
    Map::new(
        |id: Seq<char>| grid.count(CellKind::Holding(id)) > 0,
        |id: Seq<char>| grid.count(CellKind::Holding(id)),
    )
}

/// The explicit-quantity phase: the grid and the score after the whole
/// queue.
pub open spec fn explicit_phase(
    grid: GridView,
    queue: Seq<VegetableView>,
    caps: Map<Seq<char>, nat>,
) -> (GridView, int) {
    let end = run_queue(
        QueueState { grid, counts: seed_counts(grid), score: 0, stopped: false },
        queue,
        caps,
        queue.len(),
    );
    (end.grid, end.score)
}

/// One sweep over the first `n` candidates: each gets one scan-and-commit.
/// Gives the grid, the score gained and the number of placements made.
pub open spec fn sweep(grid: GridView, candidates: Seq<VegetableView>, n: nat) -> (GridView, int, nat)
    decreases n,
{
    if n == 0 {
        (grid, 0, 0)
    } else {
        let (before, score, placements) = sweep(grid, candidates, (n - 1) as nat);
        match place_best(before, candidates[n - 1]) {
            Some((after, s)) => (after, score + s, placements + 1),
            None => (before, score, placements),
        }
    }
}

/// The fill phase: whole sweeps over the candidates, one after the other,
/// until a sweep places nothing. Gives the final grid and the score gained.
///
/// A sweep that places something leaves fewer free cells
/// (`lemma_sweep`), so the second condition of the test only says why the
/// sweeps end.
pub open spec fn fill(grid: GridView, candidates: Seq<VegetableView>) -> (GridView, int)
    decreases grid.count(CellKind::Free),
{
    let (after, score, placements) = sweep(grid, candidates, candidates.len());
    if placements > 0 && after.count(CellKind::Free) < grid.count(CellKind::Free) {
        let (last, more) = fill(after, candidates);
        (last, score + more)
    } else {
        (after, score)
    }
}

/// No candidate has a free block left in the grid.
pub open spec fn settled(grid: GridView, candidates: Seq<VegetableView>) -> bool {
    forall|k: int| 0 <= k < candidates.len() ==> !has_free_block(grid, #[trigger] candidates[k])
}

/// `grown_by` carries over two steps.
pub proof fn lemma_grown_by_twice(
    first: GridView,
    second: GridView,
    third: GridView,
    score: int,
    more: int,
)
    requires
        grown_by(second, first, score),
        grown_by(third, second, more),
    ensures
        grown_by(third, first, score + more),
{
    lemma_extends_transitive(first, second, third);
}

/// A sweep over a well-formed grid leaves a well-formed grid that has grown
/// out of it; each placement took at least one free cell.
pub proof fn lemma_sweep(grid: GridView, candidates: Seq<VegetableView>, n: nat)
    requires
        grid.wf(),
        n <= candidates.len(),
    ensures
        grown_by(sweep(grid, candidates, n).0, grid, sweep(grid, candidates, n).1),
        sweep(grid, candidates, n).0.count(CellKind::Free) + sweep(grid, candidates, n).2
            <= grid.count(CellKind::Free),
        sweep(grid, candidates, n).2 <= n,
        sweep(grid, candidates, n).2 == 0 ==> sweep(grid, candidates, n).0 == grid && forall|k: int|
            0 <= k < n ==> best_block(grid, #[trigger] candidates[k]) is None,
    decreases n,
{
    if n > 0 {
        lemma_sweep(grid, candidates, (n - 1) as nat);
        let (before, score, placements) = sweep(grid, candidates, (n - 1) as nat);
        lemma_place_best(before, candidates[n - 1]);
        match place_best(before, candidates[n - 1]) {
            Some((after, s)) => {
                lemma_grown_by_twice(grid, before, after, score, s);
            },
            None => {},
        }
    }
}

/// The fill phase on a well-formed grid leaves a well-formed grid that has
/// grown out of it, and it ends at a fixed point: in the grid it leaves, no
/// candidate has a free block.
pub proof fn lemma_fill(grid: GridView, candidates: Seq<VegetableView>)
    requires
        grid.wf(),
    ensures
        grown_by(fill(grid, candidates).0, grid, fill(grid, candidates).1),
        settled(fill(grid, candidates).0, candidates),
    decreases grid.count(CellKind::Free),
{
    lemma_sweep(grid, candidates, candidates.len());
    let (after, score, placements) = sweep(grid, candidates, candidates.len());
    if placements > 0 && after.count(CellKind::Free) < grid.count(CellKind::Free) {
        lemma_fill(after, candidates);
        let (last, more) = fill(after, candidates);
        lemma_grown_by_twice(grid, after, last, score, more);
    } else {
        assert(placements == 0);
        assert forall|k: int| 0 <= k < candidates.len() implies !has_free_block(
            grid,
            #[trigger] candidates[k],
        ) by {
            if has_free_block(grid, candidates[k]) {
                lemma_best_exists(grid, candidates[k]);
            }
        }
    }
}

/// Where one of the candidates fits a single cell, the fill phase leaves no
/// cell free.
pub proof fn lemma_fill_leaves_no_gap(grid: GridView, candidates: Seq<VegetableView>, k: int)
    requires
        grid.wf(),
        0 <= k < candidates.len(),
        span_for(candidates[k]) == 1,
    ensures
        forall|r: int, c: int| !fill(grid, candidates).0.is_free(r, c),
        fill(grid, candidates).0.count(CellKind::Free) == 0,
{
    lemma_fill(grid, candidates);
    let last = fill(grid, candidates).0;
    assert forall|r: int, c: int| !last.is_free(r, c) by {
        if last.is_free(r, c) {
            assert(last.block_free(r, c, 1)) by {
                assert forall|i: int, j: int| r <= i < r + 1 && c <= j < c + 1 implies #[trigger] last.is_free(
                    i,
                    j,
                ) by {
                    assert(i == r && j == c);
                }
            }
            assert(has_free_block(last, candidates[k]));
        }
    }
    lemma_no_free_cell(last, last.rows as nat);
}

/// What holds of the state of the explicit-quantity phase, however far it
/// has come: the grid has grown out of the one it started from, and no
/// count has grown by more than the free cells that were taken.
pub open spec fn queue_grown(end: QueueState, start: QueueState) -> bool {
    &&& grown_by(end.grid, start.grid, end.score - start.score)
    &&& forall|id: Seq<char>|
        amount(end.counts, id) + end.grid.count(CellKind::Free) <= #[trigger] amount(
            start.counts,
            id,
        ) + start.grid.count(CellKind::Free)
}

/// The explicit-quantity phase keeps `queue_grown`.
pub proof fn lemma_run_queue(
    start: QueueState,
    queue: Seq<VegetableView>,
    caps: Map<Seq<char>, nat>,
    n: nat,
)
    requires
        start.grid.wf(),
        n <= queue.len(),
    ensures
        queue_grown(run_queue(start, queue, caps, n), start),
    decreases n,
{
    if n > 0 {
        lemma_run_queue(start, queue, caps, (n - 1) as nat);
        let before = run_queue(start, queue, caps, (n - 1) as nat);
        let variety = queue[n - 1];
        let after = queue_step(before, variety, caps);
        lemma_place_best(before.grid, variety);
        if !(before.stopped || amount(before.counts, variety.id) >= amount(caps, variety.id)) {
            match place_best(before.grid, variety) {
                Some((grid, s)) => {
                    lemma_grown_by_twice(start.grid, before.grid, grid, before.score - start.score, s);
                    assert forall|id: Seq<char>|
                        amount(after.counts, id) + after.grid.count(CellKind::Free)
                            <= #[trigger] amount(start.counts, id) + start.grid.count(
                            CellKind::Free,
                        ) by {
                        assert(amount(before.counts, id) + before.grid.count(CellKind::Free)
                            <= amount(start.counts, id) + start.grid.count(CellKind::Free));
                    }
                },
                None => {},
            }
        }
    }
}

/// Once the phase has stopped, the rest of the queue changes nothing.
pub proof fn lemma_stopped_stays(
    start: QueueState,
    queue: Seq<VegetableView>,
    caps: Map<Seq<char>, nat>,
    k: nat,
    n: nat,
)
    requires
        k <= n,
        run_queue(start, queue, caps, k).stopped,
    ensures
        run_queue(start, queue, caps, n) == run_queue(start, queue, caps, k),
    decreases n,
{
    if n > k {
        lemma_stopped_stays(start, queue, caps, k, (n - 1) as nat);
    }
}

/// The counts of the cells scanned so far, while the grid is read row by
/// row: whole rows below `r`, and the first `c` cells of row `r`.
pub open spec fn counts_upto(grid: GridView, r: int, c: int) -> Map<Seq<char>, nat> {
    Map::new(
        |id: Seq<char>| holding_upto(grid, id, r, c) > 0,
        |id: Seq<char>| holding_upto(grid, id, r, c),
    )
}

pub open spec fn holding_upto(grid: GridView, id: Seq<char>, r: int, c: int) -> nat {
    count_in_rows(grid.cells, CellKind::Holding(id), r as nat) + count_in_row(
        grid.cells[r],
        CellKind::Holding(id),
        c as nat,
    )
}

/// Counts, per variety, the cells of the grid that hold it.
pub fn count_placed(grid: &GardenGrid) -> (counts: Ledger)
    requires
        grid@.shaped(),
        grid.rows * grid.cols <= usize::MAX,
    ensures
        counts@ == seed_counts(grid@),
{
    let ghost g = grid@;
    let mut counts = Ledger::new();
    let mut r: usize = 0;
    proof {
        assert(counts@ =~= Map::new(
            |id: Seq<char>| count_in_rows(g.cells, CellKind::Holding(id), 0) > 0,
            |id: Seq<char>| count_in_rows(g.cells, CellKind::Holding(id), 0),
        ));
    }
    while r < grid.rows
        invariant
            g == grid@,
            g.shaped(),
            grid.rows * grid.cols <= usize::MAX,
            r <= grid.rows,
            counts@ == Map::new(
                |id: Seq<char>| count_in_rows(g.cells, CellKind::Holding(id), r as nat) > 0,
                |id: Seq<char>| count_in_rows(g.cells, CellKind::Holding(id), r as nat),
            ),
        decreases grid.rows - r,
    {
        let mut c: usize = 0;
        proof {
            assert(counts@ =~= counts_upto(g, r as int, 0));
        }
        while c < grid.cols
            invariant
                g == grid@,
                g.shaped(),
                grid.rows * grid.cols <= usize::MAX,
                r < grid.rows,
                c <= grid.cols,
                counts@ == counts_upto(g, r as int, c as int),
            decreases grid.cols - c,
        {
            proof {
                grid.lemma_shape();
            }
            match &grid.cells[r][c].vegetable {
                Some(v) => {
                    let n = counts.amount_of(v.id.as_str());
                    proof {
                        lemma_count_in_rows_le(g, CellKind::Holding(v.id@), r as nat);
                        lemma_count_in_row_le(g.cells[r as int], CellKind::Holding(v.id@), c as nat);
                        assert(n == holding_upto(g, v.id@, r as int, c as int));
                        assert(r * grid.cols + c < grid.rows * grid.cols) by (nonlinear_arith)
                            requires
                                r < grid.rows,
                                c < grid.cols,
                        ;
                    }
                    counts.insert(v.id.clone(), n + 1);
                    proof {
                        assert(g.cells[r as int][c as int].vegetable == Some(v@));
                        assert(counts@ =~= counts_upto(g, r as int, c + 1));
                    }
                },
                None => {
                    proof {
                        assert(g.cells[r as int][c as int].vegetable is None);
                        assert(counts@ =~= counts_upto(g, r as int, c + 1));
                    }
                },
            }
            c += 1;
        }
        proof {
            assert(g.cells[r as int].len() == grid.cols);
            assert(counts@ =~= Map::new(
                |id: Seq<char>| count_in_rows(g.cells, CellKind::Holding(id), (r + 1) as nat) > 0,
                |id: Seq<char>| count_in_rows(g.cells, CellKind::Holding(id), (r + 1) as nat),
            ));
        }
        r += 1;
    }
    assert(counts@ =~= seed_counts(g));
    counts
}

/// Phase 1: iterates over the placement queue and greedily places each
/// vegetable on the grid, up to its cap. Returns the cumulative companion
/// score.
pub fn place_candidates(grid: &mut GardenGrid, queue: &[&Vegetable], placements_map: &Ledger) -> (score: i32)
    requires
        old(grid)@.wf(),
        old(grid)@.scores_fit(),
    ensures
        (final(grid)@, score as int) == explicit_phase(
            old(grid)@,
            view_each(queue@),
            placements_map@,
        ),
        grown_by(final(grid)@, old(grid)@, score as int),
{
    let ghost first = grid@;
    let ghost entries = view_each(queue@);
    let ghost caps = placements_map@;
    proof {
        lemma_count_in_rows_le(first, CellKind::Free, first.rows as nat);
    }
    let mut placed_counts = count_placed(grid);
    let ghost start = QueueState { grid: first, counts: seed_counts(first), score: 0, stopped: false };
    let mut global_score: i32 = 0;
    let mut stopped = false;
    let mut i: usize = 0;
    while i < queue.len() && !stopped
        invariant
            entries == view_each(queue@),
            caps == placements_map@,
            first.wf(),
            first.scores_fit(),
            start == (QueueState {
                grid: first,
                counts: seed_counts(first),
                score: 0,
                stopped: false,
            }),
            i <= queue.len(),
            (QueueState {
                grid: grid@,
                counts: placed_counts@,
                score: global_score as int,
                stopped,
            }) == run_queue(start, entries, caps, i as nat),
        decreases queue.len() - i,
    {
        let vegetable: &Vegetable = queue[i];
        let ghost before = run_queue(start, entries, caps, i as nat);
        proof {
            assert(entries[i as int] == vegetable@);
            lemma_run_queue(start, entries, caps, i as nat);
            lemma_run_queue(start, entries, caps, (i + 1) as nat);
            lemma_count_in_rows_le(first, CellKind::Free, first.rows as nat);
            lemma_count_in_rows_apart(first, vegetable@.id, first.rows as nat);
            assert(amount(start.counts, vegetable@.id) == first.count(
                CellKind::Holding(vegetable@.id),
            ));
        }
        let max_count = placements_map.amount_of(vegetable.id.as_str());
        let have = placed_counts.amount_of(vegetable.id.as_str());
        if have < max_count {
            match commit_best_block(grid, vegetable) {
                Some(s) => {
                    placed_counts.insert(vegetable.id.clone(), have + 1);
                    global_score = global_score + s;
                },
                None => {
                    if cell_span(vegetable.spacing_cm) == 1 {
                        stopped = true;
                    }
                },
            }
        }
        i += 1;
    }
    proof {
        if stopped {
            lemma_stopped_stays(start, entries, caps, i as nat, entries.len());
        }
        lemma_run_queue(start, entries, caps, i as nat);
    }
    global_score
}

/// One sweep of the fill phase over all candidates.
fn sweep_once(grid: &mut GardenGrid, candidates: &[Vegetable]) -> (gain: (i32, usize))
    requires
        old(grid)@.wf(),
        old(grid)@.scores_fit(),
    ensures
        (final(grid)@, gain.0 as int, gain.1 as nat) == sweep(
            old(grid)@,
            view_each(candidates@),
            candidates@.len(),
        ),
        gain.1 == 0 ==> settled(final(grid)@, view_each(candidates@)),
{
    let ghost first = grid@;
    let ghost cands = view_each(candidates@);
    let mut score: i32 = 0;
    let mut placements: usize = 0;
    let mut i: usize = 0;
    while i < candidates.len()
        invariant
            cands == view_each(candidates@),
            first.wf(),
            first.scores_fit(),
            i <= candidates.len(),
            (grid@, score as int, placements as nat) == sweep(first, cands, i as nat),
            placements == 0 ==> forall|k: int| 0 <= k < i ==> !has_free_block(first, #[trigger] cands[k]),
        decreases candidates.len() - i,
    {
        proof {
            assert(cands[i as int] == candidates@[i as int]@);
            lemma_sweep(first, cands, i as nat);
            lemma_sweep(first, cands, (i + 1) as nat);
            lemma_count_in_rows_le(first, CellKind::Free, first.rows as nat);
        }
        match commit_best_block(grid, &candidates[i]) {
            Some(s) => {
                score = score + s;
                placements = placements + 1;
            },
            None => {},
        }
        i += 1;
    }
    proof {
        lemma_sweep(first, cands, candidates@.len());
    }
    (score, placements)
}

/// Phase 2: iterative greedy fill. Tries every candidate in priority order
/// and places the best available block for each; repeats until a full pass
/// over all candidates produces no new placement. Returns the score gained.
pub fn fill_remaining_cells(grid: &mut GardenGrid, candidates: &[Vegetable]) -> (score: i32)
    requires
        old(grid)@.wf(),
        old(grid)@.scores_fit(),
    ensures
        (final(grid)@, score as int) == fill(old(grid)@, view_each(candidates@)),
        grown_by(final(grid)@, old(grid)@, score as int),
        settled(final(grid)@, view_each(candidates@)),
{
    let ghost first = grid@;
    let ghost cands = view_each(candidates@);
    let mut total_score: i32 = 0;
    let mut done = false;
    while !done
        invariant
            cands == view_each(candidates@),
            first.wf(),
            first.scores_fit(),
            grid@.wf(),
            grid@.scores_fit(),
            grown_by(grid@, first, total_score as int),
            !done ==> fill(first, cands) == (
                fill(grid@, cands).0,
                total_score + fill(grid@, cands).1,
            ),
            done ==> fill(first, cands) == (grid@, total_score as int) && settled(grid@, cands),
        decreases grid@.count(CellKind::Free) + (if done { 0nat } else { 1nat }),
    {
        let ghost before = grid@;
        proof {
            lemma_sweep(before, cands, cands.len());
            lemma_fill(before, cands);
            lemma_count_in_rows_le(first, CellKind::Free, first.rows as nat);
        }
        let (score, placements) = sweep_once(grid, candidates);
        proof {
            lemma_grown_by_twice(first, before, grid@, total_score as int, score as int);
        }
        total_score = total_score + score;
        if placements == 0 {
            done = true;
        }
    }
    total_score
}

} // verus!

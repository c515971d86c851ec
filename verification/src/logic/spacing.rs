//! Spacing model: how many grid cells a plant needs per axis, and how many
//! plants share one cell.

use vstd::prelude::*;

verus! {

/// Side length of one grid cell, in centimetres.
pub const CELL_SIZE_CM: u32 = 30;

/// Cells per axis that a plant with the given spacing occupies: the spacing
/// divided by the cell size, rounded up, and never less than one.
pub open spec fn span_of(spacing_cm: nat) -> nat {
    if spacing_cm == 0 {
        1
    } else {
        ((spacing_cm + 29) / 30) as nat
    }
}

/// Plants that share one cell: one when the plant spans several cells,
/// otherwise the square of how many fit along one axis.
pub open spec fn plants_in_cell(spacing_cm: nat) -> nat {
    if span_of(spacing_cm) > 1 {
        1
    } else {
        let s: nat = if spacing_cm == 0 { 1 } else { spacing_cm };
        let per_axis: nat = if 30nat / s < 1 { 1 } else { 30nat / s };
        per_axis * per_axis
    }
}

/// `span_of` is the ceiling of `spacing / 30`, clamped below by one: the
/// least positive count of cells whose total length covers the spacing.
pub proof fn lemma_span_is_ceiling(spacing_cm: nat)
    ensures
        span_of(spacing_cm) >= 1,
        30 * span_of(spacing_cm) >= spacing_cm,
        spacing_cm > 30 ==> 30 * (span_of(spacing_cm) - 1) < spacing_cm,
        spacing_cm <= 30 ==> span_of(spacing_cm) == 1,
{
}

/// How many grid cells a plant requires per axis.
pub fn cell_span(spacing_cm: u32) -> (span: u32)
    ensures
        span as nat == span_of(spacing_cm as nat),
        1 <= span <= 143_165_577,
{
    let q: u32 = spacing_cm / CELL_SIZE_CM;
    let span: u32 = if spacing_cm % CELL_SIZE_CM == 0 { q } else { q + 1 };
    if span < 1 { 1 } else { span }
}

/// How many plants fit in one cell.
pub fn plants_per_cell(spacing_cm: u32) -> (count: u32)
    ensures
        count as nat == plants_in_cell(spacing_cm as nat),
        1 <= count <= 900,
{
    if cell_span(spacing_cm) > 1 {
        1
    } else {
        let s: u32 = if spacing_cm < 1 { 1 } else { spacing_cm };
        let q: u32 = CELL_SIZE_CM / s;
        let per_axis: u32 = if q < 1 { 1 } else { q };
        assert(1 <= per_axis * per_axis <= 900) by (nonlinear_arith)
            requires 1 <= per_axis <= 30;
        per_axis * per_axis
    }
}

} // verus!

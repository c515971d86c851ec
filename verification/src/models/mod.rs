//! Data model of the planner and the mathematical view of each type.

use vstd::prelude::*;

pub mod garden;
pub mod request;
pub mod vegetable;

verus! {

/// Convenience alias for a two-dimensional grid.
pub type Matrix<T> = Vec<Vec<T>>;

/// A zero-based (row, col) position within the garden grid.
#[derive(Debug, Clone, Copy, PartialEq, Eq, Structural)]
pub struct Coordinate {
    pub row: usize,
    pub col: usize,
}

/// The views of the items of a sequence, in the same order.
pub open spec fn view_each<T: View>(items: Seq<T>) -> Seq<T::V> {
    Seq::new(items.len(), |i: int| items[i]@)
}

/// The views of the cells of a matrix, row by row.
pub open spec fn view_matrix<T: View>(rows: Seq<Vec<T>>) -> Seq<Seq<T::V>> {
    Seq::new(rows.len(), |r: int| view_each(rows[r]@))
}

/// Copies a list of texts; the copy reads the same, text by text.
pub fn clone_texts(items: &Vec<String>) -> (copy: Vec<String>)
    ensures
        view_each(copy@) == view_each(items@),
{
    let mut copy: Vec<String> = Vec::new();
    let mut i: usize = 0;
    while i < items.len()
        invariant
            i <= items.len(),
            copy.len() == i,
            forall|j: int| 0 <= j < i ==> copy@[j]@ == items@[j]@,
        decreases items.len() - i,
    {
        copy.push(items[i].clone());
        i += 1;
    }
    assert(view_each(copy@) =~= view_each(items@));
    copy
}

} // verus!

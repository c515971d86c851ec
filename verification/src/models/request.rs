//! What a planning request holds and what a plan hands back.

use vstd::prelude::*;
use crate::models::vegetable::{Region, Season, SoilType, SunExposure};
use crate::models::{view_each, view_matrix, Coordinate, Matrix};

verus! {

/// A single cell in the request layout grid.
#[derive(Debug)]
pub enum LayoutCell {
    /// Free, unoccupied cell.
    Free(()),
    /// A cell that already holds a plant of the variety with this identifier.
    Planted(String),
    /// Non-plantable zone (path, alley, obstacle) when the flag is set; a
    /// cleared flag leaves the cell free.
    Blocked(bool),
}

pub enum LayoutCellView {
    Free,
    Planted(Seq<char>),
    Blocked(bool),
}

impl View for LayoutCell {
    type V = LayoutCellView;

    open spec fn view(&self) -> LayoutCellView {
        match self {
            LayoutCell::Free(_) => LayoutCellView::Free,
            LayoutCell::Planted(id) => LayoutCellView::Planted(id@),
            LayoutCell::Blocked(flag) => LayoutCellView::Blocked(*flag),
        }
    }
}

impl Clone for LayoutCell {
    fn clone(&self) -> (copy: Self)
        ensures
            copy@ == self@,
    {
        match self {
            LayoutCell::Free(_) => LayoutCell::Free(()),
            LayoutCell::Planted(id) => LayoutCell::Planted(id.clone()),
            LayoutCell::Blocked(flag) => LayoutCell::Blocked(*flag),
        }
    }
}

#[derive(Debug, Clone, Copy, PartialEq, Eq, Structural)]
pub enum Level {
    Beginner,
    Expert,
}

/// A single preference entry with an optional desired plant count.
#[derive(Debug, Clone)]
pub struct PreferenceEntry {
    pub id: String,
    /// Desired number of plants (placements) for this vegetable. Each plant
    /// may occupy more than one cell depending on its spacing.
    pub quantity: Option<u32>,
}

pub struct PreferenceView {
    pub id: Seq<char>,
    pub quantity: Option<u32>,
}

impl View for PreferenceEntry {
    type V = PreferenceView;

    open spec fn view(&self) -> PreferenceView {
        PreferenceView { id: self.id@, quantity: self.quantity }
    }
}

#[derive(Debug, Clone)]
pub struct PlanRequest {
    pub season: Season,
    pub sun: Option<SunExposure>,
    pub soil: Option<SoilType>,
    pub region: Option<Region>,
    pub level: Option<Level>,
    /// Preferred vegetables, most wanted first, with optional plant counts.
    pub preferences: Option<Vec<PreferenceEntry>>,
    /// Grid layout: defines the dimensions and the pre-filled cells.
    pub layout: Matrix<LayoutCell>,
}

pub struct PlanRequestView {
    pub season: Season,
    pub sun: Option<SunExposure>,
    pub soil: Option<SoilType>,
    pub region: Option<Region>,
    pub level: Option<Level>,
    pub preferences: Option<Seq<PreferenceView>>,
    pub layout: Seq<Seq<LayoutCellView>>,
}

impl View for PlanRequest {
    type V = PlanRequestView;

    open spec fn view(&self) -> PlanRequestView {
        PlanRequestView {
            season: self.season,
            sun: self.sun,
            soil: self.soil,
            region: self.region,
            level: self.level,
            preferences: match self.preferences {
                Some(list) => Some(view_each(list@)),
                None => None,
            },
            layout: view_matrix(self.layout@),
        }
    }
}

impl PlanRequestView {
    /// The preference list; empty when the request has none.
    pub open spec fn preference_list(self) -> Seq<PreferenceView> {
        match self.preferences {
            Some(list) => list,
            None => Seq::empty(),
        }
    }
}

/// A cell in the planned garden grid.
///
/// - `SelfContained`: a plant that fits entirely within one cell.
/// - `Overflowing`: the anchor (top-left) cell of a plant that spans
///   several cells.
/// - `Overflowed`: a continuation cell covered by a neighbouring anchor; it
///   carries only a back-reference to the anchor.
/// - `Empty`: free, unoccupied, non-blocked cell.
/// - `Blocked`: non-plantable zone.
#[derive(Debug, Clone)]
pub enum PlannedCell {
    SelfContained { id: String, name: String, reason: String, plants_per_cell: u32 },
    Overflowing {
        id: String,
        name: String,
        reason: String,
        plants_per_cell: u32,
        width_cells: u32,
        length_cells: u32,
    },
    Overflowed { covered_by: Coordinate },
    Empty,
    Blocked,
}

pub enum PlannedCellView {
    SelfContained { id: Seq<char>, name: Seq<char>, reason: Seq<char>, plants_per_cell: u32 },
    Overflowing {
        id: Seq<char>,
        name: Seq<char>,
        reason: Seq<char>,
        plants_per_cell: u32,
        width_cells: u32,
        length_cells: u32,
    },
    Overflowed { covered_by: Coordinate },
    Empty,
    Blocked,
}

impl View for PlannedCell {
    type V = PlannedCellView;

    open spec fn view(&self) -> PlannedCellView {
        match self {
            PlannedCell::SelfContained { id, name, reason, plants_per_cell } => {
                PlannedCellView::SelfContained {
                    id: id@,
                    name: name@,
                    reason: reason@,
                    plants_per_cell: *plants_per_cell,
                }
            },
            PlannedCell::Overflowing {
                id,
                name,
                reason,
                plants_per_cell,
                width_cells,
                length_cells,
            } => PlannedCellView::Overflowing {
                id: id@,
                name: name@,
                reason: reason@,
                plants_per_cell: *plants_per_cell,
                width_cells: *width_cells,
                length_cells: *length_cells,
            },
            PlannedCell::Overflowed { covered_by } => PlannedCellView::Overflowed {
                covered_by: *covered_by,
            },
            PlannedCell::Empty => PlannedCellView::Empty,
            PlannedCell::Blocked => PlannedCellView::Blocked,
        }
    }
}

impl PlannedCellView {
    /// The variety's identifier, on the two kinds of anchor cell.
    pub open spec fn id(self) -> Option<Seq<char>> {
        match self {
            PlannedCellView::SelfContained { id, .. } => Some(id),
            PlannedCellView::Overflowing { id, .. } => Some(id),
            _ => None,
        }
    }

    /// The cell carries a plant or is covered by one.
    pub open spec fn is_placed(self) -> bool {
        !(self is Empty) && !(self is Blocked)
    }
}

/// The characters of the text, if there is one.
pub open spec fn text_of(text: Option<&str>) -> Option<Seq<char>> {
    match text {
        Some(t) => Some(t@),
        None => None,
    }
}

impl PlannedCell {
    /// Returns the vegetable id if this cell is an anchor (`SelfContained`
    /// or `Overflowing`).
    pub fn id(&self) -> (id: Option<&str>)
        ensures
            text_of(id) == self@.id(),
    {
        match self {
            PlannedCell::SelfContained { id, .. } => Some(id.as_str()),
            PlannedCell::Overflowing { id, .. } => Some(id.as_str()),
            _ => None,
        }
    }

    /// Returns `true` if this cell carries or is part of a plant placement.
    pub fn is_placed(&self) -> (placed: bool)
        ensures
            placed == self@.is_placed(),
    {
        match self {
            PlannedCell::Empty => false,
            PlannedCell::Blocked => false,
            _ => true,
        }
    }

    /// Returns `true` if this cell is a non-plantable zone.
    pub fn is_blocked(&self) -> (blocked: bool)
        ensures
            blocked == (self@ is Blocked),
    {
        match self {
            PlannedCell::Blocked => true,
            _ => false,
        }
    }

    /// Returns the anchor reference of an `Overflowed` cell, `None`
    /// otherwise.
    pub fn covered_by(&self) -> (anchor: Option<&Coordinate>)
        ensures
            match self@ {
                PlannedCellView::Overflowed { covered_by } => anchor == Some(&covered_by),
                _ => anchor is None,
            },
    {
        match self {
            PlannedCell::Overflowed { covered_by } => Some(covered_by),
            _ => None,
        }
    }

    /// Returns the block width of an `Overflowing` anchor cell, `None`
    /// otherwise.
    pub fn width_cells(&self) -> (width: Option<u32>)
        ensures
            match self@ {
                PlannedCellView::Overflowing { width_cells, .. } => width == Some(width_cells),
                _ => width is None,
            },
    {
        match self {
            PlannedCell::Overflowing { width_cells, .. } => Some(*width_cells),
            _ => None,
        }
    }

    /// Returns the block length of an `Overflowing` anchor cell, `None`
    /// otherwise.
    pub fn length_cells(&self) -> (length: Option<u32>)
        ensures
            match self@ {
                PlannedCellView::Overflowing { length_cells, .. } => length == Some(length_cells),
                _ => length is None,
            },
    {
        match self {
            PlannedCell::Overflowing { length_cells, .. } => Some(*length_cells),
            _ => None,
        }
    }
}

/// A finished plan: the classified cells, the grid's size, the cumulative
/// companion score and the warnings raised on the way.
#[derive(Debug, Clone)]
pub struct PlanResponse {
    pub grid: Matrix<PlannedCell>,
    pub rows: usize,
    pub cols: usize,
    pub score: i32,
    pub warnings: Vec<String>,
}

pub struct PlanView {
    pub grid: Seq<Seq<PlannedCellView>>,
    pub rows: nat,
    pub cols: nat,
    pub score: int,
    pub warnings: Seq<Seq<char>>,
}

impl View for PlanResponse {
    type V = PlanView;

    open spec fn view(&self) -> PlanView {
        PlanView {
            grid: view_matrix(self.grid@),
            rows: self.rows as nat,
            cols: self.cols as nat,
            score: self.score as int,
            warnings: view_each(self.warnings@),
        }
    }
}

/// Identifier and display name of one companion of a variety.
#[derive(Debug, Clone)]
pub struct CompanionInfo {
    pub id: String,
    pub name: String,
}

pub struct CompanionInfoView {
    pub id: Seq<char>,
    pub name: Seq<char>,
}

impl View for CompanionInfo {
    type V = CompanionInfoView;

    open spec fn view(&self) -> CompanionInfoView {
        CompanionInfoView { id: self.id@, name: self.name@ }
    }
}

/// The good and bad companions of one variety, as far as the catalogue
/// knows them.
#[derive(Debug, Clone)]
pub struct CompanionsResponse {
    pub id: String,
    pub name: String,
    pub good: Vec<CompanionInfo>,
    pub bad: Vec<CompanionInfo>,
}

pub struct CompanionsView {
    pub id: Seq<char>,
    pub name: Seq<char>,
    pub good: Seq<CompanionInfoView>,
    pub bad: Seq<CompanionInfoView>,
}

impl View for CompanionsResponse {
    type V = CompanionsView;

    open spec fn view(&self) -> CompanionsView {
        CompanionsView {
            id: self.id@,
            name: self.name@,
            good: view_each(self.good@),
            bad: view_each(self.bad@),
        }
    }
}

} // verus!

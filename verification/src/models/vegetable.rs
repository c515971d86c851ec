//! Plant varieties and the environmental attributes they are filtered by.

use vstd::prelude::*;
use crate::models::{clone_texts, view_each};

verus! {

#[derive(Debug, Clone, Copy, PartialEq, Eq, Structural)]
pub enum Season {
    Spring,
    Summer,
    Autumn,
    Winter,
}

#[derive(Debug, Clone, Copy, PartialEq, Eq, Structural)]
pub enum SoilType {
    Clay,
    Sandy,
    Loamy,
    Chalky,
    Humus,
}

#[derive(Debug, Clone, Copy, PartialEq, Eq, Structural)]
pub enum SunExposure {
    FullSun,
    PartialShade,
    Shade,
}

#[derive(Debug, Clone, Copy, PartialEq, Eq, Structural)]
pub enum Region {
    Temperate,
    Mediterranean,
    Oceanic,
    Continental,
    Mountain,
}

#[derive(Debug, Clone, Copy, PartialEq, Eq, Structural)]
pub enum Category {
    Fruit,
    Produce,
    Herb,
    Root,
    Bulb,
    Leafy,
    Pod,
}

/// Plant lifecycle: how many growing seasons the plant lives.
#[derive(Debug, Clone, Copy, PartialEq, Eq, Structural)]
pub enum Lifecycle {
    /// Completes its full life cycle in a single growing season.
    Annual,
    /// Requires two growing seasons to complete its life cycle.
    Biennial,
    /// Lives for three or more years, re-growing each season.
    Perennial,
}

/// The lower-case name of a category, as it is shown in placement notes.
pub open spec fn category_label(category: Category) -> Seq<char> {
    match category {
        Category::Fruit => "fruit"@,
        Category::Produce => "produce"@,
        Category::Herb => "herb"@,
        Category::Root => "root"@,
        Category::Bulb => "bulb"@,
        Category::Leafy => "leafy"@,
        Category::Pod => "pod"@,
    }
}

impl Category {
    /// The lower-case name of the category.
    pub fn label(&self) -> (text: &'static str)
        ensures
            text@ == category_label(*self),
    {
        match self {
            Category::Fruit => "fruit",
            Category::Produce => "produce",
            Category::Herb => "herb",
            Category::Root => "root",
            Category::Bulb => "bulb",
            Category::Leafy => "leafy",
            Category::Pod => "pod",
        }
    }
}

/// A plant variety of the catalogue.
#[derive(Debug, PartialEq)]
pub struct Vegetable {
    pub id: String,
    pub name: String,
    pub latin_name: String,
    pub seasons: Vec<Season>,
    pub sun_requirement: Vec<SunExposure>,
    pub soil_types: Vec<SoilType>,
    pub regions: Vec<Region>,
    pub spacing_cm: u32,
    /// Approximate number of days from planting/transplanting to first harvest.
    pub days_to_harvest: u32,
    pub lifecycle: Lifecycle,
    pub good_companions: Vec<String>,
    pub bad_companions: Vec<String>,
    pub beginner_friendly: bool,
    pub category: Category,
}

/// What a variety is, as plain mathematical values.
pub struct VegetableView {
    pub id: Seq<char>,
    pub name: Seq<char>,
    pub latin_name: Seq<char>,
    pub seasons: Seq<Season>,
    pub sun_requirement: Seq<SunExposure>,
    pub soil_types: Seq<SoilType>,
    pub regions: Seq<Region>,
    pub spacing_cm: u32,
    pub days_to_harvest: u32,
    pub lifecycle: Lifecycle,
    pub good_companions: Seq<Seq<char>>,
    pub bad_companions: Seq<Seq<char>>,
    pub beginner_friendly: bool,
    pub category: Category,
}

impl View for Vegetable {
    type V = VegetableView;

    open spec fn view(&self) -> VegetableView {
        VegetableView {
            id: self.id@,
            name: self.name@,
            latin_name: self.latin_name@,
            seasons: self.seasons@,
            sun_requirement: self.sun_requirement@,
            soil_types: self.soil_types@,
            regions: self.regions@,
            spacing_cm: self.spacing_cm,
            days_to_harvest: self.days_to_harvest,
            lifecycle: self.lifecycle,
            good_companions: view_each(self.good_companions@),
            bad_companions: view_each(self.bad_companions@),
            beginner_friendly: self.beginner_friendly,
            category: self.category,
        }
    }
}

impl Clone for Vegetable {
    fn clone(&self) -> (copy: Self)
        ensures
            copy@ == self@,
    {
        Vegetable {
            id: self.id.clone(),
            name: self.name.clone(),
            latin_name: self.latin_name.clone(),
            seasons: self.seasons.clone(),
            sun_requirement: self.sun_requirement.clone(),
            soil_types: self.soil_types.clone(),
            regions: self.regions.clone(),
            spacing_cm: self.spacing_cm,
            days_to_harvest: self.days_to_harvest,
            lifecycle: self.lifecycle,
            good_companions: clone_texts(&self.good_companions),
            bad_companions: clone_texts(&self.bad_companions),
            beginner_friendly: self.beginner_friendly,
            category: self.category,
        }
    }
}

/// The position of the first variety with the given identifier, if any.
pub open spec fn position_of(catalogue: Seq<VegetableView>, id: Seq<char>) -> Option<int>
    decreases catalogue.len(),
{
    if catalogue.len() == 0 {
        None
    } else {
        match position_of(catalogue.drop_last(), id) {
            Some(i) => Some(i),
            None => if catalogue.last().id == id {
                Some(catalogue.len() - 1)
            } else {
                None
            },
        }
    }
}

/// `position_of` is the least index that carries the identifier.
pub proof fn lemma_position_of(catalogue: Seq<VegetableView>, id: Seq<char>)
    ensures
        match position_of(catalogue, id) {
            Some(i) => 0 <= i < catalogue.len() && catalogue[i].id == id
                && forall|j: int| 0 <= j < i ==> catalogue[j].id != id,
            None => forall|j: int| 0 <= j < catalogue.len() ==> catalogue[j].id != id,
        },
    decreases catalogue.len(),
{
    if catalogue.len() > 0 {
        let front = catalogue.drop_last();
        lemma_position_of(front, id);
        assert(forall|j: int| 0 <= j < front.len() ==> front[j] == catalogue[j]);
    }
}

/// Looks a variety up by its identifier: the first one that carries it, or
/// `None` when the catalogue holds none.
pub fn find_by_id<'a>(catalogue: &'a [Vegetable], id: &str) -> (found: Option<&'a Vegetable>)
    ensures
        match position_of(view_each(catalogue@), id@) {
            Some(i) => found == Some(&catalogue@[i]),
            None => found is None,
        },
{
    let mut i: usize = 0;
    while i < catalogue.len()
        invariant
            i <= catalogue.len(),
            forall|j: int| 0 <= j < i ==> catalogue@[j].id@ != id@,
        decreases catalogue.len() - i,
    {
        if catalogue[i].id.as_str().eq(id) {
            proof {
                let views = view_each(catalogue@);
                lemma_position_of(views, id@);
                assert(views[i as int].id == id@);
                assert(forall|j: int| 0 <= j < i ==> views[j].id != id@);
            }
            return Some(&catalogue[i]);
        }
        i += 1;
    }
    proof {
        let views = view_each(catalogue@);
        lemma_position_of(views, id@);
        assert(forall|j: int| 0 <= j < views.len() ==> views[j].id != id@);
    }
    None
}

} // verus!

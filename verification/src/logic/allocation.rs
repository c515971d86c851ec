//! Allocation planner: turns quantity preferences into reserved cells, a
//! cap of placements per variety, and the queue of plants to place.

use vstd::prelude::*;
use crate::logic::spacing::cell_span;
use crate::logic::placer::span_for;
use crate::logic::text::{first_index_of, lemma_first_index_is, lemma_first_index_none, lemma_first_index_of};
use crate::models::request::{PreferenceEntry, PreferenceView};
use crate::models::vegetable::{find_by_id, lemma_position_of, position_of, Vegetable, VegetableView};
use crate::models::view_each;

verus! {

/// One line of a ledger.
#[derive(Debug, Clone)]
struct LedgerEntry {
    id: String,
    amount: usize,
}

/// The allocation ledger: a count per variety identifier. It is working
/// state of one planning run, read as a map from identifier to count.
#[derive(Debug, Clone)]
pub struct Ledger {
    entries: Vec<LedgerEntry>,
}

/// The count that a map holds for an identifier; zero where it holds none.
pub open spec fn amount(counts: Map<Seq<char>, nat>, id: Seq<char>) -> nat {
    if counts.contains_key(id) {
        counts[id]
    } else {
        0
    }
}

spec fn entry_ids(entries: Seq<LedgerEntry>) -> Seq<Seq<char>> {
    Seq::new(entries.len(), |i: int| entries[i].id@)
}

impl View for Ledger {
    type V = Map<Seq<char>, nat>;

    closed spec fn view(&self) -> Map<Seq<char>, nat> {
        Map::new(
            |id: Seq<char>| first_index_of(entry_ids(self.entries@), id) is Some,
            |id: Seq<char>|
                self.entries@[first_index_of(entry_ids(self.entries@), id).unwrap()].amount as nat,
        )
    }
}

impl Ledger {
    /// A ledger without entries.
    pub fn new() -> (ledger: Self)
        ensures
            ledger@ == Map::<Seq<char>, nat>::empty(),
    {
        let ledger = Ledger { entries: Vec::new() };
        proof {
            assert forall|id: Seq<char>| !ledger@.contains_key(id) by {
                lemma_first_index_of(entry_ids(ledger.entries@), id);
            }
            assert(ledger@ =~= Map::<Seq<char>, nat>::empty());
        }
        ledger
    }

    fn find(&self, id: &str) -> (at: Option<usize>)
        ensures
            match at {
                Some(i) => first_index_of(entry_ids(self.entries@), id@) == Some(i as int) && i
                    < self.entries@.len(),
                None => first_index_of(entry_ids(self.entries@), id@) is None,
            },
    {
        let ghost ids = entry_ids(self.entries@);
        let mut i: usize = 0;
        while i < self.entries.len()
            invariant
                i <= self.entries.len(),
                ids == entry_ids(self.entries@),
                forall|j: int| 0 <= j < i ==> ids[j] != id@,
            decreases self.entries.len() - i,
        {
            if self.entries[i].id.as_str().eq(id) {
                proof {
                    lemma_first_index_is(ids, id@, i as int);
                }
                return Some(i);
            }
            i += 1;
        }
        proof {
            lemma_first_index_none(ids, id@);
        }
        None
    }

    /// The count recorded for the identifier, if there is one.
    pub fn get(&self, id: &str) -> (found: Option<usize>)
        ensures
            match found {
                Some(n) => self@.contains_key(id@) && self@[id@] == n,
                None => !self@.contains_key(id@),
            },
    {
        match self.find(id) {
            Some(i) => Some(self.entries[i].amount),
            None => None,
        }
    }

    /// Whether a count is recorded for the identifier.
    pub fn contains_key(&self, id: &str) -> (found: bool)
        ensures
            found == self@.contains_key(id@),
    {
        self.find(id).is_some()
    }

    /// The count recorded for the identifier; zero where there is none.
    pub fn amount_of(&self, id: &str) -> (n: usize)
        ensures
            n == amount(self@, id@),
    {
        match self.find(id) {
            Some(i) => self.entries[i].amount,
            None => 0,
        }
    }

    /// Records the count for the identifier, in place of an earlier one.
    pub fn insert(&mut self, id: String, count: usize)
        ensures
            final(self)@ == old(self)@.insert(id@, count as nat),
    {
        let ghost before = self.entries@;
        let ghost ids = entry_ids(before);
        match self.find(id.as_str()) {
            Some(i) => {
                self.entries[i].amount = count;
                proof {
                    assert(entry_ids(self.entries@) =~= ids);
                    let target = old(self)@.insert(id@, count as nat);
                    assert forall|k: Seq<char>|
                        self@.contains_key(k) == target.contains_key(k) && (self@.contains_key(k)
                            ==> self@[k] == target[k]) by {
                        lemma_first_index_of(ids, k);
                        lemma_first_index_of(ids, id@);
                    }
                    assert(self@ =~= target);
                }
            },
            None => {
                self.entries.push(LedgerEntry { id, amount: count });
                proof {
                    let grown = entry_ids(self.entries@);
                    assert(grown =~= ids.push(id@));
                    assert(grown.drop_last() =~= ids);
                    assert forall|k: Seq<char>| #[trigger] first_index_of(grown, k) == if k == id@ {
                        Some(ids.len() as int)
                    } else {
                        first_index_of(ids, k)
                    } by {
                        lemma_first_index_of(ids, k);
                        lemma_first_index_of(grown, k);
                    }
                    let target = old(self)@.insert(id@, count as nat);
                    assert forall|k: Seq<char>|
                        self@.contains_key(k) == target.contains_key(k) && (self@.contains_key(k)
                            ==> self@[k] == target[k]) by {
                        lemma_first_index_of(ids, k);
                        assert(first_index_of(grown, k) == if k == id@ {
                            Some(ids.len() as int)
                        } else {
                            first_index_of(ids, k)
                        });
                    }
                    assert(self@ =~= target);
                }
            },
        }
    }
}

/// Cells that one plant of the variety occupies.
pub open spec fn cells_per_plant(variety: VegetableView) -> nat {
    span_for(variety) * span_for(variety)
}

/// Cells reserved for `quantity` plants of the variety: what they need,
/// capped at what remains free.
pub open spec fn reserved_cells(variety: VegetableView, quantity: u32, remaining: nat) -> nat {
    if quantity * cells_per_plant(variety) <= remaining {
        (quantity * cells_per_plant(variety)) as nat
    } else {
        remaining
    }
}

/// The reservations after the first `n` preferences, and the cells that
/// remain free: each preference with a quantity whose variety is among the
/// candidates reserves its cells out of what the earlier ones left.
pub open spec fn allocation_upto(
    candidates: Seq<VegetableView>,
    preferences: Seq<PreferenceView>,
    available: nat,
    n: nat,
) -> (Map<Seq<char>, nat>, nat)
    decreases n,
{
    if n == 0 {
        (Map::empty(), available)
    } else {
        let (reserved, remaining) = allocation_upto(
            candidates,
            preferences,
            available,
            (n - 1) as nat,
        );
        let preference = preferences[n - 1];
        match (preference.quantity, position_of(candidates, preference.id)) {
            (Some(quantity), Some(k)) => {
                let cells = reserved_cells(candidates[k], quantity, remaining);
                (reserved.insert(preference.id, cells), (remaining - cells) as nat)
            },
            _ => (reserved, remaining),
        }
    }
}

/// The reservations for a whole preference list.
pub open spec fn explicit_allocation(
    candidates: Seq<VegetableView>,
    preferences: Seq<PreferenceView>,
    available: nat,
) -> Map<Seq<char>, nat> {
    allocation_upto(candidates, preferences, available, preferences.len()).0
}

/// Placements that a reservation of `cells` pays for: none for an empty
/// reservation, otherwise the whole plants that fit, and at least one.
pub open spec fn placements_for(variety: VegetableView, cells: nat) -> nat {
    if cells == 0 {
        0
    } else if cells / cells_per_plant(variety) < 1 {
        1
    } else {
        cells / cells_per_plant(variety)
    }
}

/// The cap of placements per variety, taken over the first `n` candidates:
/// each candidate with a reservation records the placements it pays for.
pub open spec fn placement_caps(
    candidates: Seq<VegetableView>,
    reserved: Map<Seq<char>, nat>,
    n: nat,
) -> Map<Seq<char>, nat>
    decreases n,
{
    if n == 0 {
        Map::empty()
    } else {
        let caps = placement_caps(candidates, reserved, (n - 1) as nat);
        let variety = candidates[n - 1];
        if reserved.contains_key(variety.id) {
            caps.insert(variety.id, placements_for(variety, reserved[variety.id]))
        } else {
            caps
        }
    }
}

/// The placement queue after the first `n` preferences: each preference
/// whose variety is among the candidates adds that variety as often as its
/// cap says, in preference order.
pub open spec fn placement_queue(
    candidates: Seq<VegetableView>,
    preferences: Seq<PreferenceView>,
    caps: Map<Seq<char>, nat>,
    n: nat,
) -> Seq<VegetableView>
    decreases n,
{
    if n == 0 {
        Seq::empty()
    } else {
        let queue = placement_queue(candidates, preferences, caps, (n - 1) as nat);
        match position_of(candidates, preferences[n - 1].id) {
            Some(k) => queue + Seq::new(amount(caps, candidates[k].id), |i: int| candidates[k]),
            None => queue,
        }
    }
}

/// The caps and the queue that the explicit-quantity phase works from.
pub open spec fn queue_plan(
    candidates: Seq<VegetableView>,
    preferences: Seq<PreferenceView>,
    free_cells: nat,
) -> (Seq<VegetableView>, Map<Seq<char>, nat>) {
    let reserved = explicit_allocation(candidates, preferences, free_cells);
    let caps = placement_caps(candidates, reserved, candidates.len());
    (placement_queue(candidates, preferences, caps, preferences.len()), caps)
}

/// Cells that one plant of the variety occupies, as a machine number.
fn plant_cells(vegetable: &Vegetable) -> (cells: u64)
    ensures
        cells == cells_per_plant(vegetable@),
        1 <= cells <= 20_496_382_437_742_929,
{
    let span: u64 = cell_span(vegetable.spacing_cm) as u64;
    assert(1 <= span * span <= 20_496_382_437_742_929) by (nonlinear_arith)
        requires
            1 <= span <= 143_165_577,
    ;
    span * span
}

/// Distributes cells for vegetables that have an explicit `quantity`
/// preference. Returns a ledger of `id → cell count` only for those
/// vegetables; everything else is left to the fill phase.
pub fn compute_explicit_allocation(
    candidates: &[Vegetable],
    preferences: &[PreferenceEntry],
    available: usize,
) -> (allocation: Ledger)
    ensures
        allocation@ == explicit_allocation(
            view_each(candidates@),
            view_each(preferences@),
            available as nat,
        ),
{
    let ghost cands = view_each(candidates@);
    let ghost prefs = view_each(preferences@);
    let mut allocation = Ledger::new();
    let mut remaining: usize = available;
    let mut i: usize = 0;
    while i < preferences.len()
        invariant
            i <= preferences.len(),
            cands == view_each(candidates@),
            prefs == view_each(preferences@),
            (allocation@, remaining as nat) == allocation_upto(cands, prefs, available as nat, i as nat),
        decreases preferences.len() - i,
    {
        let preference = &preferences[i];
        assert(prefs[i as int] == preference@);
        match preference.quantity {
            Some(quantity) => {
                match find_by_id(candidates, preference.id.as_str()) {
                    Some(v) => {
                        let per_plant: u64 = plant_cells(v);
                        assert(quantity * per_plant <= 0xffff_ffff * 20_496_382_437_742_929)
                            by (nonlinear_arith)
                            requires
                                0 <= quantity <= 0xffff_ffff,
                                0 <= per_plant <= 20_496_382_437_742_929,
                        ;
                        let needed: u128 = (quantity as u128) * (per_plant as u128);
                        let cells: usize = if needed <= remaining as u128 {
                            needed as usize
                        } else {
                            remaining
                        };
                        proof {
                            lemma_position_of(cands, preference@.id);
                            let k = position_of(cands, preference@.id).unwrap();
                            assert(cands[k] == v@);
                            assert(cells == reserved_cells(v@, quantity, remaining as nat));
                        }
                        allocation.insert(preference.id.clone(), cells);
                        remaining = remaining - cells;
                    },
                    None => {},
                }
            },
            None => {},
        }
        i += 1;
    }
    allocation
}

/// Placements that a reservation pays for, as a machine number.
fn placements_from(vegetable: &Vegetable, cells: usize) -> (count: usize)
    ensures
        count == placements_for(vegetable@, cells as nat),
        count <= cells,
{
    if cells == 0 {
        0
    } else {
        let per_plant: u64 = plant_cells(vegetable);
        let whole: u64 = (cells as u64) / per_plant;
        assert(whole <= cells) by (nonlinear_arith)
            requires
                whole == (cells as u64) / per_plant,
                per_plant >= 1,
        ;
        if whole < 1 {
            1
        } else {
            whole as usize
        }
    }
}

/// Converts explicit-preference allocations into an ordered placement queue
/// (each vegetable repeated by its placement count) and a per-vegetable cap
/// of placements. Vegetables without an explicit quantity are not in the
/// queue; they are handled by the fill phase.
pub fn build_placement_queue<'a>(
    candidates: &'a [Vegetable],
    preferences: &[PreferenceEntry],
    free_cells: usize,
) -> (plan: (Vec<&'a Vegetable>, Ledger))
    ensures
        (view_each(plan.0@), plan.1@) == queue_plan(
            view_each(candidates@),
            view_each(preferences@),
            free_cells as nat,
        ),
{
    let ghost cands = view_each(candidates@);
    let ghost prefs = view_each(preferences@);
    let allocation = compute_explicit_allocation(candidates, preferences, free_cells);
    let mut caps = Ledger::new();
    let mut k: usize = 0;
    while k < candidates.len()
        invariant
            k <= candidates.len(),
            cands == view_each(candidates@),
            caps@ == placement_caps(cands, allocation@, k as nat),
        decreases candidates.len() - k,
    {
        let v = &candidates[k];
        assert(cands[k as int] == v@);
        match allocation.get(v.id.as_str()) {
            Some(cells) => {
                let count = placements_from(v, cells);
                caps.insert(v.id.clone(), count);
            },
            None => {},
        }
        k += 1;
    }
    let mut queue: Vec<&Vegetable> = Vec::new();
    let mut i: usize = 0;
    assert(view_each(queue@) =~= Seq::<VegetableView>::empty());
    while i < preferences.len()
        invariant
            i <= preferences.len(),
            cands == view_each(candidates@),
            prefs == view_each(preferences@),
            view_each(queue@) == placement_queue(cands, prefs, caps@, i as nat),
        decreases preferences.len() - i,
    {
        assert(prefs[i as int] == preferences@[i as int]@);
        match find_by_id(candidates, preferences[i].id.as_str()) {
            Some(v) => {
                let count = caps.amount_of(v.id.as_str());
                let ghost before = view_each(queue@);
                let mut n: usize = 0;
                assert(before + Seq::new(0, |j: int| v@) =~= before);
                while n < count
                    invariant
                        n <= count,
                        view_each(queue@) == before + Seq::new(n as nat, |j: int| v@),
                    decreases count - n,
                {
                    let ghost prev = view_each(queue@);
                    queue.push(v);
                    assert(view_each(queue@) =~= prev.push(v@));
                    assert(prev.push(v@) =~= before + Seq::new((n + 1) as nat, |j: int| v@));
                    n += 1;
                }
                proof {
                    lemma_position_of(cands, prefs[i as int].id);
                    let at = position_of(cands, prefs[i as int].id).unwrap();
                    assert(cands[at] == v@);
                }
            },
            None => {},
        }
        i += 1;
    }
    (queue, caps)
}

} // verus!

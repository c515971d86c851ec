//! Candidate ranker: filters the catalogue by the request's constraints and
//! orders what is left by priority.

use vstd::prelude::*;
use crate::logic::text::{first_index_of, lemma_first_index_is, lemma_first_index_none};
use crate::models::request::{Level, PlanRequest, PlanRequestView, PreferenceEntry, PreferenceView};
use crate::models::vegetable::{Region, Season, SoilType, SunExposure, Vegetable, VegetableView};
use crate::models::view_each;

verus! {

/// The household consumption rank of a variety: 1 for the most consumed,
/// 999 for an identifier that the table does not hold.
pub open spec fn french_rank_of(id: Seq<char>) -> nat {
    if id == "tomato"@ {
        1
    } else if id == "carrot"@ {
        2
    } else if id == "leek"@ {
        3
    } else if id == "lettuce"@ {
        4
    } else if id == "green-bean"@ {
        5
    } else if id == "zucchini"@ {
        6
    } else if id == "cucumber"@ {
        7
    } else if id == "onion"@ {
        8
    } else if id == "cabbage"@ {
        9
    } else if id == "spinach"@ {
        10
    } else if id == "pepper"@ {
        11
    } else if id == "red-pepper"@ {
        12
    } else if id == "broccoli"@ {
        13
    } else if id == "eggplant"@ {
        14
    } else if id == "cauliflower"@ {
        15
    } else if id == "pea"@ {
        16
    } else if id == "beet"@ {
        17
    } else if id == "radish"@ {
        18
    } else if id == "potato"@ {
        19
    } else if id == "garlic"@ {
        20
    } else if id == "pumpkin"@ {
        21
    } else if id == "celery"@ {
        22
    } else if id == "fennel"@ {
        23
    } else if id == "turnip"@ {
        24
    } else if id == "asparagus"@ {
        25
    } else if id == "artichoke"@ {
        26
    } else if id == "strawberry"@ {
        27
    } else if id == "basil"@ {
        28
    } else if id == "parsley"@ {
        29
    } else if id == "chive"@ {
        30
    } else if id == "mint"@ {
        31
    } else if id == "thyme"@ {
        32
    } else if id == "rosemary"@ {
        33
    } else if id == "maïs"@ {
        34
    } else {
        999
    }
}

/// Returns the French household consumption rank for a vegetable ID.
/// Rank 1 = most consumed; unknown IDs get rank 999.
pub fn french_rank(id: &str) -> (rank: usize)
    ensures
        rank == french_rank_of(id@),
        1 <= rank <= 999,
{
    if id.eq("tomato") {
        1
    } else if id.eq("carrot") {
        2
    } else if id.eq("leek") {
        3
    } else if id.eq("lettuce") {
        4
    } else if id.eq("green-bean") {
        5
    } else if id.eq("zucchini") {
        6
    } else if id.eq("cucumber") {
        7
    } else if id.eq("onion") {
        8
    } else if id.eq("cabbage") {
        9
    } else if id.eq("spinach") {
        10
    } else if id.eq("pepper") {
        11
    } else if id.eq("red-pepper") {
        12
    } else if id.eq("broccoli") {
        13
    } else if id.eq("eggplant") {
        14
    } else if id.eq("cauliflower") {
        15
    } else if id.eq("pea") {
        16
    } else if id.eq("beet") {
        17
    } else if id.eq("radish") {
        18
    } else if id.eq("potato") {
        19
    } else if id.eq("garlic") {
        20
    } else if id.eq("pumpkin") {
        21
    } else if id.eq("celery") {
        22
    } else if id.eq("fennel") {
        23
    } else if id.eq("turnip") {
        24
    } else if id.eq("asparagus") {
        25
    } else if id.eq("artichoke") {
        26
    } else if id.eq("strawberry") {
        27
    } else if id.eq("basil") {
        28
    } else if id.eq("parsley") {
        29
    } else if id.eq("chive") {
        30
    } else if id.eq("mint") {
        31
    } else if id.eq("thyme") {
        32
    } else if id.eq("rosemary") {
        33
    } else if id.eq("maïs") {
        34
    } else {
        999
    }
}

/// The variety meets the request's constraints: it grows in the season,
/// tolerates the sun, soil and region that the request names, and is
/// beginner-friendly where the request is a beginner's.
pub open spec fn suits(variety: VegetableView, request: PlanRequestView) -> bool {
    &&& variety.seasons.contains(request.season)
    &&& request.sun matches Some(sun) ==> variety.sun_requirement.contains(sun)
    &&& request.soil matches Some(soil) ==> variety.soil_types.contains(soil)
    &&& request.region matches Some(region) ==> variety.regions.contains(region)
    &&& request.level == Some(Level::Beginner) ==> variety.beginner_friendly
}

/// The varieties of the catalogue that meet the request's constraints, in
/// catalogue order.
pub open spec fn suitable(catalogue: Seq<VegetableView>, request: PlanRequestView) -> Seq<
    VegetableView,
>
    decreases catalogue.len(),
{
    if catalogue.len() == 0 {
        Seq::empty()
    } else {
        let front = suitable(catalogue.drop_last(), request);
        if suits(catalogue.last(), request) {
            front.push(catalogue.last())
        } else {
            front
        }
    }
}

/// The identifiers of the preferences, in the same order.
pub open spec fn preferred_ids(preferences: Seq<PreferenceView>) -> Seq<Seq<char>> {
    Seq::new(preferences.len(), |i: int| preferences[i].id)
}

/// The priority of a variety: a preferred one comes in the first bucket, by
/// its place in the preference list; any other comes in the second, by its
/// consumption rank. A lower pair is a higher priority.
pub open spec fn priority(variety: VegetableView, preferences: Seq<PreferenceView>) -> (int, int) {
    match first_index_of(preferred_ids(preferences), variety.id) {
        Some(i) => (0, i),
        None => (1, french_rank_of(variety.id) as int),
    }
}

/// The first priority is strictly higher than the second.
pub open spec fn outranks(a: (int, int), b: (int, int)) -> bool {
    a.0 < b.0 || (a.0 == b.0 && a.1 < b.1)
}

/// Item `i` of the source comes before item `j` in the ranking: it has the
/// higher priority, or the same and the earlier place in the source.
pub open spec fn ranks_before(
    source: Seq<VegetableView>,
    preferences: Seq<PreferenceView>,
    i: int,
    j: int,
) -> bool {
    outranks(priority(source[i], preferences), priority(source[j], preferences)) || (priority(
        source[i],
        preferences,
    ) == priority(source[j], preferences) && i < j)
}

/// `ranked` is the source in priority order, and `order` says where each of
/// its items stood in the source: every item of the source appears, and each
/// item ranks before the ones that follow it.
pub open spec fn is_ranking(
    source: Seq<VegetableView>,
    preferences: Seq<PreferenceView>,
    ranked: Seq<VegetableView>,
    order: Seq<int>,
) -> bool {
    &&& ranked.len() == source.len()
    &&& order.len() == source.len()
    &&& forall|k: int|
        0 <= k < order.len() ==> 0 <= #[trigger] order[k] < source.len() && ranked[k]
            == source[order[k]]
    &&& forall|i: int| 0 <= i < source.len() ==> #[trigger] order.contains(i)
    &&& forall|a: int, b: int|
        0 <= a < b < order.len() ==> ranks_before(
            source,
            preferences,
            #[trigger] order[a],
            #[trigger] order[b],
        )
}

/// The source has a ranking and `ranked` is it.
pub open spec fn ranks(
    source: Seq<VegetableView>,
    preferences: Seq<PreferenceView>,
    ranked: Seq<VegetableView>,
) -> bool {
    exists|order: Seq<int>| is_ranking(source, preferences, ranked, order)
}

proof fn lemma_order_unique(
    source: Seq<VegetableView>,
    preferences: Seq<PreferenceView>,
    first: Seq<VegetableView>,
    first_order: Seq<int>,
    second: Seq<VegetableView>,
    second_order: Seq<int>,
    p: int,
)
    requires
        is_ranking(source, preferences, first, first_order),
        is_ranking(source, preferences, second, second_order),
        0 <= p < source.len(),
    ensures
        first_order[p] == second_order[p],
    decreases p,
{
    let x = first_order[p];
    let y = second_order[p];
    if x != y {
        assert forall|q: int| 0 <= q < p implies first_order[q] == second_order[q] by {
            lemma_order_unique(source, preferences, first, first_order, second, second_order, q);
        }
        if ranks_before(source, preferences, x, y) {
            assert(second_order.contains(x));
            let q = choose|q: int| 0 <= q < second_order.len() && second_order[q] == x;
            if q < p {
                assert(ranks_before(source, preferences, first_order[q], first_order[p]));
            } else {
                assert(ranks_before(source, preferences, second_order[p], second_order[q]));
            }
        } else {
            assert(ranks_before(source, preferences, y, x));
            assert(first_order.contains(y));
            let q = choose|q: int| 0 <= q < first_order.len() && first_order[q] == y;
            if q < p {
                assert(ranks_before(source, preferences, second_order[q], second_order[p]));
            } else {
                assert(ranks_before(source, preferences, first_order[p], first_order[q]));
            }
        }
    }
}

/// A source has one ranking only: priority and, within one priority, the
/// place in the source settle the order of any two items.
pub proof fn lemma_ranking_unique(
    source: Seq<VegetableView>,
    preferences: Seq<PreferenceView>,
    first: Seq<VegetableView>,
    second: Seq<VegetableView>,
)
    requires
        ranks(source, preferences, first),
        ranks(source, preferences, second),
    ensures
        first == second,
{
    let first_order = choose|order: Seq<int>| is_ranking(source, preferences, first, order);
    let second_order = choose|order: Seq<int>| is_ranking(source, preferences, second, order);
    assert forall|p: int| 0 <= p < source.len() implies first[p] == second[p] by {
        lemma_order_unique(source, preferences, first, first_order, second, second_order, p);
    }
    assert(first =~= second);
}

fn holds_season(list: &Vec<Season>, wanted: Season) -> (found: bool)
    ensures
        found == list@.contains(wanted),
{
    let mut i: usize = 0;
    while i < list.len()
        invariant
            i <= list.len(),
            forall|j: int| 0 <= j < i ==> list@[j] != wanted,
        decreases list.len() - i,
    {
        if list[i] == wanted {
            return true;
        }
        i += 1;
    }
    false
}

fn holds_sun(list: &Vec<SunExposure>, wanted: SunExposure) -> (found: bool)
    ensures
        found == list@.contains(wanted),
{
    let mut i: usize = 0;
    while i < list.len()
        invariant
            i <= list.len(),
            forall|j: int| 0 <= j < i ==> list@[j] != wanted,
        decreases list.len() - i,
    {
        if list[i] == wanted {
            return true;
        }
        i += 1;
    }
    false
}

fn holds_soil(list: &Vec<SoilType>, wanted: SoilType) -> (found: bool)
    ensures
        found == list@.contains(wanted),
{
    let mut i: usize = 0;
    while i < list.len()
        invariant
            i <= list.len(),
            forall|j: int| 0 <= j < i ==> list@[j] != wanted,
        decreases list.len() - i,
    {
        if list[i] == wanted {
            return true;
        }
        i += 1;
    }
    false
}

fn holds_region(list: &Vec<Region>, wanted: Region) -> (found: bool)
    ensures
        found == list@.contains(wanted),
{
    let mut i: usize = 0;
    while i < list.len()
        invariant
            i <= list.len(),
            forall|j: int| 0 <= j < i ==> list@[j] != wanted,
        decreases list.len() - i,
    {
        if list[i] == wanted {
            return true;
        }
        i += 1;
    }
    false
}

/// Whether the vegetable meets the request's constraints.
pub fn meets_constraints(vegetable: &Vegetable, request: &PlanRequest) -> (ok: bool)
    ensures
        ok == suits(vegetable@, request@),
{
    if !holds_season(&vegetable.seasons, request.season) {
        return false;
    }
    match request.sun {
        Some(sun) => {
            if !holds_sun(&vegetable.sun_requirement, sun) {
                return false;
            }
        },
        None => {},
    }
    match request.soil {
        Some(soil) => {
            if !holds_soil(&vegetable.soil_types, soil) {
                return false;
            }
        },
        None => {},
    }
    match request.region {
        Some(region) => {
            if !holds_region(&vegetable.regions, region) {
                return false;
            }
        },
        None => {},
    }
    let is_beginner = match request.level {
        Some(Level::Beginner) => true,
        _ => false,
    };
    if is_beginner && !vegetable.beginner_friendly {
        return false;
    }
    true
}

/// The priority of a vegetable, as machine numbers.
fn priority_of(vegetable: &Vegetable, preferences: &[PreferenceEntry]) -> (key: (usize, usize))
    ensures
        (key.0 as int, key.1 as int) == priority(vegetable@, view_each(preferences@)),
{
    let ghost ids = preferred_ids(view_each(preferences@));
    let mut i: usize = 0;
    while i < preferences.len()
        invariant
            i <= preferences.len(),
            ids == preferred_ids(view_each(preferences@)),
            forall|j: int| 0 <= j < i ==> ids[j] != vegetable@.id,
        decreases preferences.len() - i,
    {
        if preferences[i].id.as_str().eq(vegetable.id.as_str()) {
            proof {
                lemma_first_index_is(ids, vegetable@.id, i as int);
            }
            return (0, i);
        }
        i += 1;
    }
    proof {
        lemma_first_index_none(ids, vegetable@.id);
    }
    (1, french_rank(vegetable.id.as_str()))
}

/// The vegetables of the catalogue that meet the request's constraints, in
/// catalogue order.
pub fn select_suitable(db: &[Vegetable], request: &PlanRequest) -> (kept: Vec<Vegetable>)
    ensures
        view_each(kept@) == suitable(view_each(db@), request@),
{
    let ghost all = view_each(db@);
    let mut kept: Vec<Vegetable> = Vec::new();
    let mut i: usize = 0;
    assert(all.subrange(0, 0) =~= Seq::<VegetableView>::empty());
    assert(view_each(kept@) =~= Seq::<VegetableView>::empty());
    while i < db.len()
        invariant
            i <= db.len(),
            all == view_each(db@),
            view_each(kept@) == suitable(all.subrange(0, i as int), request@),
        decreases db.len() - i,
    {
        let ghost before = view_each(kept@);
        proof {
            let upto = all.subrange(0, i + 1);
            assert(upto.drop_last() =~= all.subrange(0, i as int));
            assert(upto.last() == db@[i as int]@);
        }
        if meets_constraints(&db[i], request) {
            kept.push(db[i].clone());
            assert(view_each(kept@) =~= before.push(db@[i as int]@));
        }
        i += 1;
    }
    assert(all.subrange(0, i as int) =~= all);
    kept
}

/// Orders the vegetables by priority: preferred ones first, in preference
/// order, then the others by consumption rank; vegetables of one priority
/// keep their order.
pub fn rank_by_priority(source: &[Vegetable], preferences: &[PreferenceEntry]) -> (ranked: Vec<
    Vegetable,
>)
    ensures
        ranks(view_each(source@), view_each(preferences@), view_each(ranked@)),
{
    let ghost src = view_each(source@);
    let ghost prefs = view_each(preferences@);
    let mut ranked: Vec<Vegetable> = Vec::new();
    let mut keys: Vec<(usize, usize)> = Vec::new();
    let ghost mut order: Seq<int> = Seq::empty();
    let mut i: usize = 0;
    while i < source.len()
        invariant
            src == view_each(source@),
            prefs == view_each(preferences@),
            i <= source.len(),
            ranked.len() == i,
            keys.len() == i,
            order.len() == i,
            forall|k: int|
                0 <= k < i ==> 0 <= #[trigger] order[k] < i && ranked@[k]@ == src[order[k]] && (
                keys@[k].0 as int,
                keys@[k].1 as int,
            ) == priority(src[order[k]], prefs),
            forall|j: int| 0 <= j < i ==> #[trigger] order.contains(j),
            forall|a: int, b: int|
                0 <= a < b < i ==> ranks_before(src, prefs, #[trigger] order[a], #[trigger] order[b]),
        decreases source.len() - i,
    {
        let key = priority_of(&source[i], preferences);
        assert(src[i as int] == source@[i as int]@);
        let mut at: usize = 0;
        while at < ranked.len() && !(key.0 < keys[at].0 || (key.0 == keys[at].0 && key.1
            < keys[at].1))
            invariant
                at <= ranked.len(),
                ranked.len() == keys.len(),
                forall|k: int|
                    0 <= k < at ==> !outranks(
                        (key.0 as int, key.1 as int),
                        (#[trigger] keys@[k].0 as int, keys@[k].1 as int),
                    ),
            decreases ranked.len() - at,
        {
            at += 1;
        }
        let ghost before = order;
        let ghost old_ranked = ranked@;
        let ghost old_keys = keys@;
        ranked.insert(at, source[i].clone());
        keys.insert(at, key);
        proof {
            order = before.insert(at as int, i as int);
            assert forall|k: int| 0 <= k < i + 1 implies 0 <= #[trigger] order[k] < i + 1
                && ranked@[k]@ == src[order[k]] && (keys@[k].0 as int, keys@[k].1 as int)
                == priority(src[order[k]], prefs) by {
                if k < at {
                    assert(order[k] == before[k]);
                } else if k > at {
                    assert(order[k] == before[k - 1]);
                }
            }
            assert forall|j: int| 0 <= j < i + 1 implies #[trigger] order.contains(j) by {
                if j == i {
                    assert(order[at as int] == j);
                } else {
                    assert(before.contains(j));
                    let w = choose|w: int| 0 <= w < before.len() && before[w] == j;
                    if w < at {
                        assert(order[w] == j);
                    } else {
                        assert(order[w + 1] == j);
                    }
                }
            }
            assert forall|a: int, b: int| 0 <= a < b < i + 1 implies ranks_before(
                src,
                prefs,
                #[trigger] order[a],
                #[trigger] order[b],
            ) by {
                let new_key = (key.0 as int, key.1 as int);
                if b < at {
                    assert(order[a] == before[a] && order[b] == before[b]);
                } else if a > at {
                    assert(order[a] == before[a - 1] && order[b] == before[b - 1]);
                } else if a < at && b > at {
                    assert(order[a] == before[a] && order[b] == before[b - 1]);
                } else if b == at {
                    assert(order[a] == before[a]);
                    assert(!outranks(new_key, (old_keys[a].0 as int, old_keys[a].1 as int)));
                } else {
                    assert(a == at && b > at);
                    assert(order[b] == before[b - 1]);
                    assert(outranks(new_key, (old_keys[at as int].0 as int, old_keys[at as int].1 as int)));
                    if b - 1 > at {
                        assert(ranks_before(src, prefs, before[at as int], before[b - 1]));
                    }
                }
            }
        }
        i += 1;
    }
    proof {
        assert(is_ranking(src, prefs, view_each(ranked@), order));
    }
    ranked
}

/// Filters vegetables according to request constraints and sorts by
/// priority: user preferences come first, in preference order, followed by
/// the others in order of consumption rank.
pub fn filter_vegetables(db: &[Vegetable], request: &PlanRequest) -> (candidates: Vec<Vegetable>)
    ensures
        ranks(
            suitable(view_each(db@), request@),
            request@.preference_list(),
            view_each(candidates@),
        ),
{
    let kept = select_suitable(db, request);
    let no_preferences: Vec<PreferenceEntry> = Vec::new();
    let preferences: &[PreferenceEntry] = match &request.preferences {
        Some(list) => list.as_slice(),
        None => no_preferences.as_slice(),
    };
    assert(view_each(preferences@) =~= request@.preference_list());
    rank_by_priority(kept.as_slice(), preferences)
}

} // verus!

//! Companion scorer: the signed compatibility of a variety with the
//! varieties planted next to it.

use vstd::prelude::*;
use crate::models::request::{
    CompanionInfo, CompanionInfoView, CompanionsResponse, CompanionsView,
};
use crate::models::vegetable::{find_by_id, lemma_position_of, position_of, Vegetable, VegetableView};
use crate::models::view_each;
use crate::logic::text::contains_text;

verus! {

pub const GOOD_COMPANION_SCORE: i32 = 2;

pub const BAD_COMPANION_SCORE: i32 = -3;

/// What one neighbour adds to the score: `+2` if the variety lists it as a
/// good companion, and `-3` if it lists it as a bad one. A neighbour on both
/// lists adds both.
pub open spec fn neighbor_delta(variety: VegetableView, neighbor_id: Seq<char>) -> int {
    (if variety.good_companions.contains(neighbor_id) {
        2int
    } else {
        0int
    }) + (if variety.bad_companions.contains(neighbor_id) {
        -3int
    } else {
        0int
    })
}

/// The companion score of a variety against its neighbours: the sum of what
/// each neighbour adds.
pub open spec fn score_of(variety: VegetableView, neighbor_ids: Seq<Seq<char>>) -> int
    decreases neighbor_ids.len(),
{
    if neighbor_ids.len() == 0 {
        0
    } else {
        score_of(variety, neighbor_ids.drop_last()) + neighbor_delta(variety, neighbor_ids.last())
    }
}

/// Two varieties are compatible unless one lists the other as a bad
/// companion.
pub open spec fn compatible(a: VegetableView, b: VegetableView) -> bool {
    !a.bad_companions.contains(b.id) && !b.bad_companions.contains(a.id)
}

/// Compatibility is symmetric.
pub proof fn lemma_compatible_symmetric(a: VegetableView, b: VegetableView)
    ensures
        compatible(a, b) == compatible(b, a),
{
}

/// The score lies between `-3` and `+2` per neighbour.
pub proof fn lemma_score_bounds(variety: VegetableView, neighbor_ids: Seq<Seq<char>>)
    ensures
        -3 * neighbor_ids.len() <= score_of(variety, neighbor_ids) <= 2 * neighbor_ids.len(),
    decreases neighbor_ids.len(),
{
    if neighbor_ids.len() > 0 {
        lemma_score_bounds(variety, neighbor_ids.drop_last());
    }
}

/// The score is additive: the score against two groups of neighbours, one
/// after the other, is the sum of the scores against each group.
pub proof fn lemma_score_additive(
    variety: VegetableView,
    first: Seq<Seq<char>>,
    second: Seq<Seq<char>>,
)
    ensures
        score_of(variety, first + second) == score_of(variety, first) + score_of(variety, second),
    decreases second.len(),
{
    if second.len() == 0 {
        assert(first + second =~= first);
    } else {
        assert((first + second).drop_last() =~= first + second.drop_last());
        assert((first + second).last() == second.last());
        lemma_score_additive(variety, first, second.drop_last());
    }
}

/// The score of a single neighbour is what that neighbour adds; for one on
/// both lists that is `2 - 3`.
pub proof fn lemma_score_single(variety: VegetableView, neighbor_id: Seq<char>)
    ensures
        score_of(variety, seq![neighbor_id]) == neighbor_delta(variety, neighbor_id),
        variety.good_companions.contains(neighbor_id) && variety.bad_companions.contains(
            neighbor_id,
        ) ==> score_of(variety, seq![neighbor_id]) == 2 - 3,
{
    let one = seq![neighbor_id];
    assert(one.drop_last() =~= Seq::<Seq<char>>::empty());
    assert(one.last() == neighbor_id);
    assert(score_of(variety, one.drop_last()) == 0);
}

/// The score does not depend on the order of the neighbours: two listings of
/// the same neighbours, each as often as in the other, score the same.
pub proof fn lemma_score_order_independent(
    variety: VegetableView,
    first: Seq<Seq<char>>,
    second: Seq<Seq<char>>,
)
    requires
        first.to_multiset() == second.to_multiset(),
    ensures
        score_of(variety, first) == score_of(variety, second),
    decreases first.len(),
{
    broadcast use vstd::seq_lib::group_to_multiset_ensures;

    assert(first.len() == second.len()) by {
        assert(first.to_multiset().len() == first.len());
        assert(second.to_multiset().len() == second.len());
    }
    if first.len() > 0 {
        let x = first.last();
        let front = first.drop_last();
        assert(first =~= front.push(x));
        assert(first.to_multiset().count(x) > 0);
        assert(second.to_multiset().contains(x));
        assert(second.contains(x));
        let j = choose|j: int| 0 <= j < second.len() && second[j] == x;
        let rest = second.remove(j);
        assert(front.to_multiset() =~= first.to_multiset().remove(x)) by {
            assert(first.remove(first.len() - 1) =~= front);
            vstd::seq_lib::to_multiset_remove(first, first.len() - 1);
        }
        assert(rest.to_multiset() =~= second.to_multiset().remove(x)) by {
            vstd::seq_lib::to_multiset_remove(second, j);
        }
        lemma_score_order_independent(variety, front, rest);
        let head = second.subrange(0, j);
        let tail = second.subrange(j + 1, second.len() as int);
        assert(second =~= head + seq![x] + tail);
        assert(rest =~= head + tail);
        lemma_score_additive(variety, head + seq![x], tail);
        lemma_score_additive(variety, head, seq![x]);
        lemma_score_additive(variety, head, tail);
        lemma_score_single(variety, x);
    }
}

/// Calculates the companion score of a vegetable against its neighbours:
/// +2 per good companion, -3 per bad companion.
pub fn companion_score(vegetable: &Vegetable, neighbor_ids: &[&str]) -> (score: i32)
    requires
        3 * neighbor_ids@.len() <= i32::MAX,
    ensures
        score == score_of(vegetable@, view_each(neighbor_ids@)),
{
    let ghost ids = view_each(neighbor_ids@);
    let mut score: i32 = 0;
    let mut i: usize = 0;
    while i < neighbor_ids.len()
        invariant
            i <= neighbor_ids.len(),
            ids == view_each(neighbor_ids@),
            3 * neighbor_ids@.len() <= i32::MAX,
            score == score_of(vegetable@, ids.subrange(0, i as int)),
            -3 * i <= score <= 2 * i,
        decreases neighbor_ids.len() - i,
    {
        let neighbor_id: &str = neighbor_ids[i];
        proof {
            let upto = ids.subrange(0, i + 1);
            assert(upto.drop_last() =~= ids.subrange(0, i as int));
            assert(upto.last() == neighbor_id@);
        }
        if contains_text(&vegetable.good_companions, neighbor_id) {
            score += GOOD_COMPANION_SCORE;
        }
        if contains_text(&vegetable.bad_companions, neighbor_id) {
            score += BAD_COMPANION_SCORE;
        }
        i += 1;
    }
    assert(ids.subrange(0, i as int) =~= ids);
    score
}

/// Returns true if the two vegetables are compatible (neither appears in the
/// other's list of bad companions).
pub fn is_compatible(a: &Vegetable, b: &Vegetable) -> (ok: bool)
    ensures
        ok == compatible(a@, b@),
{
    !contains_text(&a.bad_companions, b.id.as_str()) && !contains_text(
        &b.bad_companions,
        a.id.as_str(),
    )
}

/// The companions that the catalogue knows among the identifiers: for each
/// identifier, in order, the first variety that carries it; identifiers that
/// the catalogue does not hold are left out.
pub open spec fn known_companions(catalogue: Seq<VegetableView>, ids: Seq<Seq<char>>) -> Seq<
    CompanionInfoView,
>
    decreases ids.len(),
{
    if ids.len() == 0 {
        Seq::empty()
    } else {
        let front = known_companions(catalogue, ids.drop_last());
        match position_of(catalogue, ids.last()) {
            Some(k) => front.push(CompanionInfoView { id: catalogue[k].id, name: catalogue[k].name }),
            None => front,
        }
    }
}

/// Identifier and name of each listed companion that the catalogue knows.
pub fn companion_infos(catalogue: &[Vegetable], ids: &Vec<String>) -> (infos: Vec<CompanionInfo>)
    ensures
        view_each(infos@) == known_companions(view_each(catalogue@), view_each(ids@)),
{
    let ghost known = view_each(catalogue@);
    let ghost all = view_each(ids@);
    let mut infos: Vec<CompanionInfo> = Vec::new();
    let mut i: usize = 0;
    assert(all.subrange(0, 0) =~= Seq::<Seq<char>>::empty());
    assert(view_each(infos@) =~= Seq::<CompanionInfoView>::empty());
    while i < ids.len()
        invariant
            i <= ids.len(),
            known == view_each(catalogue@),
            all == view_each(ids@),
            view_each(infos@) == known_companions(known, all.subrange(0, i as int)),
        decreases ids.len() - i,
    {
        let ghost before = view_each(infos@);
        proof {
            let upto = all.subrange(0, i + 1);
            assert(upto.drop_last() =~= all.subrange(0, i as int));
            assert(upto.last() == ids@[i as int]@);
            lemma_position_of(known, ids@[i as int]@);
        }
        match find_by_id(catalogue, ids[i].as_str()) {
            Some(v) => {
                infos.push(CompanionInfo { id: v.id.clone(), name: v.name.clone() });
                assert(view_each(infos@) =~= before.push(
                    CompanionInfoView { id: v@.id, name: v@.name },
                ));
            },
            None => {},
        }
        i += 1;
    }
    assert(all.subrange(0, i as int) =~= all);
    infos
}

/// The good and bad companions of the variety with the identifier, as far as
/// the catalogue knows them; `None` when the catalogue does not hold the
/// variety.
pub fn companions_of(catalogue: &[Vegetable], id: &str) -> (found: Option<CompanionsResponse>)
    ensures
        match position_of(view_each(catalogue@), id@) {
            Some(k) => found matches Some(response) && response@ == (CompanionsView {
                id: catalogue@[k]@.id,
                name: catalogue@[k]@.name,
                good: known_companions(view_each(catalogue@), catalogue@[k]@.good_companions),
                bad: known_companions(view_each(catalogue@), catalogue@[k]@.bad_companions),
            }),
            None => found is None,
        },
{
    match find_by_id(catalogue, id) {
        None => None,
        Some(v) => Some(
            CompanionsResponse {
                id: v.id.clone(),
                name: v.name.clone(),
                good: companion_infos(catalogue, &v.good_companions),
                bad: companion_infos(catalogue, &v.bad_companions),
            },
        ),
    }
}

} // verus!

//! What merging keeps and what it removes: one entity for each text and type, the most
//! confident one; entities that differ in text or type stay apart; every group holds the
//! entities of its type, in order of falling confidence.

use crate::entities::absorb;
use crate::entities::by_score;
use crate::entities::dedup;
use crate::entities::groups_of;
use crate::entities::insert_by_score;
use crate::entities::of_type;
use crate::entities::position;
use crate::entities::same_key;
use crate::entities::types_of;
use crate::entities::Entity;
use vstd::prelude::*;
use vstd::seq_lib::to_multiset_build;

verus! {

/// Whether no two entries share text and type.
pub open spec fn distinct_keys(uniq: Seq<Entity>) -> bool {
    forall|i: int, j: int| 0 <= i < j < uniq.len() ==> !same_key(#[trigger] uniq[i], #[trigger] uniq[j])
}

/// `position` is the index of an entry with the key, before which no entry has the key;
/// or the length, where no entry has the key.
pub proof fn lemma_position(uniq: Seq<Entity>, e: Entity)
    ensures
        0 <= position(uniq, e) <= uniq.len(),
        position(uniq, e) < uniq.len() ==> same_key(uniq[position(uniq, e)], e),
        forall|i: int| 0 <= i < position(uniq, e) ==> !same_key(#[trigger] uniq[i], e),
    decreases uniq.len(),
{
    if uniq.len() > 0 && !same_key(uniq[0], e) {
        lemma_position(uniq.drop_first(), e);
        let k = position(uniq.drop_first(), e);
        assert forall|i: int| 0 <= i < position(uniq, e) implies !same_key(#[trigger] uniq[i], e) by {
            if i > 0 {
                assert(uniq[i] == uniq.drop_first()[i - 1]);
            }
        }
        if k < uniq.drop_first().len() {
            assert(uniq[k + 1] == uniq.drop_first()[k]);
        }
    }
}

/// Merging leaves one entity for each pair of text and type.
pub proof fn lemma_dedup_distinct(all: Seq<Entity>)
    ensures
        distinct_keys(dedup(all)),
    decreases all.len(),
{
    if all.len() > 0 {
        let before = dedup(all.drop_last());
        let e = all.last();
        lemma_dedup_distinct(all.drop_last());
        lemma_position(before, e);
        let after = absorb(before, e);
        let k = position(before, e);
        assert forall|i: int, j: int| 0 <= i < j < after.len() implies !same_key(
            #[trigger] after[i],
            #[trigger] after[j],
        ) by {
            if k == before.len() {
                if j < before.len() {
                    assert(!same_key(before[i], before[j]));
                } else {
                    assert(!same_key(before[i], e));
                }
            } else {
                assert(!same_key(before[i], before[j]));
                assert(same_key(before[k], e));
            }
        }
    }
}

/// Every entity that was found is represented after merging: by an entity of the same text
/// and type that is at least as confident.
pub proof fn lemma_dedup_represents(all: Seq<Entity>, i: int)
    requires
        0 <= i < all.len(),
    ensures
        position(dedup(all), all[i]) < dedup(all).len(),
        same_key(dedup(all)[position(dedup(all), all[i])], all[i]),
        dedup(all)[position(dedup(all), all[i])].score >= all[i].score,
    decreases all.len(),
{
    let before = dedup(all.drop_last());
    let e = all.last();
    let after = dedup(all);
    let k = position(before, e);
    lemma_position(before, e);
    lemma_position(after, all[i]);
    if i == all.len() - 1 {
        if k == before.len() {
            assert(after[k] == e);
        }
        assert(same_key(after[k], e));
        assert(position(after, e) <= k);
    } else {
        lemma_dedup_represents(all.drop_last(), i);
        assert(all.drop_last()[i] == all[i]);
        let q = position(before, all[i]);
        lemma_position(before, all[i]);
        assert(same_key(after[q], all[i]));
        assert(position(after, all[i]) <= q);
        let r = position(after, all[i]);
        if r < q {
            assert(same_key(after[r], all[i]));
            if r == k {
                assert(same_key(before[k], e));
            }
            assert(same_key(before[r], all[i]));
        }
    }
}

/// Every entity that is left after merging was found: merging invents none.
pub proof fn lemma_dedup_from_input(all: Seq<Entity>, k: int)
    requires
        0 <= k < dedup(all).len(),
    ensures
        exists|i: int| 0 <= i < all.len() && #[trigger] all[i] == dedup(all)[k],
    decreases all.len(),
{
    let before = dedup(all.drop_last());
    let e = all.last();
    let p = position(before, e);
    lemma_position(before, e);
    if dedup(all)[k] == e {
        assert(all[all.len() - 1] == dedup(all)[k]);
    } else {
        assert(dedup(all)[k] == before[k]);
        lemma_dedup_from_input(all.drop_last(), k);
        let i = choose|i: int| 0 <= i < all.drop_last().len() && #[trigger] all.drop_last()[i] == before[k];
        assert(all[i] == dedup(all)[k]);
    }
}

/// Entities that differ in text or type are never merged: after merging, each of two such
/// entities is represented by an entry of its own.
pub proof fn lemma_never_merged(all: Seq<Entity>, i: int, j: int)
    requires
        0 <= i < all.len(),
        0 <= j < all.len(),
        !same_key(all[i], all[j]),
    ensures
        position(dedup(all), all[i]) != position(dedup(all), all[j]),
        position(dedup(all), all[i]) < dedup(all).len(),
        position(dedup(all), all[j]) < dedup(all).len(),
{
    lemma_dedup_represents(all, i);
    lemma_dedup_represents(all, j);
}

/// Whether the entries stand in order of falling confidence.
pub open spec fn falling(sorted: Seq<Entity>) -> bool {
    forall|i: int, j: int| 0 <= i < j < sorted.len() ==> (#[trigger] sorted[i]).score >= (#[trigger] sorted[j]).score
}

/// Placing an entity by its confidence keeps the order, and adds this entity and no other.
proof fn lemma_insert_by_score(sorted: Seq<Entity>, e: Entity)
    requires
        falling(sorted),
    ensures
        falling(insert_by_score(sorted, e)),
        insert_by_score(sorted, e).to_multiset() == sorted.to_multiset().insert(e),
        insert_by_score(sorted, e).len() == sorted.len() + 1,
        forall|i: int|
            0 <= i < sorted.len() + 1 ==> (#[trigger] insert_by_score(sorted, e)[i]).score
                >= e.score || (sorted.len() > 0 && insert_by_score(sorted, e)[i].score
                >= sorted.last().score),
    decreases sorted.len(),
{
    let out = insert_by_score(sorted, e);
    if sorted.len() == 0 {
        assert(out =~= Seq::<Entity>::empty().push(e));
        to_multiset_build(Seq::<Entity>::empty(), e);
        assert(sorted =~= Seq::<Entity>::empty());
    } else if sorted.last().score >= e.score {
        to_multiset_build(sorted, e);
        assert forall|i: int, j: int| 0 <= i < j < out.len() implies (#[trigger] out[i]).score >= (
        #[trigger] out[j]).score by {
            if j == sorted.len() {
                if i < sorted.len() - 1 {
                    assert(sorted[i].score >= sorted[sorted.len() - 1].score);
                }
            } else {
                assert(sorted[i].score >= sorted[j].score);
            }
        }
    } else {
        let front = sorted.drop_last();
        assert forall|i: int, j: int| 0 <= i < j < front.len() implies (#[trigger] front[i]).score
            >= (#[trigger] front[j]).score by {
            assert(sorted[i].score >= sorted[j].score);
        }
        lemma_insert_by_score(front, e);
        let mid = insert_by_score(front, e);
        to_multiset_build(mid, sorted.last());
        to_multiset_build(front, sorted.last());
        assert(front.push(sorted.last()) =~= sorted);
        assert(front.to_multiset().insert(e).insert(sorted.last()) =~= front.to_multiset().insert(
            sorted.last(),
        ).insert(e));
        assert forall|i: int, j: int| 0 <= i < j < out.len() implies (#[trigger] out[i]).score >= (
        #[trigger] out[j]).score by {
            if j == mid.len() {
                assert(out[i] == mid[i]);
                if front.len() > 0 {
                    assert(sorted[front.len() - 1].score >= sorted[sorted.len() - 1].score);
                }
            } else {
                assert(mid[i].score >= mid[j].score);
            }
        }
    }
}

/// A group in order of falling confidence holds the entities of the group, each as often
/// as the group does, the more confident before the less confident.
pub proof fn lemma_by_score(group: Seq<Entity>)
    ensures
        falling(by_score(group)),
        by_score(group).to_multiset() == group.to_multiset(),
        by_score(group).len() == group.len(),
    decreases group.len(),
{
    if group.len() == 0 {
        assert(by_score(group) =~= group);
    } else {
        lemma_by_score(group.drop_last());
        lemma_insert_by_score(by_score(group.drop_last()), group.last());
        to_multiset_build(group.drop_last(), group.last());
        assert(group.drop_last().push(group.last()) =~= group);
    }
}

/// The entries of one type are entries of the list, all of this type, and all of them.
pub proof fn lemma_of_type(uniq: Seq<Entity>, t: Seq<char>)
    ensures
        forall|i: int| 0 <= i < of_type(uniq, t).len() ==> (#[trigger] of_type(uniq, t)[i]).entity_type@ == t && uniq.contains(of_type(uniq, t)[i]),
        forall|i: int| 0 <= i < uniq.len() && (#[trigger] uniq[i]).entity_type@ == t ==> of_type(uniq, t).contains(uniq[i]),
    decreases uniq.len(),
{
    if uniq.len() > 0 {
        let front = uniq.drop_last();
        lemma_of_type(front, t);
        let sel = of_type(uniq, t);
        let sel_front = of_type(front, t);
        assert forall|i: int| 0 <= i < sel.len() implies (#[trigger] sel[i]).entity_type@ == t
            && uniq.contains(sel[i]) by {
            if i < sel_front.len() {
                assert(sel[i] == sel_front[i]);
                assert(front.contains(sel_front[i]));
                let k = choose|k: int| 0 <= k < front.len() && front[k] == sel_front[i];
                assert(uniq[k] == sel[i]);
            } else {
                assert(sel[i] == uniq[uniq.len() - 1]);
            }
        }
        assert forall|i: int| 0 <= i < uniq.len() && (#[trigger] uniq[i]).entity_type@ == t implies sel.contains(
            uniq[i],
        ) by {
            if i < front.len() {
                assert(front[i] == uniq[i]);
                assert(sel_front.contains(front[i]));
                let k = choose|k: int| 0 <= k < sel_front.len() && sel_front[k] == front[i];
                assert(sel[k] == uniq[i]);
            } else {
                assert(sel[sel.len() - 1] == uniq[i]);
            }
        }
    }
}

/// The types of a list are the types of its entries, each once.
pub proof fn lemma_types_of(uniq: Seq<Entity>)
    ensures
        types_of(uniq).no_duplicates(),
        forall|i: int| 0 <= i < uniq.len() ==> types_of(uniq).contains((#[trigger] uniq[i]).entity_type@),
        forall|k: int|
            0 <= k < types_of(uniq).len() ==> exists|i: int|
                0 <= i < uniq.len() && (#[trigger] uniq[i]).entity_type@ == #[trigger] types_of(
                    uniq,
                )[k],
    decreases uniq.len(),
{
    if uniq.len() > 0 {
        let front = uniq.drop_last();
        lemma_types_of(front);
        let before = types_of(front);
        let all = types_of(uniq);
        let t = uniq.last().entity_type@;
        assert forall|i: int| 0 <= i < uniq.len() implies all.contains((#[trigger] uniq[i]).entity_type@) by {
            if i < front.len() {
                assert(front[i] == uniq[i]);
                let k = choose|k: int| 0 <= k < before.len() && before[k] == front[i].entity_type@;
                assert(all[k] == uniq[i].entity_type@);
            } else {
                if before.contains(t) {
                    let k = choose|k: int| 0 <= k < before.len() && before[k] == t;
                    assert(all[k] == t);
                } else {
                    assert(all[all.len() - 1] == t);
                }
            }
        }
        assert forall|k: int| 0 <= k < all.len() implies exists|i: int|
            0 <= i < uniq.len() && (#[trigger] uniq[i]).entity_type@ == #[trigger] all[k] by {
            if k < before.len() {
                let i = choose|i: int| 0 <= i < front.len() && (#[trigger] front[i]).entity_type@ == before[k];
                assert(uniq[i].entity_type@ == all[k]);
            } else {
                assert(uniq[uniq.len() - 1].entity_type@ == all[k]);
            }
        }
    }
}

/// Every group holds the entities of its type, each as often as the list does, in order of
/// falling confidence; and no two groups have the same type.
pub proof fn lemma_groups_of(uniq: Seq<Entity>, k: int)
    requires
        0 <= k < groups_of(uniq).len(),
    ensures
        groups_of(uniq).len() == types_of(uniq).len(),
        groups_of(uniq)[k].0 == types_of(uniq)[k],
        falling(groups_of(uniq)[k].1),
        groups_of(uniq)[k].1.to_multiset() == of_type(uniq, groups_of(uniq)[k].0).to_multiset(),
        forall|j: int| 0 <= j < groups_of(uniq).len() && j != k ==> (#[trigger] groups_of(uniq)[j]).0 != groups_of(uniq)[k].0,
{
    let t = types_of(uniq)[k];
    lemma_by_score(of_type(uniq, t));
    lemma_types_of(uniq);
    assert forall|j: int| 0 <= j < groups_of(uniq).len() && j != k implies (#[trigger] groups_of(
        uniq,
    )[j]).0 != groups_of(uniq)[k].0 by {
        assert(groups_of(uniq)[j].0 == types_of(uniq)[j]);
    }
}

} // verus!

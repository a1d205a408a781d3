//! What holds of the registry's operations, alone and one after another.
//!
//! Everything here is stated over the model: sequences of group views and
//! the spec functions by which the operations' contracts are written.

use vstd::prelude::*;
use uuid::Uuid;
use crate::group::{GroupView, Status};
use crate::model::{
    count_id, created, deleted_at, first_match, has_id, is_first_match, is_live, listing, max_id,
    next_id, status_set, unique_ids, visible, with_deleted, with_status, with_system,
};

verus! {

/// No record of the visible part of a list is soft-deleted.
pub proof fn lemma_visible_all_live(groups: Seq<GroupView>)
    ensures
        forall|i: int|
            0 <= i < visible(groups).len() ==> !(#[trigger] visible(groups)[i]).is_delete,
{
    let live = |g: GroupView| is_live(g);
    assert forall|i: int| 0 <= i < visible(groups).len() implies !(#[trigger] visible(
        groups,
    )[i]).is_delete by {
        groups.lemma_filter_pred(live, i);
    }
}

/// Every visible record is a stored record.
pub proof fn lemma_visible_is_stored(groups: Seq<GroupView>, i: int)
    requires
        0 <= i < visible(groups).len(),
    ensures
        groups.contains(visible(groups)[i]),
{
    let live = |g: GroupView| is_live(g);
    assert(visible(groups).contains(visible(groups)[i]));
    groups.lemma_filter_contains_rev(live, visible(groups)[i]);
}

/// Two lists of one length that agree on which records are soft-deleted, and
/// on every record that is not, have the same visible part.
pub proof fn lemma_visible_agrees(a: Seq<GroupView>, b: Seq<GroupView>)
    requires
        a.len() == b.len(),
        forall|i: int| 0 <= i < a.len() ==> is_live(#[trigger] a[i]) == is_live(b[i]),
        forall|i: int| 0 <= i < a.len() && is_live(a[i]) ==> #[trigger] a[i] == b[i],
    ensures
        visible(a) == visible(b),
    decreases a.len(),
{
    reveal(Seq::filter);
    if a.len() > 0 {
        assert(is_live(a[a.len() - 1]) == is_live(b[a.len() - 1]));
        lemma_visible_agrees(a.drop_last(), b.drop_last());
    }
}

/// Every id in use is at most `max_id`, which is itself in use unless it
/// is 0.
pub proof fn lemma_max_id_bounds(groups: Seq<GroupView>)
    ensures
        forall|i: int| 0 <= i < groups.len() ==> (#[trigger] groups[i]).id <= max_id(groups),
        max_id(groups) == 0 || has_id(groups, max_id(groups)),
    decreases groups.len(),
{
    if groups.len() > 0 {
        let rest = groups.drop_last();
        lemma_max_id_bounds(rest);
        assert forall|i: int| 0 <= i < groups.len() implies (#[trigger] groups[i]).id <= max_id(
            groups,
        ) by {
            if i < rest.len() {
                assert(rest[i] == groups[i]);
            }
        }
        if max_id(groups) != 0 {
            if groups.last().id > max_id(rest) {
                assert(groups[groups.len() - 1].id == max_id(groups));
            } else {
                let k = choose|k: int|
                    0 <= k < rest.len() && (#[trigger] rest[k]).id == max_id(rest);
                assert(groups[k].id == max_id(groups));
            }
        }
    }
}

/// Where some record carries `id`, one of them comes first.
pub proof fn lemma_first_match(groups: Seq<GroupView>, id: nat)
    requires
        has_id(groups, id),
    ensures
        is_first_match(groups, id, first_match(groups, id)),
{
    let k = choose|k: int| 0 <= k < groups.len() && (#[trigger] groups[k]).id == id;
    lemma_first_match_before(groups, id, k);
}

/// A record that carries `id` at position `k` has a first such record at or
/// before it.
proof fn lemma_first_match_before(groups: Seq<GroupView>, id: nat, k: int)
    requires
        0 <= k < groups.len(),
        groups[k].id == id,
    ensures
        exists|i: int| is_first_match(groups, id, i),
    decreases k,
{
    if exists|j: int| 0 <= j < k && (#[trigger] groups[j]).id == id {
        let j = choose|j: int| 0 <= j < k && (#[trigger] groups[j]).id == id;
        lemma_first_match_before(groups, id, j);
    } else {
        assert(is_first_match(groups, id, k));
    }
}

/// The id that the generator hands out is never the reserved 0 and is
/// carried by no stored record, soft-deleted or not.
pub proof fn law_next_id_is_unused(groups: Seq<GroupView>)
    ensures
        next_id(groups) >= 1,
        !has_id(groups, next_id(groups)),
        forall|i: int| 0 <= i < groups.len() ==> (#[trigger] groups[i]).id < next_id(groups),
{
    lemma_max_id_bounds(groups);
}

/// No listing holds a soft-deleted record, with or without the system
/// group.
pub proof fn law_listing_hides_deleted(groups: Seq<GroupView>, system: Option<GroupView>)
    ensures
        forall|i: int|
            0 <= i < listing(groups, system).len() ==> !(#[trigger] listing(
                groups,
                system,
            )[i]).is_delete,
{
    lemma_visible_all_live(with_system(groups, system));
}

/// How many records with id 0 a listing holds. Where the offered system
/// group is put first, the stored list has none, and the listing has the
/// offered one if it is a live record with id 0; in every other case the
/// listing has as many as the visible part of the stored list.
pub proof fn law_listing_zero_count(groups: Seq<GroupView>, system: Option<GroupView>)
    ensures
        count_id(listing(groups, system), 0) == match system {
            Some(g) => if has_id(groups, 0) {
                count_id(visible(groups), 0)
            } else if is_live(g) && g.id == 0 {
                1
            } else {
                0
            },
            None => count_id(visible(groups), 0),
        },
{
    let live = |g: GroupView| is_live(g);
    let zero = |g: GroupView| g.id == 0nat;
    match system {
        Some(g) => {
            if !has_id(groups, 0) {
                let head = if is_live(g) {
                    seq![g]
                } else {
                    Seq::<GroupView>::empty()
                };
                groups.lemma_filter_prepend(g, live);
                assert(listing(groups, system) == head + visible(groups));
                Seq::filter_distributes_over_add(head, visible(groups), zero);
                assert forall|i: int| 0 <= i < visible(groups).len() implies !zero(
                    #[trigger] visible(groups)[i],
                ) by {
                    lemma_visible_is_stored(groups, i);
                }
                assert(visible(groups).all(|x: GroupView| !zero(x)));
                visible(groups).lemma_all_neg_filter_empty(zero);
                reveal_with_fuel(Seq::filter, 2);
                if is_live(g) {
                    assert(head.drop_last() =~= Seq::<GroupView>::empty());
                }
            }
        },
        None => {},
    }
}

/// Where the visible part of the stored list holds at most one record with
/// id 0, so does every listing: asking for the system group never adds a
/// second one.
pub proof fn law_listing_at_most_one_zero(groups: Seq<GroupView>, system: Option<GroupView>)
    requires
        count_id(visible(groups), 0) <= 1,
    ensures
        count_id(listing(groups, system), 0) <= 1,
{
    law_listing_zero_count(groups, system);
}

/// Adding a group and then listing gives the earlier listing with exactly
/// one record more, at its end: the new group, active, not deleted, under an
/// id that no stored record carried.
pub proof fn law_add_then_list(
    groups: Seq<GroupView>,
    name: Seq<char>,
    uuid: Uuid,
    now: int,
    system: Option<GroupView>,
)
    ensures
        !has_id(groups, next_id(groups)),
        created(name, next_id(groups), uuid, now).status == Status::ON,
        !created(name, next_id(groups), uuid, now).is_delete,
        listing(groups.push(created(name, next_id(groups), uuid, now)), system) == listing(
            groups,
            system,
        ).push(created(name, next_id(groups), uuid, now)),
{
    let live = |g: GroupView| is_live(g);
    let added = created(name, next_id(groups), uuid, now);
    let after = groups.push(added);
    law_next_id_is_unused(groups);
    if has_id(after, 0) {
        let k = choose|k: int| 0 <= k < after.len() && (#[trigger] after[k]).id == 0;
        assert(k < groups.len());
        assert(groups[k].id == 0);
    }
    if has_id(groups, 0) {
        let k = choose|k: int| 0 <= k < groups.len() && (#[trigger] groups[k]).id == 0;
        assert(after[k].id == 0);
    }
    assert(with_system(after, system) =~= with_system(groups, system).push(added));
    with_system(groups, system).lemma_filter_push(added, live);
}

/// A soft delete hides every stored record that carries the id, and where no
/// record carries it the stored list is left exactly as it was.
pub proof fn law_soft_delete_hides(groups: Seq<GroupView>, id: nat, now: int)
    ensures
        forall|i: int|
            0 <= i < visible(with_deleted(groups, id, now)).len() ==> (#[trigger] visible(
                with_deleted(groups, id, now),
            )[i]).id != id,
        !has_id(groups, id) ==> with_deleted(groups, id, now) == groups,
{
    let after = with_deleted(groups, id, now);
    assert forall|i: int| 0 <= i < visible(after).len() implies (#[trigger] visible(
        after,
    )[i]).id != id by {
        lemma_visible_all_live(after);
        lemma_visible_is_stored(after, i);
        let k = choose|k: int| 0 <= k < after.len() && after[k] == visible(after)[i];
        assert(!after[k].is_delete);
    }
    if !has_id(groups, id) {
        assert forall|i: int| 0 <= i < groups.len() implies after[i] == groups[i] by {
            assert(groups[i].id != id);
        }
        assert(after =~= groups);
    }
}

/// A soft delete is idempotent: a second one, at whatever time, leaves every
/// listing as the first one left it.
pub proof fn law_soft_delete_idempotent(
    groups: Seq<GroupView>,
    id: nat,
    first: int,
    second: int,
    system: Option<GroupView>,
)
    ensures
        listing(with_deleted(with_deleted(groups, id, first), id, second), system) == listing(
            with_deleted(groups, id, first),
            system,
        ),
{
    let once = with_deleted(groups, id, first);
    let twice = with_deleted(once, id, second);
    if has_id(once, 0) {
        let k = choose|k: int| 0 <= k < once.len() && (#[trigger] once[k]).id == 0;
        assert(twice[k].id == 0);
    }
    if has_id(twice, 0) {
        let k = choose|k: int| 0 <= k < twice.len() && (#[trigger] twice[k]).id == 0;
        assert(once[k].id == 0);
    }
    lemma_visible_agrees(with_system(once, system), with_system(twice, system));
}

/// Switching a group off and then on again, the clock moving forward from
/// one call to the next, leaves it on with a later time after each call; no
/// other record and no other field is touched. Where no record carries the
/// id, neither call changes anything.
pub proof fn law_status_off_then_on(groups: Seq<GroupView>, id: nat, t_off: int, t_on: int)
    requires
        has_id(groups, id) ==> groups[first_match(groups, id)].update_time < t_off,
        t_off < t_on,
    ensures
        ({
            let i = first_match(groups, id);
            let off = with_status(groups, id, Status::OFF, t_off);
            let on = with_status(off, id, Status::ON, t_on);
            if has_id(groups, id) {
                &&& is_first_match(groups, id, i)
                &&& off[i].status == Status::OFF
                &&& on[i].status == Status::ON
                &&& groups[i].update_time < off[i].update_time < on[i].update_time
                &&& on == groups.update(i, status_set(groups[i], Status::ON, t_on))
            } else {
                off == groups && on == groups
            }
        }),
{
    if has_id(groups, id) {
        lemma_first_match(groups, id);
        let i = first_match(groups, id);
        let off = with_status(groups, id, Status::OFF, t_off);
        assert(is_first_match(off, id, i));
        lemma_first_match(off, id);
        let on = with_status(off, id, Status::ON, t_on);
        assert(on =~= groups.update(i, status_set(groups[i], Status::ON, t_on)));
    }
}

/// Setting a status and soft-deleting change no id, move no record and drop
/// none, and never bring a soft-deleted record back: a list with unique ids
/// keeps them, and what was deleted stays deleted.
pub proof fn law_mutations_keep_records(
    groups: Seq<GroupView>,
    id: nat,
    status: Status,
    now: int,
)
    ensures
        with_status(groups, id, status, now).len() == groups.len(),
        with_deleted(groups, id, now).len() == groups.len(),
        forall|i: int|
            0 <= i < groups.len() ==> {
                &&& (#[trigger] with_status(groups, id, status, now)[i]).id == groups[i].id
                &&& with_status(groups, id, status, now)[i].is_delete == groups[i].is_delete
            },
        forall|i: int|
            0 <= i < groups.len() ==> {
                &&& (#[trigger] with_deleted(groups, id, now)[i]).id == groups[i].id
                &&& groups[i].is_delete ==> with_deleted(groups, id, now)[i].is_delete
            },
        unique_ids(groups) ==> unique_ids(with_status(groups, id, status, now)),
        unique_ids(groups) ==> unique_ids(with_deleted(groups, id, now)),
{
    if has_id(groups, id) {
        lemma_first_match(groups, id);
    }
    let set = with_status(groups, id, status, now);
    let gone = with_deleted(groups, id, now);
    assert forall|i: int| 0 <= i < groups.len() implies (#[trigger] set[i]).id == groups[i].id
        && set[i].is_delete == groups[i].is_delete by {}
    if unique_ids(groups) {
        assert forall|i: int, j: int| 0 <= i < j < set.len() implies (#[trigger] set[i]).id != (
        #[trigger] set[j]).id by {
            assert(groups[i].id != groups[j].id);
        }
        assert forall|i: int, j: int| 0 <= i < j < gone.len() implies (#[trigger] gone[i]).id != (
        #[trigger] gone[j]).id by {
            assert(groups[i].id != groups[j].id);
        }
    }
}

/// A list with unique ids keeps them when a group is added under the
/// generated id.
pub proof fn law_add_keeps_ids_unique(groups: Seq<GroupView>, name: Seq<char>, uuid: Uuid, now: int)
    requires
        unique_ids(groups),
    ensures
        unique_ids(groups.push(created(name, next_id(groups), uuid, now))),
{
    let after = groups.push(created(name, next_id(groups), uuid, now));
    law_next_id_is_unused(groups);
    assert forall|i: int, j: int| 0 <= i < j < after.len() implies (#[trigger] after[i]).id != (
    #[trigger] after[j]).id by {
        assert(after[i] == groups[i]);
        if j < groups.len() {
            assert(after[j] == groups[j]);
        }
    }
}

/// In a list with unique ids a soft delete marks exactly one record, the
/// first and only one that carries the id: there, setting a status and
/// soft-deleting pick the same record.
pub proof fn law_unique_ids_single_delete(groups: Seq<GroupView>, id: nat, now: int)
    requires
        unique_ids(groups),
        has_id(groups, id),
    ensures
        is_first_match(groups, id, first_match(groups, id)),
        with_deleted(groups, id, now) == groups.update(
            first_match(groups, id),
            deleted_at(groups[first_match(groups, id)], now),
        ),
{
    lemma_first_match(groups, id);
    let i = first_match(groups, id);
    let after = with_deleted(groups, id, now);
    let marked = groups.update(i, deleted_at(groups[i], now));
    assert forall|k: int| 0 <= k < groups.len() implies after[k] == marked[k] by {
        if k != i {
            if k < i {
                assert(groups[k].id != groups[i].id);
            } else {
                assert(groups[i].id != groups[k].id);
            }
        }
    }
    assert(after =~= marked);
}

} // verus!

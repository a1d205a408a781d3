//! The registry's operations on a loaded list of groups.
//!
//! Each operation works on the whole stored list, soft-deleted records
//! and all. What reads the clock or draws a random identifier stands beside a
//! function that takes the time or the identifier as an argument and says
//! exactly what the list becomes.

use vstd::prelude::*;
use uuid::Uuid;
use crate::trusted::current_timestamp;
use crate::group::{Group, GroupView, Status, list_view, lemma_list_view_push};
use crate::model::{
    SYSTEM_GROUP_NAME, created, has_id, is_first_match, is_live, listing, max_id, next_id,
    system_group, visible, with_deleted, with_status,
};
use crate::laws::{lemma_max_id_bounds, lemma_visible_all_live};

verus! {

/// The position of the first group of `groups` that carries `id`.
pub fn find_id(groups: &Vec<Group>, id: usize) -> (at: Option<usize>)
    ensures
        match at {
            Some(i) => is_first_match(list_view(groups@), id as nat, i as int),
            None => !has_id(list_view(groups@), id as nat),
        },
{
    let mut i: usize = 0;
    while i < groups.len()
        invariant
            i <= groups.len(),
            forall|j: int| 0 <= j < i ==> (#[trigger] list_view(groups@)[j]).id != id,
        decreases groups.len() - i,
    {
        if groups[i].id == id {
            return Some(i);
        }
        i += 1;
    }
    None
}

/// Whether a listing of `groups` has to be given the system group: it was
/// asked for, and no stored record, deleted or not, claims id 0.
pub fn needs_system_group(groups: &Vec<Group>, need_system: bool) -> (needed: bool)
    ensures
        needed == (need_system && !has_id(list_view(groups@), 0)),
{
    need_system && find_id(groups, 0).is_none()
}

/// The system group with the identifier `uuid`, for a hosts file last changed
/// at `update_time`.
pub fn system_group_with(uuid: Uuid, update_time: i64) -> (g: Group)
    ensures
        g@ == system_group(uuid, update_time as int),
{
    Group {
        name: SYSTEM_GROUP_NAME.to_owned(),
        id: 0,
        uuid: uuid,
        status: Status::ON,
        is_delete: false,
        update_time: update_time,
    }
}

/// The system group under a freshly drawn identifier, for a hosts file last
/// changed at `update_time`. It is made anew for each listing and never
/// stored.
pub fn get_system_group(update_time: i64) -> (g: Group)
    ensures
        g@ == system_group(g.uuid, update_time as int),
{
    system_group_with(Uuid::new_v4(), update_time)
}

/// The groups of `groups` that are not soft-deleted, in order.
pub fn retain_visible(groups: Vec<Group>) -> (kept: Vec<Group>)
    ensures
        list_view(kept@) == visible(list_view(groups@)),
{
    let mut kept: Vec<Group> = Vec::new();
    let ghost all = groups@;
    for g in it: groups
        invariant
            it.seq() == all,
            list_view(kept@) == visible(list_view(all.take(it.index() as int))),
    {
        proof {
            let i = it.index() as int;
            assert(all.take(i + 1) =~= all.take(i).push(g));
            lemma_list_view_push(all.take(i), g);
            list_view(all.take(i)).lemma_filter_push(g@, |g: GroupView| is_live(g));
            if !g.is_delete {
                lemma_list_view_push(kept@, g);
            }
        }
        if !g.is_delete {
            kept.push(g);
        }
    }
    proof {
        assert(all.take(all.len() as int) =~= all);
    }
    kept
}

/// The listing of the stored `groups`: where `system` is offered and no
/// stored record claims id 0 it is put first; soft-deleted records
/// are left out; the order of the rest is kept.
pub fn list_groups(groups: Vec<Group>, system: Option<Group>) -> (listed: Vec<Group>)
    ensures
        list_view(listed@) == listing(
            list_view(groups@),
            match system {
                Some(g) => Some(g@),
                None => None,
            },
        ),
        forall|i: int| 0 <= i < listed@.len() ==> !(#[trigger] listed@[i]).is_delete,
{
    let ghost stored = list_view(groups@);
    let mut groups = groups;
    match system {
        Some(g) => {
            if find_id(&groups, 0).is_none() {
                groups.insert(0, g);
                assert(list_view(groups@) =~= seq![g@] + stored);
            }
        },
        None => {},
    }
    let listed = retain_visible(groups);
    proof {
        lemma_visible_all_live(list_view(groups@));
        assert forall|i: int| 0 <= i < listed@.len() implies !(#[trigger] listed@[i]).is_delete by {
            assert(list_view(listed@)[i] == listed@[i]@);
        }
    }
    listed
}

/// The listing of the stored `groups`. With `Some(t)` the caller asks for
/// the system group, `t` being the time at which the operating system's hosts
/// file last changed: the group is made, under a fresh identifier, only where
/// no stored record claims id 0. With `None` no system group is added.
pub fn read_conf(groups: Vec<Group>, hosts_update_time: Option<i64>) -> (listed: Vec<Group>)
    ensures
        match hosts_update_time {
            Some(t) => exists|uuid: Uuid|
                list_view(listed@) == listing(
                    list_view(groups@),
                    Some(#[trigger] system_group(uuid, t as int)),
                ),
            None => list_view(listed@) == listing(list_view(groups@), None),
        },
        forall|i: int| 0 <= i < listed@.len() ==> !(#[trigger] listed@[i]).is_delete,
{
    match hosts_update_time {
        Some(t) => {
            if needs_system_group(&groups, true) {
                let system = get_system_group(t);
                let ghost shown = system_group(system.uuid, t as int);
                let listed = list_groups(groups, Some(system));
                assert(list_view(listed@) == listing(list_view(groups@), Some(shown)));
                listed
            } else {
                let ghost shown = system_group(arbitrary(), t as int);
                let listed = list_groups(groups, None);
                assert(list_view(listed@) == listing(list_view(groups@), Some(shown)));
                listed
            }
        },
        None => list_groups(groups, None),
    }
}

/// Sets, at time `now`, the status of the first group that carries `id`.
/// Where no group carries `id` the list is left as it is.
pub fn set_status_at(groups: &mut Vec<Group>, id: usize, status: Status, now: i64)
    ensures
        final(groups)@.len() == old(groups)@.len(),
        list_view(final(groups)@) == with_status(
            list_view(old(groups)@),
            id as nat,
            status,
            now as int,
        ),
{
    match find_id(groups, id) {
        Some(i) => {
            groups[i].status = status;
            groups[i].update_time = now;
            assert(list_view(groups@) =~= with_status(
                list_view(old(groups)@),
                id as nat,
                status,
                now as int,
            ));
        },
        None => {},
    }
}

/// Sets the status of the first group that carries `id` and stamps it with
/// the current time. Where no group carries `id` the list is left as it is.
pub fn update_group_status(groups: &mut Vec<Group>, id: usize, status: Status)
    ensures
        final(groups)@.len() == old(groups)@.len(),
        exists|now: i64|
            list_view(final(groups)@) == #[trigger] with_status(
                list_view(old(groups)@),
                id as nat,
                status,
                now as int,
            ),
{
    let now = current_timestamp();
    set_status_at(groups, id, status, now);
}

/// Soft-deletes, at time `now`, every group of `groups` that carries `id`.
/// Nothing leaves the list.
pub fn mark_deleted_at(groups: &mut Vec<Group>, id: usize, now: i64)
    ensures
        final(groups)@.len() == old(groups)@.len(),
        list_view(final(groups)@) == with_deleted(list_view(old(groups)@), id as nat, now as int),
{
    let mut i: usize = 0;
    while i < groups.len()
        invariant
            i <= groups.len(),
            groups.len() == old(groups).len(),
            forall|j: int|
                0 <= j < i ==> (#[trigger] groups@[j])@ == with_deleted(
                    list_view(old(groups)@),
                    id as nat,
                    now as int,
                )[j],
            forall|j: int| i <= j < groups.len() ==> #[trigger] groups@[j] == old(groups)@[j],
        decreases groups.len() - i,
    {
        if groups[i].id == id {
            groups[i].is_delete = true;
            groups[i].update_time = now;
        }
        i += 1;
    }
    assert(list_view(groups@) =~= with_deleted(list_view(old(groups)@), id as nat, now as int));
}

/// Soft-deletes every group that carries `id` and stamps each with the
/// current time. Where no group carries `id` the list is left as it is.
pub fn del_single_group(groups: &mut Vec<Group>, id: usize)
    ensures
        final(groups)@.len() == old(groups)@.len(),
        exists|now: i64|
            list_view(final(groups)@) == #[trigger] with_deleted(
                list_view(old(groups)@),
                id as nat,
                now as int,
            ),
{
    let now = current_timestamp();
    mark_deleted_at(groups, id, now);
}

/// The id for the next group: one more than the largest id among `groups`,
/// soft-deleted records counted, so that no id is ever used twice. `None`
/// where the largest id is the largest number the machine holds.
pub fn generate_id(groups: &Vec<Group>) -> (id: Option<usize>)
    ensures
        match id {
            Some(n) => n == next_id(list_view(groups@)) && n >= 1 && !has_id(
                list_view(groups@),
                n as nat,
            ),
            None => next_id(list_view(groups@)) > usize::MAX,
        },
{
    let mut largest: usize = 0;
    let mut i: usize = 0;
    while i < groups.len()
        invariant
            i <= groups.len(),
            largest == max_id(list_view(groups@).take(i as int)),
        decreases groups.len() - i,
    {
        proof {
            let views = list_view(groups@);
            assert(views.take(i + 1).drop_last() =~= views.take(i as int));
        }
        if groups[i].id > largest {
            largest = groups[i].id;
        }
        i += 1;
    }
    proof {
        let views = list_view(groups@);
        assert(views.take(i as int) =~= views);
        lemma_max_id_bounds(views);
    }
    if largest == usize::MAX {
        None
    } else {
        Some(largest + 1)
    }
}

/// Appends a new group named `name`, with the identifier `uuid`, created at
/// time `now`, under the next free id, and returns that id. `None`, with the
/// list unchanged, where no id is left.
pub fn append_group(groups: &mut Vec<Group>, name: String, uuid: Uuid, now: i64) -> (id: Option<
    usize,
>)
    ensures
        match id {
            Some(n) => n == next_id(list_view(old(groups)@)) && list_view(final(groups)@)
                == list_view(old(groups)@).push(created(name@, n as nat, uuid, now as int)),
            None => next_id(list_view(old(groups)@)) > usize::MAX && final(groups)@ == old(
                groups,
            )@,
        },
{
    match generate_id(groups) {
        Some(n) => {
            let group = Group {
                name: name,
                id: n,
                uuid: uuid,
                status: Status::ON,
                is_delete: false,
                update_time: now,
            };
            proof {
                lemma_list_view_push(groups@, group);
            }
            groups.push(group);
            Some(n)
        },
        None => None,
    }
}

/// Appends a new group named `name`, under the next free id and a freshly
/// drawn identifier, stamped with the current time. Returns the id and the
/// identifier, for which the caller sets up the group's content before it
/// stores the list. `None`, with the list unchanged, where no id is left.
pub fn add_single_group(groups: &mut Vec<Group>, name: String) -> (added: Option<(usize, Uuid)>)
    ensures
        match added {
            Some((n, uuid)) => n == next_id(list_view(old(groups)@)) && exists|now: i64|
                list_view(final(groups)@) == list_view(old(groups)@).push(
                    #[trigger] created(name@, n as nat, uuid, now as int),
                ),
            None => next_id(list_view(old(groups)@)) > usize::MAX && final(groups)@ == old(
                groups,
            )@,
        },
{
    let uuid = Uuid::new_v4();
    let now = current_timestamp();
    let added = match append_group(groups, name, uuid, now) {
        Some(n) => Some((n, uuid)),
        None => None,
    };
    assert(match added {
        Some((n, uuid)) => list_view(groups@) == list_view(old(groups)@).push(
            created(name@, n as nat, uuid, now as int),
        ),
        None => true,
    });
    added
}

} // verus!

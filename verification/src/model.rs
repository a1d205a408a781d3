//! What the registry's operations compute, over plain sequences of group views.

use vstd::prelude::*;
use uuid::Uuid;
use crate::group::{GroupView, Status};

verus! {

/// The label of the synthetic system group.
pub const SYSTEM_GROUP_NAME: &'static str = "system";

/// Some record of `groups` carries `id`.
pub open spec fn has_id(groups: Seq<GroupView>, id: nat) -> bool {
    exists|i: int| 0 <= i < groups.len() && (#[trigger] groups[i]).id == id
}

/// A record that is not soft-deleted.
pub open spec fn is_live(g: GroupView) -> bool {
    !g.is_delete
}

/// The records of `groups` that are not soft-deleted, in their stored order.
pub open spec fn visible(groups: Seq<GroupView>) -> Seq<GroupView> {
    groups.filter(|g: GroupView| is_live(g))
}

/// `groups` with the system group put first, where one is offered and no
/// stored record, deleted or not, already claims id 0.
pub open spec fn with_system(groups: Seq<GroupView>, system: Option<GroupView>) -> Seq<GroupView> {
    match system {
        Some(g) => if has_id(groups, 0) {
            groups
        } else {
            seq![g] + groups
        },
        None => groups,
    }
}

/// The listing handed to callers: the system group first where it applies,
/// soft-deleted records left out.
pub open spec fn listing(groups: Seq<GroupView>, system: Option<GroupView>) -> Seq<GroupView> {
    visible(with_system(groups, system))
}

/// `g` marked as soft-deleted at time `now`.
pub open spec fn deleted_at(g: GroupView, now: int) -> GroupView {
    GroupView { is_delete: true, update_time: now, ..g }
}

/// `groups` after a soft delete of `id` at time `now`: every record that
/// carries `id` is marked, every other record is untouched.
pub open spec fn with_deleted(groups: Seq<GroupView>, id: nat, now: int) -> Seq<GroupView> {
    Seq::new(
        groups.len(),
        |i: int|
            if groups[i].id == id {
                deleted_at(groups[i], now)
            } else {
                groups[i]
            },
    )
}

/// `i` is the position of the first record of `groups` that carries `id`.
pub open spec fn is_first_match(groups: Seq<GroupView>, id: nat, i: int) -> bool {
    &&& 0 <= i < groups.len()
    &&& groups[i].id == id
    &&& forall|j: int| 0 <= j < i ==> (#[trigger] groups[j]).id != id
}

/// The position of the first record that carries `id`, where there is one.
pub open spec fn first_match(groups: Seq<GroupView>, id: nat) -> int {
    choose|i: int| is_first_match(groups, id, i)
}

/// `g` with its status set to `status` at time `now`.
pub open spec fn status_set(g: GroupView, status: Status, now: int) -> GroupView {
    GroupView { status: status, update_time: now, ..g }
}

/// `groups` after the status of `id` is set at time `now`: the first record
/// that carries `id` is changed, and only that one; where no record carries
/// `id` the list is unchanged.
pub open spec fn with_status(groups: Seq<GroupView>, id: nat, status: Status, now: int) -> Seq<
    GroupView,
> {
    if has_id(groups, id) {
        let i = first_match(groups, id);
        groups.update(i, status_set(groups[i], status, now))
    } else {
        groups
    }
}

/// The largest id among `groups`, soft-deleted records counted; 0 for an
/// empty list.
pub open spec fn max_id(groups: Seq<GroupView>) -> nat
    decreases groups.len(),
{
    if groups.len() == 0 {
        0
    } else {
        let rest = max_id(groups.drop_last());
        if groups.last().id > rest {
            groups.last().id
        } else {
            rest
        }
    }
}

/// The id given to the next group: one more than every id in use, and never
/// the reserved 0.
pub open spec fn next_id(groups: Seq<GroupView>) -> nat {
    max_id(groups) + 1
}

/// A freshly created group: active and not deleted.
pub open spec fn created(name: Seq<char>, id: nat, uuid: Uuid, now: int) -> GroupView {
    GroupView {
        name: name,
        id: id,
        uuid: uuid,
        status: Status::ON,
        is_delete: false,
        update_time: now,
    }
}

/// The name of the synthetic system group.
pub open spec fn system_name() -> Seq<char> {
    SYSTEM_GROUP_NAME@
}

/// The synthetic group that stands for the operating system's own hosts
/// file, last changed at `update_time`.
pub open spec fn system_group(uuid: Uuid, update_time: int) -> GroupView {
    GroupView {
        name: system_name(),
        id: 0,
        uuid: uuid,
        status: Status::ON,
        is_delete: false,
        update_time: update_time,
    }
}

/// How many records of `groups` carry `id`.
pub open spec fn count_id(groups: Seq<GroupView>, id: nat) -> nat {
    groups.filter(|g: GroupView| g.id == id).len()
}

/// No two records of `groups` carry the same id.
pub open spec fn unique_ids(groups: Seq<GroupView>) -> bool {
    forall|i: int, j: int|
        0 <= i < j < groups.len() ==> (#[trigger] groups[i]).id != (#[trigger] groups[j]).id
}

} // verus!

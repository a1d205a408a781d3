//! The group record and its mathematical view.

use vstd::prelude::*;
use uuid::Uuid;

verus! {

/// Whether a group's rules are currently active.
#[derive(Clone, Copy, Debug, PartialEq, Eq, Structural)]
pub enum Status {
    ON,
    OFF,
}

/// One named, identified, versioned group record.
#[derive(Debug, PartialEq, Eq)]
pub struct Group {
    /// The label shown to the user.
    pub name: String,
    /// Local identifier; `0` is reserved for the synthetic system group.
    pub id: usize,
    /// Globally unique identifier, the same through every rename.
    pub uuid: Uuid,
    /// Whether the group's rules are active.
    pub status: Status,
    /// Soft-delete marker: `true` means logically removed, still stored.
    pub is_delete: bool,
    /// Unix seconds of the last mutation.
    pub update_time: i64,
}

/// A group as a plain mathematical value.
pub struct GroupView {
    pub name: Seq<char>,
    pub id: nat,
    pub uuid: Uuid,
    pub status: Status,
    pub is_delete: bool,
    pub update_time: int,
}

impl View for Group {
    type V = GroupView;

    open spec fn view(&self) -> GroupView {
        GroupView {
            name: self.name@,
            id: self.id as nat,
            uuid: self.uuid,
            status: self.status,
            is_delete: self.is_delete,
            update_time: self.update_time as int,
        }
    }
}

/// The views of a list of groups, in order.
pub open spec fn list_view(groups: Seq<Group>) -> Seq<GroupView> {
    Seq::new(groups.len(), |i: int| groups[i]@)
}

/// Viewing a list commutes with appending one group.
pub proof fn lemma_list_view_push(groups: Seq<Group>, g: Group)
    ensures
        list_view(groups.push(g)) == list_view(groups).push(g@),
{
    assert(list_view(groups.push(g)) =~= list_view(groups).push(g@));
}

} // verus!

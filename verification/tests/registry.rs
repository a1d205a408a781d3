use mini_hosts::conf::{
    add_single_group, append_group, del_single_group, find_id, generate_id, get_system_group,
    list_groups, mark_deleted_at, needs_system_group, read_conf, retain_visible, set_status_at,
    system_group_with, update_group_status,
};
use mini_hosts::group::{Group, Status};
use mini_hosts::model::SYSTEM_GROUP_NAME;
use std::time::{SystemTime, UNIX_EPOCH};
use uuid::Uuid;

fn group(id: usize, name: &str, status: Status, is_delete: bool, update_time: i64) -> Group {
    Group {
        name: name.to_string(),
        id,
        uuid: Uuid::from_u128(0x1000 + id as u128),
        status,
        is_delete,
        update_time,
    }
}

fn live(id: usize, name: &str) -> Group {
    group(id, name, Status::ON, false, 100)
}

fn deleted(id: usize, name: &str) -> Group {
    group(id, name, Status::ON, true, 100)
}

fn unix_now() -> i64 {
    SystemTime::now().duration_since(UNIX_EPOCH).unwrap().as_secs() as i64
}

fn ids(groups: &[Group]) -> Vec<usize> {
    groups.iter().map(|g| g.id).collect()
}

#[test]
fn add_then_list_with_system_group() {
    let mut stored = vec![live(1, "A")];
    let added = add_single_group(&mut stored, "B".to_string());
    let (id, uuid) = added.expect("an id is left");
    assert_eq!(id, 2);
    assert_eq!(stored.len(), 2);
    assert_eq!(stored[1].uuid, uuid);

    let listed = read_conf(stored, Some(1_700_000_000));
    assert_eq!(ids(&listed), vec![0, 1, 2]);
    assert_eq!(listed[0].name, "system");
    assert_eq!(listed[0].update_time, 1_700_000_000);
    assert_eq!(listed[1].name, "A");
    assert_eq!(listed[2].name, "B");
    assert_eq!(listed[2].status, Status::ON);
    assert!(!listed[2].is_delete);
}

#[test]
fn soft_delete_hides_but_keeps_the_record() {
    let mut stored = vec![live(1, "A")];
    del_single_group(&mut stored, 1);
    assert_eq!(stored.len(), 1);
    assert_eq!(stored[0].id, 1);
    assert_eq!(stored[0].name, "A");
    assert!(stored[0].is_delete);

    let kept = vec![group(1, "A", Status::ON, true, stored[0].update_time)];
    assert_eq!(stored, kept);
    let listed = read_conf(stored, None);
    assert!(listed.is_empty());
}

#[test]
fn listing_without_system_group_keeps_order() {
    let stored = vec![live(3, "c"), deleted(9, "gone"), live(1, "a"), live(2, "b")];
    let listed = read_conf(stored, None);
    assert_eq!(listed, vec![live(3, "c"), live(1, "a"), live(2, "b")]);
}

#[test]
fn listing_never_shows_deleted_records() {
    let stored = vec![deleted(1, "a"), live(2, "b"), deleted(3, "c")];
    let without = read_conf(stored, None);
    assert!(without.iter().all(|g| !g.is_delete));
    assert_eq!(ids(&without), vec![2]);

    let stored = vec![deleted(1, "a"), live(2, "b"), deleted(3, "c")];
    let with = read_conf(stored, Some(5));
    assert!(with.iter().all(|g| !g.is_delete));
    assert_eq!(ids(&with), vec![0, 2]);
}

#[test]
fn listing_of_empty_store() {
    assert!(read_conf(Vec::new(), None).is_empty());
    let listed = read_conf(Vec::new(), Some(42));
    assert_eq!(listed.len(), 1);
    assert_eq!(listed[0].id, 0);
    assert_eq!(listed[0].update_time, 42);
}

#[test]
fn stored_zero_id_blocks_the_system_group() {
    let stored = vec![live(0, "mine"), live(1, "a")];
    let listed = read_conf(stored, Some(7));
    assert_eq!(listed, vec![live(0, "mine"), live(1, "a")]);
    assert_eq!(listed.iter().filter(|g| g.id == 0).count(), 1);
}

#[test]
fn two_stored_zero_ids_are_both_listed() {
    let stored = vec![live(0, "one"), live(0, "two"), live(1, "a")];
    let listed = read_conf(stored, Some(7));
    assert_eq!(listed, vec![live(0, "one"), live(0, "two"), live(1, "a")]);
}

#[test]
fn deleted_zero_id_blocks_the_system_group_too() {
    let stored = vec![deleted(0, "old"), live(1, "a")];
    let listed = read_conf(stored, Some(7));
    assert_eq!(listed, vec![live(1, "a")]);
}

#[test]
fn system_group_is_listed_once() {
    let stored = vec![live(4, "a"), live(5, "b")];
    let listed = read_conf(stored, Some(7));
    assert_eq!(listed.iter().filter(|g| g.id == 0).count(), 1);
    assert_eq!(listed[0].id, 0);
}

#[test]
fn list_groups_puts_the_offered_group_first() {
    let system = system_group_with(Uuid::from_u128(9), 77);
    let listed = list_groups(vec![live(1, "a"), deleted(2, "b")], Some(system));
    assert_eq!(listed.len(), 2);
    assert_eq!(listed[0], system_group_with(Uuid::from_u128(9), 77));
    assert_eq!(listed[1], live(1, "a"));
}

#[test]
fn list_groups_skips_the_offered_group_when_zero_is_stored() {
    let system = system_group_with(Uuid::from_u128(9), 77);
    let listed = list_groups(vec![live(1, "a"), live(0, "zero")], Some(system));
    assert_eq!(listed, vec![live(1, "a"), live(0, "zero")]);
}

#[test]
fn list_groups_filters_an_offered_group_that_is_deleted() {
    let offered = deleted(0, "ghost");
    let listed = list_groups(vec![live(1, "a")], Some(offered));
    assert_eq!(listed, vec![live(1, "a")]);
}

#[test]
fn retain_visible_drops_only_deleted() {
    let kept = retain_visible(vec![live(1, "a"), deleted(1, "a2"), live(7, "z")]);
    assert_eq!(kept, vec![live(1, "a"), live(7, "z")]);
    assert!(retain_visible(vec![deleted(1, "a")]).is_empty());
    assert!(retain_visible(Vec::new()).is_empty());
}

#[test]
fn system_group_fields() {
    let g = system_group_with(Uuid::from_u128(0xabc), -5);
    assert_eq!(g.id, 0);
    assert_eq!(g.name, "system");
    assert_eq!(g.name, SYSTEM_GROUP_NAME);
    assert_eq!(g.uuid, Uuid::from_u128(0xabc));
    assert_eq!(g.status, Status::ON);
    assert!(!g.is_delete);
    assert_eq!(g.update_time, -5);
}

#[test]
fn fresh_system_groups_differ_in_uuid_only() {
    let a = get_system_group(10);
    let b = get_system_group(10);
    assert_eq!(a.id, 0);
    assert_eq!(a.name, "system");
    assert_eq!(a.status, Status::ON);
    assert!(!a.is_delete);
    assert_eq!(a.update_time, 10);
    assert_ne!(a.uuid, b.uuid);
    assert_eq!(a.uuid.get_version_num(), 4);
    assert_eq!(system_group_with(a.uuid, 10), a);
}

#[test]
fn needs_system_group_cases() {
    let stored = vec![live(1, "a")];
    assert!(needs_system_group(&stored, true));
    assert!(!needs_system_group(&stored, false));
    let with_zero = vec![live(1, "a"), deleted(0, "z")];
    assert!(!needs_system_group(&with_zero, true));
    assert!(!needs_system_group(&with_zero, false));
    assert!(needs_system_group(&Vec::new(), true));
}

#[test]
fn find_id_gives_the_first_position() {
    let stored = vec![live(5, "a"), live(3, "b"), live(5, "c")];
    assert_eq!(find_id(&stored, 5), Some(0));
    assert_eq!(find_id(&stored, 3), Some(1));
    assert_eq!(find_id(&stored, 4), None);
    assert_eq!(find_id(&Vec::new(), 0), None);
}

#[test]
fn generate_id_is_one_past_the_largest() {
    assert_eq!(generate_id(&Vec::new()), Some(1));
    assert_eq!(generate_id(&vec![live(1, "a")]), Some(2));
    assert_eq!(generate_id(&vec![live(3, "a"), live(1, "b")]), Some(4));
    assert_eq!(generate_id(&vec![live(0, "zero")]), Some(1));
}

#[test]
fn generate_id_counts_deleted_records() {
    let stored = vec![live(1, "a"), deleted(8, "gone"), live(2, "b")];
    assert_eq!(generate_id(&stored), Some(9));
}

#[test]
fn generate_id_fails_when_ids_run_out() {
    let stored = vec![live(1, "a"), live(usize::MAX, "last")];
    assert_eq!(generate_id(&stored), None);
    let almost = vec![live(usize::MAX - 1, "a")];
    assert_eq!(generate_id(&almost), Some(usize::MAX));
}

#[test]
fn append_group_builds_the_record() {
    let mut stored = vec![live(1, "a"), deleted(4, "d")];
    let id = append_group(&mut stored, "new".to_string(), Uuid::from_u128(77), 1234);
    assert_eq!(id, Some(5));
    assert_eq!(stored.len(), 3);
    assert_eq!(stored[0], live(1, "a"));
    assert_eq!(stored[1], deleted(4, "d"));
    assert_eq!(
        stored[2],
        Group {
            name: "new".to_string(),
            id: 5,
            uuid: Uuid::from_u128(77),
            status: Status::ON,
            is_delete: false,
            update_time: 1234,
        }
    );
}

#[test]
fn append_group_leaves_the_list_when_ids_run_out() {
    let mut stored = vec![live(usize::MAX, "last")];
    let id = append_group(&mut stored, "new".to_string(), Uuid::from_u128(77), 1234);
    assert_eq!(id, None);
    assert_eq!(stored, vec![live(usize::MAX, "last")]);
    assert_eq!(add_single_group(&mut stored, "new".to_string()), None);
    assert_eq!(stored, vec![live(usize::MAX, "last")]);
}

#[test]
fn add_to_empty_store_starts_at_one() {
    let mut stored = Vec::new();
    let before = unix_now();
    let (id, uuid) = add_single_group(&mut stored, "first".to_string()).unwrap();
    let after = unix_now();
    assert_eq!(id, 1);
    assert_eq!(stored.len(), 1);
    assert_eq!(stored[0].name, "first");
    assert_eq!(stored[0].id, 1);
    assert_eq!(stored[0].uuid, uuid);
    assert_eq!(uuid.get_version_num(), 4);
    assert_eq!(stored[0].status, Status::ON);
    assert!(!stored[0].is_delete);
    assert!(before <= stored[0].update_time && stored[0].update_time <= after);
}

#[test]
fn add_does_not_reuse_a_deleted_id() {
    let mut stored = vec![live(1, "a"), live(2, "b")];
    del_single_group(&mut stored, 2);
    let (id, _) = add_single_group(&mut stored, "c".to_string()).unwrap();
    assert_eq!(id, 3);
    assert_eq!(ids(&stored), vec![1, 2, 3]);
    let listed = read_conf(stored, Some(0));
    assert_eq!(ids(&listed), vec![0, 1, 3]);
}

#[test]
fn two_adds_draw_different_uuids() {
    let mut stored = Vec::new();
    let (a, ua) = add_single_group(&mut stored, "a".to_string()).unwrap();
    let (b, ub) = add_single_group(&mut stored, "b".to_string()).unwrap();
    assert_eq!((a, b), (1, 2));
    assert_ne!(ua, ub);
}

#[test]
fn set_status_changes_the_first_match_only() {
    let mut stored = vec![live(1, "a"), live(2, "b"), live(2, "b2"), deleted(3, "c")];
    set_status_at(&mut stored, 2, Status::OFF, 555);
    assert_eq!(
        stored,
        vec![
            live(1, "a"),
            group(2, "b", Status::OFF, false, 555),
            live(2, "b2"),
            deleted(3, "c"),
        ]
    );
}

#[test]
fn set_status_on_missing_id_changes_nothing() {
    let mut stored = vec![live(1, "a"), deleted(3, "c")];
    set_status_at(&mut stored, 2, Status::OFF, 555);
    assert_eq!(stored, vec![live(1, "a"), deleted(3, "c")]);
    update_group_status(&mut stored, 9, Status::OFF);
    assert_eq!(stored, vec![live(1, "a"), deleted(3, "c")]);
    let mut empty: Vec<Group> = Vec::new();
    update_group_status(&mut empty, 1, Status::ON);
    assert!(empty.is_empty());
}

#[test]
fn set_status_reaches_deleted_records() {
    let mut stored = vec![deleted(3, "c")];
    set_status_at(&mut stored, 3, Status::OFF, 9);
    assert_eq!(stored, vec![group(3, "c", Status::OFF, true, 9)]);
}

#[test]
fn status_off_then_on_moves_the_time_forward() {
    let mut stored = vec![live(1, "a"), live(2, "b")];
    set_status_at(&mut stored, 2, Status::OFF, 101);
    assert_eq!(stored[1].status, Status::OFF);
    assert_eq!(stored[1].update_time, 101);
    set_status_at(&mut stored, 2, Status::ON, 102);
    assert_eq!(stored, vec![live(1, "a"), group(2, "b", Status::ON, false, 102)]);
}

#[test]
fn update_group_status_stamps_the_current_time() {
    let mut stored = vec![live(1, "a"), live(2, "b")];
    let before = unix_now();
    update_group_status(&mut stored, 1, Status::OFF);
    let after = unix_now();
    assert_eq!(stored[0].status, Status::OFF);
    assert!(before <= stored[0].update_time && stored[0].update_time <= after);
    assert_eq!(stored[0].id, 1);
    assert_eq!(stored[0].name, "a");
    assert_eq!(stored[1], live(2, "b"));
    update_group_status(&mut stored, 1, Status::ON);
    assert_eq!(stored[0].status, Status::ON);
    assert!(stored[0].update_time >= before);
}

#[test]
fn soft_delete_marks_every_match() {
    let mut stored = vec![live(1, "a"), live(2, "b"), group(2, "b2", Status::OFF, false, 3)];
    mark_deleted_at(&mut stored, 2, 900);
    assert_eq!(
        stored,
        vec![
            live(1, "a"),
            group(2, "b", Status::ON, true, 900),
            group(2, "b2", Status::OFF, true, 900),
        ]
    );
}

#[test]
fn soft_delete_of_missing_id_changes_nothing() {
    let mut stored = vec![live(1, "a"), deleted(3, "c")];
    mark_deleted_at(&mut stored, 2, 900);
    assert_eq!(stored, vec![live(1, "a"), deleted(3, "c")]);
    del_single_group(&mut stored, 7);
    assert_eq!(stored, vec![live(1, "a"), deleted(3, "c")]);
    let mut empty: Vec<Group> = Vec::new();
    del_single_group(&mut empty, 0);
    assert!(empty.is_empty());
}

#[test]
fn soft_delete_twice_lists_the_same() {
    let mut once = vec![live(1, "a"), live(2, "b"), live(3, "c")];
    mark_deleted_at(&mut once, 2, 900);
    let mut twice = vec![live(1, "a"), live(2, "b"), live(3, "c")];
    mark_deleted_at(&mut twice, 2, 900);
    mark_deleted_at(&mut twice, 2, 950);
    assert_eq!(twice[1].update_time, 950);
    assert!(twice[1].is_delete);
    let system = system_group_with(Uuid::from_u128(1), 5);
    let again = system_group_with(Uuid::from_u128(1), 5);
    assert_eq!(list_groups(once, Some(system)), list_groups(twice, Some(again)));
}

#[test]
fn del_single_group_stamps_the_current_time() {
    let mut stored = vec![live(1, "a"), live(2, "b")];
    let before = unix_now();
    del_single_group(&mut stored, 2);
    let after = unix_now();
    assert!(stored[1].is_delete);
    assert!(before <= stored[1].update_time && stored[1].update_time <= after);
    assert_eq!(stored[0], live(1, "a"));
    del_single_group(&mut stored, 2);
    assert!(stored[1].is_delete);
    assert_eq!(ids(&read_conf(stored, None)), vec![1]);
}

#[test]
fn status_values_are_distinct() {
    assert_ne!(Status::ON, Status::OFF);
    let s = Status::OFF;
    let t = s;
    assert_eq!(s, t);
}

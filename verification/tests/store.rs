use netconfig_store::Model;
use netconfig_store::Store;
use netconfig_store::StoreError;

fn store_with_user(user_id: i32) -> Store {
    let mut s = Store::new();
    assert!(s.add_user(user_id));
    s
}

fn assert_same_fields(a: &Model, b: &Model) {
    assert_eq!(a.id, b.id);
    assert_eq!(a.user_id, b.user_id);
    assert_eq!(a.network_instance_id, b.network_instance_id);
    assert_eq!(a.network_config, b.network_config);
    assert_eq!(a.disabled, b.disabled);
    assert_eq!(a.create_time, b.create_time);
    assert_eq!(a.update_time, b.update_time);
}

#[test]
fn create_then_get_by_id_returns_identical_fields() {
    let mut s = store_with_user(7);
    let rec = s
        .create(7, "net-a".to_string(), "payload".to_string(), true, 1_000)
        .unwrap();
    assert_eq!(rec.user_id, 7);
    assert_eq!(rec.network_instance_id, "net-a");
    assert_eq!(rec.network_config, "payload");
    assert!(rec.disabled);
    assert_eq!(rec.create_time, 1_000);
    assert_eq!(rec.update_time, 1_000);
    let got = s.get_by_id(rec.id).unwrap();
    assert_same_fields(&rec, &got);
}

#[test]
fn create_assigns_fresh_sequential_ids() {
    let mut s = store_with_user(1);
    let a = s.create(1, "n1".to_string(), "c".to_string(), false, 5).unwrap();
    let b = s.create(1, "n2".to_string(), "c".to_string(), false, 5).unwrap();
    assert_eq!(a.id, 1);
    assert_eq!(b.id, 2);
}

#[test]
fn duplicate_network_instance_id_fails_even_across_users() {
    let mut s = store_with_user(1);
    assert!(s.add_user(2));
    let first = s
        .create(1, "shared".to_string(), "cfg1".to_string(), false, 10)
        .unwrap();
    let second = s.create(2, "shared".to_string(), "cfg2".to_string(), true, 20);
    assert_eq!(second.unwrap_err(), StoreError::UniqueConstraintViolation);
    // the first record remains unaffected
    let still = s.get_by_id(first.id).unwrap();
    assert_same_fields(&first, &still);
}

#[test]
fn create_with_unknown_user_fails_and_persists_nothing() {
    let mut s = store_with_user(1);
    let r = s.create(99, "net-x".to_string(), "cfg".to_string(), false, 10);
    assert_eq!(r.unwrap_err(), StoreError::ForeignKeyViolation);
    assert_eq!(
        s.get_by_network_instance_id(&"net-x".to_string()).unwrap_err(),
        StoreError::NotFound
    );
    assert!(s.list_by_user(99).is_empty());
}

#[test]
fn get_by_network_instance_id_uses_the_unique_key() {
    let mut s = store_with_user(3);
    let rec = s
        .create(3, "net-k".to_string(), "cfg".to_string(), false, 10)
        .unwrap();
    let got = s.get_by_network_instance_id(&"net-k".to_string()).unwrap();
    assert_same_fields(&rec, &got);
    assert_eq!(
        s.get_by_network_instance_id(&"absent".to_string()).unwrap_err(),
        StoreError::NotFound
    );
}

#[test]
fn list_by_user_returns_only_that_users_rows_in_order() {
    let mut s = store_with_user(1);
    assert!(s.add_user(2));
    let a = s.create(1, "n1".to_string(), "c1".to_string(), false, 1).unwrap();
    let b = s.create(2, "n2".to_string(), "c2".to_string(), false, 2).unwrap();
    let c = s.create(1, "n3".to_string(), "c3".to_string(), true, 3).unwrap();
    let ones = s.list_by_user(1);
    assert_eq!(ones.len(), 2);
    assert_same_fields(&ones[0], &a);
    assert_same_fields(&ones[1], &c);
    let twos = s.list_by_user(2);
    assert_eq!(twos.len(), 1);
    assert_same_fields(&twos[0], &b);
    assert!(s.list_by_user(3).is_empty());
}

#[test]
fn update_disabled_advances_update_time_and_keeps_identity() {
    let mut s = store_with_user(5);
    let rec = s
        .create(5, "net-u".to_string(), "cfg".to_string(), false, 100)
        .unwrap();
    let upd = s.update(rec.id, None, Some(true), 250).unwrap();
    assert!(upd.disabled);
    assert!(upd.update_time >= rec.update_time);
    assert_eq!(upd.update_time, 250);
    assert_eq!(upd.create_time, rec.create_time);
    assert_eq!(upd.user_id, rec.user_id);
    assert_eq!(upd.network_instance_id, rec.network_instance_id);
    assert_eq!(upd.network_config, rec.network_config);
    let got = s.get_by_id(rec.id).unwrap();
    assert_same_fields(&upd, &got);
}

#[test]
fn update_network_config_replaces_the_payload() {
    let mut s = store_with_user(5);
    let rec = s
        .create(5, "net-u".to_string(), "old".to_string(), false, 100)
        .unwrap();
    let upd = s
        .update(rec.id, Some("new".to_string()), None, 150)
        .unwrap();
    assert_eq!(upd.network_config, "new");
    assert!(!upd.disabled);
    assert_eq!(upd.update_time, 150);
}

#[test]
fn update_time_never_goes_backwards() {
    let mut s = store_with_user(5);
    let rec = s
        .create(5, "net-u".to_string(), "cfg".to_string(), false, 100)
        .unwrap();
    // the clock regressed: the stored update_time stays put
    let upd = s.update(rec.id, None, Some(true), 40).unwrap();
    assert_eq!(upd.update_time, 100);
    assert!(upd.update_time >= rec.update_time);
}

#[test]
fn update_unknown_id_fails_with_not_found() {
    let mut s = store_with_user(5);
    let r = s.update(42, None, Some(true), 10);
    assert_eq!(r.unwrap_err(), StoreError::NotFound);
}

#[test]
fn delete_removes_exactly_one_row() {
    let mut s = store_with_user(1);
    let a = s.create(1, "n1".to_string(), "c".to_string(), false, 1).unwrap();
    let b = s.create(1, "n2".to_string(), "c".to_string(), false, 1).unwrap();
    assert!(s.delete(a.id).is_ok());
    assert_eq!(s.get_by_id(a.id).unwrap_err(), StoreError::NotFound);
    let still = s.get_by_id(b.id).unwrap();
    assert_same_fields(&b, &still);
    // deleting again: the row is gone
    assert_eq!(s.delete(a.id).unwrap_err(), StoreError::NotFound);
}

#[test]
fn delete_does_not_touch_the_user() {
    let mut s = store_with_user(1);
    let a = s.create(1, "n1".to_string(), "c".to_string(), false, 1).unwrap();
    assert!(s.delete(a.id).is_ok());
    assert!(s.user_exists(1));
    // the instance id is free again
    let again = s.create(1, "n1".to_string(), "c2".to_string(), true, 2);
    assert!(again.is_ok());
}

#[test]
fn deleting_a_user_cascades_to_all_its_rows() {
    let mut s = store_with_user(1);
    assert!(s.add_user(2));
    let a = s.create(1, "n1".to_string(), "c".to_string(), false, 1).unwrap();
    let b = s.create(1, "n2".to_string(), "c".to_string(), false, 1).unwrap();
    let keep = s.create(2, "n3".to_string(), "c".to_string(), false, 1).unwrap();
    let listed = s.list_by_user(1);
    assert_eq!(listed.len(), 2);
    assert!(s.delete_user(1));
    assert!(s.list_by_user(1).is_empty());
    for rec in [&a, &b] {
        assert_eq!(s.get_by_id(rec.id).unwrap_err(), StoreError::NotFound);
    }
    assert!(!s.user_exists(1));
    // the other user's row survives
    let still = s.get_by_id(keep.id).unwrap();
    assert_same_fields(&keep, &still);
}

#[test]
fn deleting_an_unknown_user_changes_nothing() {
    let mut s = store_with_user(1);
    let a = s.create(1, "n1".to_string(), "c".to_string(), false, 1).unwrap();
    assert!(!s.delete_user(9));
    assert!(s.user_exists(1));
    let still = s.get_by_id(a.id).unwrap();
    assert_same_fields(&a, &still);
}

#[test]
fn renaming_a_user_cascades_to_its_rows() {
    let mut s = store_with_user(1);
    assert!(s.add_user(2));
    let a = s.create(1, "n1".to_string(), "c".to_string(), false, 1).unwrap();
    let other = s.create(2, "n2".to_string(), "c".to_string(), false, 1).unwrap();
    assert!(s.rename_user(1, 9).is_ok());
    assert!(!s.user_exists(1));
    assert!(s.user_exists(9));
    assert!(s.list_by_user(1).is_empty());
    let moved = s.list_by_user(9);
    assert_eq!(moved.len(), 1);
    assert_eq!(moved[0].id, a.id);
    assert_eq!(moved[0].user_id, 9);
    assert_eq!(moved[0].network_instance_id, a.network_instance_id);
    // the other user's row keeps its owner
    let still = s.get_by_id(other.id).unwrap();
    assert_same_fields(&other, &still);
}

#[test]
fn renaming_to_a_taken_user_id_fails() {
    let mut s = store_with_user(1);
    assert!(s.add_user(2));
    let a = s.create(1, "n1".to_string(), "c".to_string(), false, 1).unwrap();
    let r = s.rename_user(1, 2);
    assert_eq!(r.unwrap_err(), StoreError::UniqueConstraintViolation);
    let still = s.get_by_id(a.id).unwrap();
    assert_same_fields(&a, &still);
}

#[test]
fn renaming_an_unknown_user_fails_with_not_found() {
    let mut s = store_with_user(1);
    assert_eq!(s.rename_user(8, 9).unwrap_err(), StoreError::NotFound);
    // renaming a user to itself is a no-op that succeeds
    assert!(s.rename_user(1, 1).is_ok());
    assert!(s.user_exists(1));
}

#[test]
fn add_user_reports_duplicates() {
    let mut s = Store::new();
    assert!(s.add_user(4));
    assert!(!s.add_user(4));
    assert!(s.user_exists(4));
    assert!(!s.user_exists(5));
}

#[test]
fn scenario_create_duplicate_then_cascade() {
    // create user U1 (id=1); create config C1; duplicate fails; delete U1
    let mut s = Store::new();
    assert!(s.add_user(1));
    let c1 = s
        .create(1, "net-abc".to_string(), "{}".to_string(), false, 100)
        .unwrap();
    assert_eq!(c1.id, 1);
    let again = s.create(1, "net-abc".to_string(), "{}".to_string(), false, 200);
    assert_eq!(again.unwrap_err(), StoreError::UniqueConstraintViolation);
    assert!(s.delete_user(1));
    assert_eq!(s.get_by_id(c1.id).unwrap_err(), StoreError::NotFound);
}

#[test]
fn empty_store_finds_nothing() {
    let s = Store::new();
    assert_eq!(s.get_by_id(1).unwrap_err(), StoreError::NotFound);
    assert_eq!(
        s.get_by_network_instance_id(&String::new()).unwrap_err(),
        StoreError::NotFound
    );
    assert!(s.list_by_user(0).is_empty());
}

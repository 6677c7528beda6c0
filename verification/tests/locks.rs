use cargo_fix::locks::LockTable;

#[test]
fn two_workers_one_path() {
    // exactly one of two concurrent requesters proceeds; the other is
    // serviced only after the first releases
    let mut table = LockTable::new();
    let path = "shared.rs".to_string();
    assert!(table.acquire(1, &path));
    assert!(!table.acquire(2, &path));
    let next = table.release(1, &path);
    assert_eq!(next, Some(2));
    assert!(table.acquire(2, &path));
}

#[test]
fn grants_follow_request_order() {
    let mut table = LockTable::new();
    let path = "a.rs".to_string();
    assert!(table.acquire(1, &path));
    assert!(!table.acquire(2, &path));
    assert!(!table.acquire(3, &path));
    assert_eq!(table.release(1, &path), Some(2));
    assert_eq!(table.release(2, &path), Some(3));
    assert_eq!(table.release(3, &path), None);
}

#[test]
fn distinct_paths_never_block_each_other() {
    let mut table = LockTable::new();
    assert!(table.acquire(1, &"a.rs".to_string()));
    assert!(table.acquire(2, &"b.rs".to_string()));
    assert!(table.acquire(1, &"c.rs".to_string()));
}

#[test]
fn reacquire_on_same_connection_is_idempotent() {
    let mut table = LockTable::new();
    let path = "x.rs".to_string();
    assert!(table.acquire(7, &path));
    assert!(table.acquire(7, &path));
    assert!(!table.acquire(8, &path));
    // one release suffices: the double acquire created no second ticket
    assert_eq!(table.release(7, &path), Some(8));
}

#[test]
fn waiting_twice_keeps_one_place_in_line() {
    let mut table = LockTable::new();
    let path = "y.rs".to_string();
    assert!(table.acquire(1, &path));
    assert!(!table.acquire(2, &path));
    assert!(!table.acquire(2, &path));
    assert_eq!(table.release(1, &path), Some(2));
    assert_eq!(table.release(2, &path), None);
}

#[test]
fn disconnect_releases_everything_held() {
    let mut table = LockTable::new();
    let a = "a.rs".to_string();
    let b = "b.rs".to_string();
    assert!(table.acquire(1, &a));
    assert!(table.acquire(1, &b));
    assert!(!table.acquire(2, &a));
    let grants = table.disconnect(1);
    assert_eq!(grants.len(), 1);
    assert_eq!(grants[0].path, "a.rs");
    assert_eq!(grants[0].conn, 2);
    // the next waiter now holds a.rs, and b.rs is free again
    assert!(table.acquire(2, &a));
    assert!(table.acquire(3, &b));
}

#[test]
fn waiter_disconnecting_leaves_holder_in_place() {
    let mut table = LockTable::new();
    let path = "z.rs".to_string();
    assert!(table.acquire(1, &path));
    assert!(!table.acquire(2, &path));
    let grants = table.disconnect(2);
    assert_eq!(grants.len(), 0);
    assert_eq!(table.release(1, &path), None);
    assert!(table.acquire(3, &path));
}

#[test]
fn release_by_non_holder_changes_nothing() {
    let mut table = LockTable::new();
    let path = "w.rs".to_string();
    assert!(table.acquire(1, &path));
    assert_eq!(table.release(9, &path), None);
    assert!(table.acquire(1, &path));
}

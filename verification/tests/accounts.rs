use mogwai_server::accounts::{AccountRegistry, RegistryError};
use mogwai_server::orders::CommandClass;

#[test]
fn teardown_actually_drops_the_slot() {
    let mut registry = AccountRegistry::new(0);
    let slot = registry.acquire("ACC-A", 1).unwrap();
    assert!(!registry.is_torn_down("ACC-A", slot));
    assert!(registry.destroy("ACC-A"));
    assert!(registry.is_torn_down("ACC-A", slot));
    assert!(registry.get("ACC-A").is_none());
}

#[test]
fn teardown_of_unknown_account_is_404() {
    assert!(!AccountRegistry::new(0).destroy("UNKNOWN"));
}

#[test]
fn idle_account_is_reaped() {
    let mut registry = AccountRegistry::new(0);
    registry.acquire("IDLE", 1).unwrap();
    assert_eq!(registry.reap_idle(101, 100), vec!["IDLE".to_string()]);
    assert_eq!(registry.len(), 0);
}

#[test]
fn an_account_seen_lately_is_not_reaped() {
    let mut registry = AccountRegistry::new(0);
    registry.acquire("BUSY", 2).unwrap();
    assert!(registry.reap_idle(101, 100).is_empty());
    assert_eq!(registry.len(), 1);
}

#[test]
fn a_reaped_account_is_not_the_one_that_was_reactivated() {
    let mut registry = AccountRegistry::new(0);
    let original = registry.acquire("RACE", 1).unwrap();
    assert_eq!(registry.reap_idle(101, 100), vec!["RACE".to_string()]);
    let reactivated = registry.acquire("RACE", 102).unwrap();
    assert_ne!(reactivated, original);
    assert_eq!(registry.get("RACE").unwrap().sessions, 0);
    assert!(registry.is_torn_down("RACE", original));
}

#[test]
fn account_with_a_live_session_is_never_reaped() {
    let mut registry = AccountRegistry::new(0);
    registry.acquire("LIVE", 1).unwrap();
    let _lease = registry.lease("LIVE", 1);
    assert!(registry.reap_idle(101, 100).is_empty());
    assert_eq!(registry.len(), 1);
}

#[test]
fn a_dropped_lease_leaks_no_session_count() {
    let mut registry = AccountRegistry::new(0);
    registry.acquire("LEASE", 1).unwrap();
    let lease = registry.lease("LEASE", 1);
    assert_eq!(registry.get("LEASE").unwrap().sessions, 1);
    registry.release(lease);
    assert_eq!(registry.get("LEASE").unwrap().sessions, 0);
    assert_eq!(registry.reap_idle(101, 100), vec!["LEASE".to_string()]);
}

#[test]
fn a_session_wakes_on_a_teardown_that_precedes_its_wait() {
    let mut registry = AccountRegistry::new(0);
    let slot = registry.acquire("GONE", 1).unwrap();
    assert!(registry.destroy("GONE"));
    assert!(registry.is_torn_down("GONE", slot));
}

#[test]
fn new_account_beyond_max_accounts_is_refused() {
    let mut registry = AccountRegistry::new(2);
    registry.acquire("ACC-A", 1).unwrap();
    registry.acquire("ACC-B", 1).unwrap();
    assert!(matches!(
        registry.acquire("ACC-C", 1),
        Err(RegistryError::AtCapacity)
    ));
    assert_eq!(registry.len(), 2);
    assert!(registry.acquire("ACC-A", 2).is_ok());
}

#[test]
fn registry_holds_the_target_account_count() {
    let mut registry = AccountRegistry::new(0);
    for n in 0..2_000u64 {
        registry.acquire(&format!("ACC-{n}"), n).unwrap();
    }
    assert_eq!(registry.len(), 2_000);
    assert_eq!(registry.summaries(&vec![]).len(), 2_000);
}

#[test]
fn a_late_lease_of_a_reaped_account_does_not_touch_its_successor() {
    let mut registry = AccountRegistry::new(0);
    registry.acquire("A", 1).unwrap();
    let stale = registry.lease("A", 1);
    assert!(registry.destroy("A"));
    registry.acquire("A", 2).unwrap();
    let _held = registry.lease("A", 2);
    registry.release(stale);
    assert_eq!(registry.get("A").unwrap().sessions, 1);
}

#[test]
fn summaries_come_in_the_order_of_their_accounts() {
    let mut registry = AccountRegistry::new(0);
    registry.acquire("B", 7).unwrap();
    registry.acquire("A", 5).unwrap();
    let books = vec![("A".to_string(), 4), ("C".to_string(), 9)];
    let listed = registry.summaries(&books);
    assert_eq!(listed[0].account_id, "A");
    assert_eq!((listed[0].generation, listed[0].last_seen_ns), (2, 5));
    assert_eq!((listed[0].open_orders, listed[1].open_orders), (4, 0));
    assert_eq!(listed[1].account_id, "B");
    assert_eq!((listed[1].generation, listed[1].last_seen_ns), (1, 7));
}

#[test]
fn an_account_is_opened_once_and_then_given_out() {
    let mut registry = AccountRegistry::new(1);
    let opened = registry.acquire("A", 5).unwrap();
    assert_eq!(registry.acquire("A", 9).unwrap(), opened);
    let slot = registry.get("A").unwrap();
    assert_eq!((slot.generation, slot.last_seen_ns), (opened, 9));
    assert!(registry.acquire("B", 9).is_err());
    assert!(registry.destroy("A"));
    assert_ne!(registry.acquire("B", 9).unwrap(), opened);
    assert_eq!(registry.len(), 1);
}

#[test]
fn every_idle_account_is_reaped_once() {
    let mut registry = AccountRegistry::new(0);
    for name in ["A", "B", "C", "D"] {
        registry.acquire(name, 1).unwrap();
    }
    let _held = registry.lease("C", 1);
    registry.acquire("D", 200).unwrap();
    let mut reaped = registry.reap_idle(250, 100);
    reaped.sort();
    assert_eq!(reaped, vec!["A".to_string(), "B".to_string()]);
    assert_eq!(registry.len(), 2);
    assert!(registry.reap_idle(250, 100).is_empty());
}

#[test]
fn a_new_account_is_served_without_delay() {
    let mut registry = AccountRegistry::new(0);
    registry.acquire("A", 1).unwrap();
    let slot = registry.get("A").unwrap();
    for class in [CommandClass::Submit, CommandClass::Modify, CommandClass::Cancel] {
        assert_eq!((slot.act_ms(class), slot.ack_ms(class)), (0, 0));
    }
    assert_eq!(slot.transport.delay_ms, 0);
}

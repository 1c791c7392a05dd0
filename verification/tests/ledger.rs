use jlrs::error::JlrsError;
use jlrs::memory::ledger::Ledger;

#[test]
fn shared_borrows_are_counted() {
    let mut ledger = Ledger::new();
    assert_eq!(ledger.shared_count(0x10), 0);
    assert_eq!(ledger.track_shared(0x10), Ok(()));
    assert_eq!(ledger.track_shared(0x10), Ok(()));
    assert_eq!(ledger.shared_count(0x10), 2);
    assert!(!ledger.is_exclusive(0x10));
    ledger.untrack_shared(0x10);
    assert_eq!(ledger.shared_count(0x10), 1);
    ledger.untrack_shared(0x10);
    assert_eq!(ledger.shared_count(0x10), 0);
    ledger.untrack_shared(0x10);
    assert_eq!(ledger.shared_count(0x10), 0);
}

#[test]
fn an_exclusive_borrow_excludes_every_other() {
    let mut ledger = Ledger::new();
    assert_eq!(ledger.track_exclusive(0x10), Ok(()));
    assert!(ledger.is_exclusive(0x10));
    assert_eq!(ledger.track_exclusive(0x10), Err(JlrsError::BorrowConflict));
    assert_eq!(ledger.track_shared(0x10), Err(JlrsError::BorrowConflict));
    assert_eq!(ledger.shared_count(0x10), 0);
    assert_eq!(ledger.track_shared(0x20), Ok(()));
    ledger.untrack_shared(0x10);
    assert!(ledger.is_exclusive(0x10));
    ledger.untrack_exclusive(0x10);
    assert!(!ledger.is_exclusive(0x10));
    assert_eq!(ledger.track_shared(0x10), Ok(()));
}

#[test]
fn a_shared_borrow_excludes_an_exclusive_one() {
    let mut ledger = Ledger::new();
    assert_eq!(ledger.track_shared(0x10), Ok(()));
    assert_eq!(ledger.track_exclusive(0x10), Err(JlrsError::BorrowConflict));
    ledger.untrack_exclusive(0x10);
    assert_eq!(ledger.shared_count(0x10), 1);
    ledger.untrack_shared(0x10);
    assert_eq!(ledger.track_exclusive(0x10), Ok(()));
}

use bottle_orm::error::OrmError;
use bottle_orm::txn::{TxLifecycle, TxPhase};

#[test]
fn test_open_transaction_admits_operations() {
    let t = TxLifecycle::new();
    assert_eq!(t.phase, TxPhase::Open);
    assert!(t.check_active().is_ok());
}

#[test]
fn test_commit_is_one_shot_and_terminal() {
    let mut t = TxLifecycle::new();
    assert!(t.finish_commit());
    assert_eq!(t.phase, TxPhase::Committed);
    // every later operation is rejected with the defined error
    assert!(matches!(
        t.check_active(),
        Err(OrmError::TransactionClosedError)
    ));
    // a repeated commit is a no-op, not a second consumption
    assert!(!t.finish_commit());
    assert!(!t.finish_rollback());
    assert_eq!(t.phase, TxPhase::Committed);
}

#[test]
fn test_rollback_is_one_shot_and_terminal() {
    let mut t = TxLifecycle::new();
    assert!(t.finish_rollback());
    assert_eq!(t.phase, TxPhase::RolledBack);
    assert!(matches!(
        t.check_active(),
        Err(OrmError::TransactionClosedError)
    ));
    assert!(!t.finish_commit());
}

use volnotify::store::{LockLevel, Protocol};

#[test]
fn fast_path_needs_no_escalation() {
    let mut p = Protocol::new();
    assert_eq!(p.required_lock(), Some(LockLevel::Shared));
    p.observe("42").unwrap();
    assert_eq!(p.required_lock(), None);
    assert_eq!(p.prior_identity(), Some(42));
    assert!(!p.must_write());
}

#[test]
fn empty_shared_read_escalates() {
    let mut p = Protocol::new();
    p.observe("").unwrap();
    assert_eq!(p.required_lock(), Some(LockLevel::Exclusive));
}

#[test]
fn winner_writes_after_exclusive_read_finds_nothing() {
    let mut p = Protocol::new();
    p.observe("").unwrap();
    p.observe("").unwrap();
    assert_eq!(p.required_lock(), None);
    assert_eq!(p.prior_identity(), None);
    assert!(p.must_write());
}

#[test]
fn loser_adopts_the_winners_identity() {
    // Between the shared and the exclusive read another invocation wrote:
    // this one must not write and must replace the winner's notification.
    let mut p = Protocol::new();
    p.observe("").unwrap();
    p.observe("17").unwrap();
    assert_eq!(p.prior_identity(), Some(17));
    assert!(!p.must_write());
}

#[test]
fn corrupt_record_fails_the_read() {
    let mut p = Protocol::new();
    assert!(p.observe("not a number").is_err());
    // the failed read settles nothing
    assert_eq!(p.required_lock(), Some(LockLevel::Shared));
}

use neptun::errors::WireGuardError;
use neptun::replay::ReceivingCounterValidator;

#[test]
fn duplicate_counter_is_rejected() {
    let mut v = ReceivingCounterValidator::new();
    assert!(v.will_accept(5).is_ok());
    v.mark_did_receive(5);
    assert_eq!(v.will_accept(5), Err(WireGuardError::DuplicateCounter));
}

#[test]
fn counter_behind_the_window_is_rejected() {
    let mut v = ReceivingCounterValidator::new();
    v.mark_did_receive(3000);
    // max received - window_size and below is dropped as a duplicate
    assert_eq!(v.will_accept(952), Err(WireGuardError::DuplicateCounter));
    assert_eq!(v.will_accept(0), Err(WireGuardError::DuplicateCounter));
    // inside the window and unseen is accepted
    assert!(v.will_accept(953).is_ok());
    assert!(v.will_accept(2999).is_ok());
    assert!(v.will_accept(3001).is_ok());
}

#[test]
fn window_slides_forward() {
    let mut v = ReceivingCounterValidator::new();
    v.mark_did_receive(10);
    v.mark_did_receive(5000);
    // 10 fell behind the window when it slid
    assert_eq!(v.will_accept(10), Err(WireGuardError::DuplicateCounter));
    assert!(v.will_accept(4999).is_ok());
    assert_eq!(v.will_accept(5000), Err(WireGuardError::DuplicateCounter));
}

#[test]
fn mild_reordering_is_tolerated() {
    let mut v = ReceivingCounterValidator::new();
    v.mark_did_receive(100);
    assert!(v.will_accept(99).is_ok());
    v.mark_did_receive(99);
    assert!(v.will_accept(98).is_ok());
    assert_eq!(v.will_accept(99), Err(WireGuardError::DuplicateCounter));
}

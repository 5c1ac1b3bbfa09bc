use semantic_editor::correlator::{Correlator, PendingMap};

#[test]
fn issued_identifiers_are_fresh_and_sequential() {
    let mut c = Correlator::new();
    let a = c.issue(100);
    let b = c.issue(200);
    assert_ne!(a, b);
    assert_eq!(c.pending_len(), 2);
}

#[test]
fn replies_out_of_order_resolve_their_own_waiters() {
    let mut c = Correlator::new();
    let a = c.issue(100);
    let b = c.issue(200);
    // Deliver B's reply first, then A's: each resolves its own waiter.
    assert_eq!(c.resolve(b), Some(200));
    assert_eq!(c.pending_len(), 1);
    assert_eq!(c.resolve(a), Some(100));
    assert_eq!(c.pending_len(), 0);
}

#[test]
fn unknown_identifiers_resolve_nothing_and_disturb_nothing() {
    let mut c = Correlator::new();
    let a = c.issue(100);
    assert_eq!(c.resolve(a + 1), None);
    assert_eq!(c.pending_len(), 1);
    // The original call is still resolvable afterwards.
    assert_eq!(c.resolve(a), Some(100));
}

#[test]
fn a_resolved_identifier_is_gone() {
    let mut c = Correlator::new();
    let a = c.issue(100);
    assert_eq!(c.resolve(a), Some(100));
    assert_eq!(c.resolve(a), None);
}

#[test]
fn pending_map_registers_and_resolves() {
    let mut m = PendingMap::new();
    assert_eq!(m.len(), 0);
    m.register(5, 50);
    m.register(6, 60);
    assert_eq!(m.len(), 2);
    assert_eq!(m.resolve(6), Some(60));
    assert_eq!(m.resolve(6), None);
    assert_eq!(m.resolve(5), Some(50));
}

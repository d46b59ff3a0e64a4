use routing::bootstrap::{Bootstrap, BootstrapAction, BootstrapEvent};

fn addr(i: u8) -> Vec<u8> {
    vec![10, 0, 0, i, 0x1f, 0x90]
}

#[test]
fn bootstrap_contact_selection() {
    // Contacts A, B and C; A is offline.
    let mut b = Bootstrap::new(vec![addr(1), addr(2), addr(3)]);
    let mut bootstrapped = vec![];
    let events = vec![
        BootstrapEvent::ConnectionFailure(addr(1)),
        BootstrapEvent::ConnectedTo(addr(3)),
        BootstrapEvent::ConnectedTo(addr(2)),
    ];
    for ev in events {
        if let BootstrapAction::BootstrappedTo(i) = b.handle(ev) {
            bootstrapped.push(b.contact(i));
        }
    }
    assert_eq!(bootstrapped.len(), 1);
    assert!(bootstrapped[0] == addr(2) || bootstrapped[0] == addr(3));
    assert_eq!(b.handle(BootstrapEvent::ConnectedTo(addr(2))), BootstrapAction::Disconnect(1));
    assert_eq!(b.handle(BootstrapEvent::ConnectionFailure(addr(2))), BootstrapAction::Nothing);
}

#[test]
fn bootstrap_failure_when_all_fail() {
    let mut b = Bootstrap::new(vec![addr(1), addr(2)]);
    assert_eq!(b.handle(BootstrapEvent::ConnectionFailure(addr(1))), BootstrapAction::Nothing);
    assert_eq!(b.handle(BootstrapEvent::ConnectedTo(addr(9))), BootstrapAction::Nothing);
    assert_eq!(b.handle(BootstrapEvent::ConnectionFailure(addr(2))), BootstrapAction::BootstrapFailure);
    assert_eq!(b.handle(BootstrapEvent::ConnectionFailure(addr(2))), BootstrapAction::Nothing);
}

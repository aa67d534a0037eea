use crust::server::client_writes::{client_write_step, ClientWrite, ClientWriteAction, ClientWriteState};

#[test]
fn packets_are_written_until_a_switch_refuses_them() {
    let s = ClientWriteState::new();
    assert_eq!(s, ClientWriteState { in_bundle: false, drop_redundant: false });
    assert_eq!(client_write_step(s, ClientWrite::Packet { bypass: false }), (s, ClientWriteAction::Write));
    let (d, a) = client_write_step(s, ClientWrite::DropRedundant(true));
    assert_eq!(a, ClientWriteAction::Nothing);
    assert!(d.drop_redundant);
    assert_eq!(client_write_step(d, ClientWrite::Packet { bypass: true }), (d, ClientWriteAction::Write));
    assert_eq!(client_write_step(d, ClientWrite::Packet { bypass: false }), (d, ClientWriteAction::Stop));
    let (back, _) = client_write_step(d, ClientWrite::DropRedundant(false));
    assert_eq!(back, s);
}

#[test]
fn bundles_are_closed_before_configuration() {
    let s = ClientWriteState::new();
    let (open, a) = client_write_step(s, ClientWrite::BundleDelimiter);
    assert_eq!(a, ClientWriteAction::WriteBundleDelimiter);
    assert!(open.in_bundle);
    let (closed, a) = client_write_step(open, ClientWrite::StartConfiguration);
    assert_eq!(a, ClientWriteAction::WriteStartConfiguration { close_bundle: true });
    assert!(!closed.in_bundle);
    let (_, a) = client_write_step(s, ClientWrite::StartConfiguration);
    assert_eq!(a, ClientWriteAction::WriteStartConfiguration { close_bundle: false });
    let (again, _) = client_write_step(open, ClientWrite::BundleDelimiter);
    assert_eq!(again, s);
    assert_eq!(client_write_step(s, ClientWrite::FinishConfiguration), (s, ClientWriteAction::WriteFinishConfiguration));
}

use crust::server::packets::ProtocolState;
use crust::server::switch::{switch_step, SwitchAction, SwitchEvent};

#[test]
fn switch_to_current_server_is_refused() {
    let r = switch_step(false, Some("lobby"), "lobby", ProtocolState::Game, SwitchEvent::Requested);
    assert_eq!(r, (false, SwitchAction::AlreadyThere));
}

#[test]
fn switch_while_switching_is_ignored() {
    let r = switch_step(true, Some("lobby"), "survival", ProtocolState::Game, SwitchEvent::Requested);
    assert_eq!(r, (true, SwitchAction::Ignore));
}

#[test]
fn switch_connects_first() {
    let r = switch_step(false, Some("lobby"), "survival", ProtocolState::Game, SwitchEvent::Requested);
    assert_eq!(r, (true, SwitchAction::Connect));
    let r = switch_step(false, None, "survival", ProtocolState::Game, SwitchEvent::Requested);
    assert_eq!(r, (true, SwitchAction::Connect));
}

#[test]
fn switch_from_game_goes_back_to_configuration() {
    let r = switch_step(true, Some("lobby"), "survival", ProtocolState::Game, SwitchEvent::Connected);
    assert_eq!(r, (true, SwitchAction::CloseOldAndEnterConfig));
    let r = switch_step(true, Some("lobby"), "survival", ProtocolState::Config, SwitchEvent::ConfigAcknowledged);
    assert_eq!(r, (false, SwitchAction::StartProxying));
}

#[test]
fn switch_while_configuring_passes_through_game() {
    let r = switch_step(true, Some("lobby"), "survival", ProtocolState::Config, SwitchEvent::Connected);
    assert_eq!(r, (true, SwitchAction::CloseOldAndEnterGame));
    let r = switch_step(true, Some("lobby"), "survival", ProtocolState::Game, SwitchEvent::GameAcknowledged);
    assert_eq!(r, (true, SwitchAction::EnterConfig));
}

#[test]
fn failed_switch_is_reported_and_over() {
    let r = switch_step(true, Some("lobby"), "survival", ProtocolState::Game, SwitchEvent::ConnectFailed);
    assert_eq!(r, (false, SwitchAction::ReportFailure));
    let r = switch_step(true, Some("lobby"), "nowhere", ProtocolState::Game, SwitchEvent::ServerMissing);
    assert_eq!(r, (false, SwitchAction::Ignore));
}

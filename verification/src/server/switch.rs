//! Switching a player to another backend server, as a state machine: the
//! caller reports what happened and carries out the action it is given.
//!
//! A switch connects to the new server first; only once that worked is the
//! old server closed and the client moved back to the configuration state
//! (by way of the game state when it is still configuring), after which the
//! new server takes over.
use vstd::prelude::*;

use crate::server::packets::ProtocolState;

verus! {

/// What happened in a switch.
#[derive(Debug, Clone, Copy, PartialEq, Eq, Structural)]
pub enum SwitchEvent {
    /// The player asked to be moved to the target server.
    Requested,
    /// The target server is not in the list.
    ServerMissing,
    /// The connection to the target server is logged in.
    Connected,
    /// The connection to the target server failed.
    ConnectFailed,
    /// The client acknowledged the move to the game state.
    GameAcknowledged,
    /// The client acknowledged the move to the configuration state.
    ConfigAcknowledged,
}

/// What the caller is to do next.
#[derive(Debug, Clone, Copy, PartialEq, Eq, Structural)]
pub enum SwitchAction {
    /// Nothing: a switch is already running, or this one is over.
    Ignore,
    /// Tell the player that they are already on that server.
    AlreadyThere,
    /// Connect to the target server.
    Connect,
    /// Tell the player that the connection failed; the switch is over.
    ReportFailure,
    /// Close the old server, then move the configuring client to the game
    /// state and wait for its acknowledgement.
    CloseOldAndEnterGame,
    /// Close the old server, then move the client to the configuration
    /// state and wait for its acknowledgement.
    CloseOldAndEnterConfig,
    /// Move the client to the configuration state and wait for its
    /// acknowledgement.
    EnterConfig,
    /// Hand the client to the new server; the switch is over.
    StartProxying,
}

/// One step of a switch: from whether a switch is running, the player's
/// current server, the target, the client's protocol state and what
/// happened, whether a switch is running afterwards and what to do.
pub open spec fn spec_switch_step(
    switching: bool,
    current: Option<Seq<char>>,
    target: Seq<char>,
    state: ProtocolState,
    event: SwitchEvent,
) -> (bool, SwitchAction) {
    match event {
        SwitchEvent::Requested => if current == Some(target) {
            (switching, SwitchAction::AlreadyThere)
        } else if switching {
            (true, SwitchAction::Ignore)
        } else {
            (true, SwitchAction::Connect)
        },
        SwitchEvent::ServerMissing => (false, SwitchAction::Ignore),
        SwitchEvent::ConnectFailed => (false, SwitchAction::ReportFailure),
        SwitchEvent::Connected => if state == ProtocolState::Config {
            (true, SwitchAction::CloseOldAndEnterGame)
        } else {
            (true, SwitchAction::CloseOldAndEnterConfig)
        },
        SwitchEvent::GameAcknowledged => (true, SwitchAction::EnterConfig),
        SwitchEvent::ConfigAcknowledged => (false, SwitchAction::StartProxying),
    }
}

pub(crate) fn same_text(a: &str, b: &str) -> (r: bool)
    ensures
        r == (a@ == b@),
{
    let x = a.as_bytes();
    let y = b.as_bytes();
    proof {
        vstd::utf8::encode_utf8_decode_utf8(a@);
        vstd::utf8::encode_utf8_decode_utf8(b@);
    }
    if x.len() != y.len() {
        return false;
    }
    let mut i: usize = 0;
    while i < x.len()
        invariant
            x@ == vstd::utf8::encode_utf8(a@),
            y@ == vstd::utf8::encode_utf8(b@),
            x@.len() == y@.len(),
            i <= x@.len(),
            forall|j: int| 0 <= j < i ==> x@[j] == y@[j],
        decreases x.len() - i,
    {
        if x[i] != y[i] {
            return false;
        }
        i = i + 1;
    }
    proof { assert(x@ =~= y@); }
    true
}

/// One step of a switch (see `spec_switch_step`).
pub fn switch_step(
    switching: bool,
    current: Option<&str>,
    target: &str,
    state: ProtocolState,
    event: SwitchEvent,
) -> (r: (bool, SwitchAction))
    ensures
        r == spec_switch_step(
            switching,
            match current {
                Some(c) => Some(c@),
                None => None,
            },
            target@,
            state,
            event,
        ),
{
    match event {
        SwitchEvent::Requested => {
            let here = match current {
                Some(c) => same_text(c, target),
                None => false,
            };
            if here {
                (switching, SwitchAction::AlreadyThere)
            } else if switching {
                (true, SwitchAction::Ignore)
            } else {
                (true, SwitchAction::Connect)
            }
        },
        SwitchEvent::ServerMissing => (false, SwitchAction::Ignore),
        SwitchEvent::ConnectFailed => (false, SwitchAction::ReportFailure),
        SwitchEvent::Connected => match state {
            ProtocolState::Config => (true, SwitchAction::CloseOldAndEnterGame),
            _ => (true, SwitchAction::CloseOldAndEnterConfig),
        },
        SwitchEvent::GameAcknowledged => (true, SwitchAction::EnterConfig),
        SwitchEvent::ConfigAcknowledged => (false, SwitchAction::StartProxying),
    }
}

/// Law: a switch that is asked for while another runs changes nothing, and
/// one that connects leaves the client with the new server only after it
/// acknowledged the configuration state; every way out of a switch (a
/// missing server, a failed connection, the hand-over) ends it.
pub proof fn law_switch_runs_once(
    current: Option<Seq<char>>,
    target: Seq<char>,
    state: ProtocolState,
    event: SwitchEvent,
)
    ensures
        current != Some(target) ==> spec_switch_step(true, current, target, state, SwitchEvent::Requested) == (
        true, SwitchAction::Ignore),
        spec_switch_step(true, current, target, state, event).1 == SwitchAction::StartProxying ==> event
            == SwitchEvent::ConfigAcknowledged,
        (event == SwitchEvent::ServerMissing || event == SwitchEvent::ConnectFailed || event
            == SwitchEvent::ConfigAcknowledged) ==> !spec_switch_step(true, current, target, state, event).0,
{
}

} // verus!

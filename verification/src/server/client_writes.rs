//! What is written to a player's client, as a state machine: whether a
//! bundle of packets is open, and whether packets relayed from a server are
//! refused while the player is being moved to another server.  The caller
//! reports what it wants written and carries out the action it is given.
use vstd::prelude::*;

verus! {

/// The state of the writes to a client.
#[derive(Debug, Clone, Copy, PartialEq, Eq, Structural)]
pub struct ClientWriteState {
    /// A bundle delimiter opened a bundle that none has closed yet.
    pub in_bundle: bool,
    /// Only packets that bypass the switch may be written.
    pub drop_redundant: bool,
}

/// What the caller wants written.
#[derive(Debug, Clone, Copy, PartialEq, Eq, Structural)]
pub enum ClientWrite {
    /// A packet; `bypass` marks the proxy's own packets (a kick), which are
    /// written during a switch too.
    Packet { bypass: bool },
    /// Refuse (or again accept) packets that do not bypass the switch.
    DropRedundant(bool),
    /// A server sent a bundle delimiter.
    BundleDelimiter,
    /// Move the client in game to the configuration state.
    StartConfiguration,
    /// Move the configuring client to the game state.
    FinishConfiguration,
}

/// What the caller is to do.
#[derive(Debug, Clone, Copy, PartialEq, Eq, Structural)]
pub enum ClientWriteAction {
    /// Write the packet.
    Write,
    /// Write nothing more to this client: the writer ends.
    Stop,
    /// Write nothing.
    Nothing,
    /// Write a bundle delimiter.
    WriteBundleDelimiter,
    /// Write a bundle delimiter when `close_bundle`, then the packet that
    /// starts the configuration state.
    WriteStartConfiguration { close_bundle: bool },
    /// Write the packet that finishes the configuration state.
    WriteFinishConfiguration,
}

/// The state a client's writes start in: no bundle open, every packet
/// written.
pub open spec fn initial_write_state() -> ClientWriteState {
    ClientWriteState { in_bundle: false, drop_redundant: false }
}

/// One step of the writes to a client: the next state and what to do.
/// While packets are refused, one that does not bypass the switch ends the
/// writer.  A bundle delimiter opens or closes a bundle; starting the
/// configuration state closes an open bundle first.
pub open spec fn spec_client_write_step(s: ClientWriteState, w: ClientWrite) -> (ClientWriteState, ClientWriteAction) {
    match w {
        ClientWrite::Packet { bypass } => if s.drop_redundant && !bypass {
            (s, ClientWriteAction::Stop)
        } else {
            (s, ClientWriteAction::Write)
        },
        ClientWrite::DropRedundant(d) => (ClientWriteState { drop_redundant: d, ..s }, ClientWriteAction::Nothing),
        ClientWrite::BundleDelimiter => (
            ClientWriteState { in_bundle: !s.in_bundle, ..s },
            ClientWriteAction::WriteBundleDelimiter,
        ),
        ClientWrite::StartConfiguration => (
            ClientWriteState { in_bundle: false, ..s },
            ClientWriteAction::WriteStartConfiguration { close_bundle: s.in_bundle },
        ),
        ClientWrite::FinishConfiguration => (s, ClientWriteAction::WriteFinishConfiguration),
    }
}

impl ClientWriteState {
    /// The state a client's writes start in.
    pub fn new() -> (r: ClientWriteState)
        ensures
            r == initial_write_state(),
    {
        ClientWriteState { in_bundle: false, drop_redundant: false }
    }
}

/// One step of the writes to a client (see `spec_client_write_step`).  A
/// client that is configuring has no bundle open, so finishing the
/// configuration is never asked for inside a bundle.
pub fn client_write_step(s: ClientWriteState, w: ClientWrite) -> (r: (ClientWriteState, ClientWriteAction))
    requires
        !(s.in_bundle && w == ClientWrite::FinishConfiguration),
    ensures
        r == spec_client_write_step(s, w),
{
    match w {
        ClientWrite::Packet { bypass } => if s.drop_redundant && !bypass {
            (s, ClientWriteAction::Stop)
        } else {
            (s, ClientWriteAction::Write)
        },
        ClientWrite::DropRedundant(d) => (
            ClientWriteState { in_bundle: s.in_bundle, drop_redundant: d },
            ClientWriteAction::Nothing,
        ),
        ClientWrite::BundleDelimiter => (
            ClientWriteState { in_bundle: !s.in_bundle, drop_redundant: s.drop_redundant },
            ClientWriteAction::WriteBundleDelimiter,
        ),
        ClientWrite::StartConfiguration => (
            ClientWriteState { in_bundle: false, drop_redundant: s.drop_redundant },
            ClientWriteAction::WriteStartConfiguration { close_bundle: s.in_bundle },
        ),
        ClientWrite::FinishConfiguration => (s, ClientWriteAction::WriteFinishConfiguration),
    }
}

/// Law: the client never enters the configuration state inside a bundle
/// (starting it closes an open bundle, and leaves none open), every packet
/// is written while packets are not refused, and the proxy's own packets
/// are written whatever the state.
pub proof fn law_client_writes(s: ClientWriteState, bypass: bool)
    ensures
        spec_client_write_step(s, ClientWrite::StartConfiguration) == (
        ClientWriteState { in_bundle: false, drop_redundant: s.drop_redundant },
        ClientWriteAction::WriteStartConfiguration { close_bundle: s.in_bundle }),
        !s.drop_redundant ==> spec_client_write_step(s, ClientWrite::Packet { bypass }).1
            == ClientWriteAction::Write,
        spec_client_write_step(s, ClientWrite::Packet { bypass: true }).1 == ClientWriteAction::Write,
        spec_client_write_step(spec_client_write_step(s, ClientWrite::BundleDelimiter).0, ClientWrite::BundleDelimiter).0
            == s,
{
}

} // verus!

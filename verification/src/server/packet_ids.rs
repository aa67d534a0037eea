//! Which id each packet type has in each protocol state and version.
use vstd::prelude::*;

use crate::server::packets::ProtocolState;
use crate::version::{
    supported_version_numbers, supported_versions, R1_12, R1_21, R1_21_4, R1_12_1, R1_13, R1_14, R1_15, R1_16,
    R1_16_2, R1_17, R1_19, R1_19_1, R1_19_3, R1_19_4, R1_20_2, R1_20_3, R1_20_5, R1_21_2, R1_8,
    R1_9,
};

verus! {

/// The packets the proxy sends to clients (and receives from servers).
#[derive(Debug, Clone, Copy, PartialEq, Eq, Structural, Hash)]
pub enum ServerPacketType {
    LoginDisconnect,
    EncryptionRequest,
    LoginPluginRequest,
    CookieRequest,
    LoginSuccess,
    SetCompression,
    StartConfiguration,
    Kick,
    ServerCustomPayload,
    FinishConfiguration,
    BundleDelimiter,
    SystemChatMessage,
    Commands,
    TabCompleteResponse,
}

/// The packets clients send (and the proxy sends to servers).
#[derive(Debug, Clone, Copy, PartialEq, Eq, Structural, Hash)]
pub enum ClientPacketType {
    Handshake,
    LoginRequest,
    EncryptionResponse,
    LoginPluginResponse,
    CookieResponse,
    LoginAcknowledged,
    ClientCustomPayload,
    ConfigurationAck,
    FinishConfiguration,
    ClientSettings,
    UnsignedClientCommand,
    TabCompleteRequest,
}

/// The id that holds at `version` in a list of (first version, id) pairs:
/// the last pair whose first version is not after `version`.
pub open spec fn resolve_id(list: Seq<(i32, u8)>, version: i32) -> Option<u8>
    decreases list.len(),
{
    if list.len() == 0 {
        None
    } else if list.last().0 <= version {
        Some(list.last().1)
    } else {
        resolve_id(list.drop_last(), version)
    }
}

/// Finds the id that holds at `version`, searching from the end.
fn resolve_exec(list: &Vec<(i32, u8)>, version: i32) -> (r: Option<u8>)
    ensures
        r == resolve_id(list@, version),
{
    let mut i: usize = list.len();
    assert(list@.take(i as int) =~= list@);
    while i > 0
        invariant
            i <= list@.len(),
            resolve_id(list@, version) == resolve_id(list@.take(i as int), version),
        decreases i,
    {
        let (start, id) = list[i - 1];
        proof {
            assert(list@.take(i as int).drop_last() =~= list@.take(i - 1));
        }
        if start <= version {
            return Some(id);
        }
        i = i - 1;
    }
    None
}

/// The ids a server-bound packet type has in a protocol state: each pair
/// holds the first protocol version the id holds from, and the id.
pub open spec fn server_decl(state: ProtocolState, t: ServerPacketType) -> Seq<(i32, u8)> {
    match (state, t) {
        (ProtocolState::Login, ServerPacketType::LoginDisconnect) => seq![(R1_8, 0x00u8)],
        (ProtocolState::Login, ServerPacketType::EncryptionRequest) => seq![(R1_8, 0x01u8)],
        (ProtocolState::Login, ServerPacketType::LoginSuccess) => seq![(R1_8, 0x02u8)],
        (ProtocolState::Login, ServerPacketType::SetCompression) => seq![(R1_8, 0x03u8)],
        (ProtocolState::Login, ServerPacketType::LoginPluginRequest) => seq![(R1_13, 0x04u8)],
        (ProtocolState::Login, ServerPacketType::CookieRequest) => seq![(R1_20_5, 0x05u8)],
        (ProtocolState::Config, ServerPacketType::CookieRequest) => seq![(R1_20_5, 0x00u8)],
        (ProtocolState::Config, ServerPacketType::ServerCustomPayload) => seq![(R1_20_2, 0x00u8), (R1_20_5, 0x01u8)],
        (ProtocolState::Config, ServerPacketType::Kick) => seq![(R1_20_2, 0x01u8), (R1_20_5, 0x02u8)],
        (ProtocolState::Config, ServerPacketType::FinishConfiguration) => seq![(R1_20_2, 0x02u8), (R1_20_5, 0x03u8)],
        (ProtocolState::Game, ServerPacketType::CookieRequest) => seq![(R1_20_5, 0x16u8)],
        (ProtocolState::Game, ServerPacketType::ServerCustomPayload) => seq![(R1_8, 0x3Fu8), (R1_9, 0x18u8), (R1_13, 0x19u8), (R1_14, 0x18u8), (R1_15, 0x19u8), (R1_16, 0x18u8), (R1_16_2, 0x17u8), (R1_17, 0x18u8), (R1_19, 0x15u8), (R1_19_1, 0x16u8), (R1_19_3, 0x15u8), (R1_19_4, 0x17u8), (R1_20_2, 0x18u8), (R1_20_5, 0x19u8)],
        (ProtocolState::Game, ServerPacketType::Kick) => seq![(R1_8, 0x40u8), (R1_9, 0x1Au8), (R1_13, 0x1Bu8), (R1_14, 0x1Au8), (R1_15, 0x1Bu8), (R1_16, 0x1Au8), (R1_16_2, 0x19u8), (R1_17, 0x1Au8), (R1_19, 0x17u8), (R1_19_1, 0x19u8), (R1_19_3, 0x17u8), (R1_19_4, 0x1Au8), (R1_20_2, 0x1Bu8), (R1_20_5, 0x1Du8)],
        (ProtocolState::Game, ServerPacketType::StartConfiguration) => seq![(R1_20_2, 0x65u8), (R1_20_3, 0x67u8), (R1_20_5, 0x69u8), (R1_21_2, 0x70u8)],
        (ProtocolState::Game, ServerPacketType::SystemChatMessage) => seq![(R1_19_4, 0x64u8), (R1_20_2, 0x67u8), (R1_20_3, 0x69u8), (R1_20_5, 0x6Cu8), (R1_21_2, 0x73u8)],
        (ProtocolState::Game, ServerPacketType::BundleDelimiter) => seq![(R1_19_4, 0x00u8)],
        (ProtocolState::Game, ServerPacketType::Commands) => seq![(R1_13, 0x11u8), (R1_15, 0x12u8), (R1_16, 0x11u8), (R1_16_2, 0x10u8), (R1_17, 0x12u8), (R1_19, 0x0Fu8), (R1_19_3, 0x0Eu8), (R1_19_4, 0x10u8), (R1_20_2, 0x11u8)],
        (ProtocolState::Game, ServerPacketType::TabCompleteResponse) => seq![(R1_8, 0x3Au8), (R1_9, 0x0Eu8), (R1_13, 0x10u8), (R1_15, 0x11u8), (R1_16, 0x10u8), (R1_16_2, 0x0Fu8), (R1_17, 0x11u8), (R1_19, 0x0Eu8), (R1_19_3, 0x0Du8), (R1_19_4, 0x0Fu8), (R1_20_2, 0x10u8)],
        _ => Seq::empty(),
    }
}

/// The declared ids of a server-bound packet type in a state.
fn server_decl_exec(state: ProtocolState, t: ServerPacketType) -> (r: Vec<(i32, u8)>)
    ensures
        r@ == server_decl(state, t),
{
    let r: Vec<(i32, u8)> = match (state, t) {
        (ProtocolState::Login, ServerPacketType::LoginDisconnect) => vec![(R1_8, 0x00u8)],
        (ProtocolState::Login, ServerPacketType::EncryptionRequest) => vec![(R1_8, 0x01u8)],
        (ProtocolState::Login, ServerPacketType::LoginSuccess) => vec![(R1_8, 0x02u8)],
        (ProtocolState::Login, ServerPacketType::SetCompression) => vec![(R1_8, 0x03u8)],
        (ProtocolState::Login, ServerPacketType::LoginPluginRequest) => vec![(R1_13, 0x04u8)],
        (ProtocolState::Login, ServerPacketType::CookieRequest) => vec![(R1_20_5, 0x05u8)],
        (ProtocolState::Config, ServerPacketType::CookieRequest) => vec![(R1_20_5, 0x00u8)],
        (ProtocolState::Config, ServerPacketType::ServerCustomPayload) => vec![(R1_20_2, 0x00u8), (R1_20_5, 0x01u8)],
        (ProtocolState::Config, ServerPacketType::Kick) => vec![(R1_20_2, 0x01u8), (R1_20_5, 0x02u8)],
        (ProtocolState::Config, ServerPacketType::FinishConfiguration) => vec![(R1_20_2, 0x02u8), (R1_20_5, 0x03u8)],
        (ProtocolState::Game, ServerPacketType::CookieRequest) => vec![(R1_20_5, 0x16u8)],
        (ProtocolState::Game, ServerPacketType::ServerCustomPayload) => vec![(R1_8, 0x3Fu8), (R1_9, 0x18u8), (R1_13, 0x19u8), (R1_14, 0x18u8), (R1_15, 0x19u8), (R1_16, 0x18u8), (R1_16_2, 0x17u8), (R1_17, 0x18u8), (R1_19, 0x15u8), (R1_19_1, 0x16u8), (R1_19_3, 0x15u8), (R1_19_4, 0x17u8), (R1_20_2, 0x18u8), (R1_20_5, 0x19u8)],
        (ProtocolState::Game, ServerPacketType::Kick) => vec![(R1_8, 0x40u8), (R1_9, 0x1Au8), (R1_13, 0x1Bu8), (R1_14, 0x1Au8), (R1_15, 0x1Bu8), (R1_16, 0x1Au8), (R1_16_2, 0x19u8), (R1_17, 0x1Au8), (R1_19, 0x17u8), (R1_19_1, 0x19u8), (R1_19_3, 0x17u8), (R1_19_4, 0x1Au8), (R1_20_2, 0x1Bu8), (R1_20_5, 0x1Du8)],
        (ProtocolState::Game, ServerPacketType::StartConfiguration) => vec![(R1_20_2, 0x65u8), (R1_20_3, 0x67u8), (R1_20_5, 0x69u8), (R1_21_2, 0x70u8)],
        (ProtocolState::Game, ServerPacketType::SystemChatMessage) => vec![(R1_19_4, 0x64u8), (R1_20_2, 0x67u8), (R1_20_3, 0x69u8), (R1_20_5, 0x6Cu8), (R1_21_2, 0x73u8)],
        (ProtocolState::Game, ServerPacketType::BundleDelimiter) => vec![(R1_19_4, 0x00u8)],
        (ProtocolState::Game, ServerPacketType::Commands) => vec![(R1_13, 0x11u8), (R1_15, 0x12u8), (R1_16, 0x11u8), (R1_16_2, 0x10u8), (R1_17, 0x12u8), (R1_19, 0x0Fu8), (R1_19_3, 0x0Eu8), (R1_19_4, 0x10u8), (R1_20_2, 0x11u8)],
        (ProtocolState::Game, ServerPacketType::TabCompleteResponse) => vec![(R1_8, 0x3Au8), (R1_9, 0x0Eu8), (R1_13, 0x10u8), (R1_15, 0x11u8), (R1_16, 0x10u8), (R1_16_2, 0x0Fu8), (R1_17, 0x11u8), (R1_19, 0x0Eu8), (R1_19_3, 0x0Du8), (R1_19_4, 0x0Fu8), (R1_20_2, 0x10u8)],
        _ => Vec::new(),
    };
    proof { assert(r@ =~= server_decl(state, t)); }
    r
}

/// The id a server-bound packet type has in a state and protocol version:
/// none for versions the proxy does not support.
pub open spec fn spec_server_packet_id(state: ProtocolState, version: i32, t: ServerPacketType) -> Option<u8> {
    if supported_versions().contains(version) {
        resolve_id(server_decl(state, t), version)
    } else {
        None
    }
}

/// The ids a client-bound packet type has in a protocol state: each pair
/// holds the first protocol version the id holds from, and the id.
pub open spec fn client_decl(state: ProtocolState, t: ClientPacketType) -> Seq<(i32, u8)> {
    match (state, t) {
        (ProtocolState::Handshake, ClientPacketType::Handshake) => seq![(R1_8, 0x00u8)],
        (ProtocolState::Login, ClientPacketType::LoginRequest) => seq![(R1_8, 0x00u8)],
        (ProtocolState::Login, ClientPacketType::EncryptionResponse) => seq![(R1_8, 0x01u8)],
        (ProtocolState::Login, ClientPacketType::LoginPluginResponse) => seq![(R1_13, 0x02u8)],
        (ProtocolState::Login, ClientPacketType::LoginAcknowledged) => seq![(R1_20_2, 0x03u8)],
        (ProtocolState::Login, ClientPacketType::CookieResponse) => seq![(R1_20_5, 0x04u8)],
        (ProtocolState::Config, ClientPacketType::ClientSettings) => seq![(R1_20_2, 0x00u8)],
        (ProtocolState::Config, ClientPacketType::ClientCustomPayload) => seq![(R1_20_2, 0x01u8), (R1_20_5, 0x02u8)],
        (ProtocolState::Config, ClientPacketType::FinishConfiguration) => seq![(R1_20_2, 0x02u8), (R1_20_5, 0x03u8)],
        (ProtocolState::Game, ClientPacketType::ClientSettings) => seq![(R1_19_4, 0x08u8), (R1_20_2, 0x09u8), (R1_20_5, 0x0Au8), (R1_21_2, 0x0Cu8)],
        (ProtocolState::Game, ClientPacketType::UnsignedClientCommand) => seq![(R1_20_5, 0x04u8), (R1_21_2, 0x05u8)],
        (ProtocolState::Game, ClientPacketType::TabCompleteRequest) => seq![(R1_8, 0x14u8), (R1_9, 0x01u8), (R1_12, 0x02u8), (R1_12_1, 0x01u8), (R1_13, 0x05u8), (R1_14, 0x06u8), (R1_19, 0x08u8), (R1_19_1, 0x09u8), (R1_19_3, 0x08u8), (R1_19_4, 0x09u8), (R1_20_2, 0x0Au8), (R1_20_5, 0x0Bu8), (R1_21_2, 0x0Du8)],
        (ProtocolState::Game, ClientPacketType::ConfigurationAck) => seq![(R1_20_2, 0x0Bu8), (R1_20_5, 0x0Cu8), (R1_21_2, 0x0Eu8)],
        (ProtocolState::Game, ClientPacketType::ClientCustomPayload) => seq![(R1_8, 0x17u8), (R1_9, 0x09u8), (R1_12, 0x0Au8), (R1_12_1, 0x09u8), (R1_13, 0x0Au8), (R1_14, 0x0Bu8), (R1_17, 0x0Au8), (R1_19, 0x0Cu8), (R1_19_1, 0x0Du8), (R1_19_3, 0x0Cu8), (R1_19_4, 0x0Du8), (R1_20_2, 0x0Fu8), (R1_20_3, 0x10u8), (R1_20_5, 0x12u8), (R1_21_2, 0x14u8)],
        _ => Seq::empty(),
    }
}

/// The declared ids of a client-bound packet type in a state.
fn client_decl_exec(state: ProtocolState, t: ClientPacketType) -> (r: Vec<(i32, u8)>)
    ensures
        r@ == client_decl(state, t),
{
    let r: Vec<(i32, u8)> = match (state, t) {
        (ProtocolState::Handshake, ClientPacketType::Handshake) => vec![(R1_8, 0x00u8)],
        (ProtocolState::Login, ClientPacketType::LoginRequest) => vec![(R1_8, 0x00u8)],
        (ProtocolState::Login, ClientPacketType::EncryptionResponse) => vec![(R1_8, 0x01u8)],
        (ProtocolState::Login, ClientPacketType::LoginPluginResponse) => vec![(R1_13, 0x02u8)],
        (ProtocolState::Login, ClientPacketType::LoginAcknowledged) => vec![(R1_20_2, 0x03u8)],
        (ProtocolState::Login, ClientPacketType::CookieResponse) => vec![(R1_20_5, 0x04u8)],
        (ProtocolState::Config, ClientPacketType::ClientSettings) => vec![(R1_20_2, 0x00u8)],
        (ProtocolState::Config, ClientPacketType::ClientCustomPayload) => vec![(R1_20_2, 0x01u8), (R1_20_5, 0x02u8)],
        (ProtocolState::Config, ClientPacketType::FinishConfiguration) => vec![(R1_20_2, 0x02u8), (R1_20_5, 0x03u8)],
        (ProtocolState::Game, ClientPacketType::ClientSettings) => vec![(R1_19_4, 0x08u8), (R1_20_2, 0x09u8), (R1_20_5, 0x0Au8), (R1_21_2, 0x0Cu8)],
        (ProtocolState::Game, ClientPacketType::UnsignedClientCommand) => vec![(R1_20_5, 0x04u8), (R1_21_2, 0x05u8)],
        (ProtocolState::Game, ClientPacketType::TabCompleteRequest) => vec![(R1_8, 0x14u8), (R1_9, 0x01u8), (R1_12, 0x02u8), (R1_12_1, 0x01u8), (R1_13, 0x05u8), (R1_14, 0x06u8), (R1_19, 0x08u8), (R1_19_1, 0x09u8), (R1_19_3, 0x08u8), (R1_19_4, 0x09u8), (R1_20_2, 0x0Au8), (R1_20_5, 0x0Bu8), (R1_21_2, 0x0Du8)],
        (ProtocolState::Game, ClientPacketType::ConfigurationAck) => vec![(R1_20_2, 0x0Bu8), (R1_20_5, 0x0Cu8), (R1_21_2, 0x0Eu8)],
        (ProtocolState::Game, ClientPacketType::ClientCustomPayload) => vec![(R1_8, 0x17u8), (R1_9, 0x09u8), (R1_12, 0x0Au8), (R1_12_1, 0x09u8), (R1_13, 0x0Au8), (R1_14, 0x0Bu8), (R1_17, 0x0Au8), (R1_19, 0x0Cu8), (R1_19_1, 0x0Du8), (R1_19_3, 0x0Cu8), (R1_19_4, 0x0Du8), (R1_20_2, 0x0Fu8), (R1_20_3, 0x10u8), (R1_20_5, 0x12u8), (R1_21_2, 0x14u8)],
        _ => Vec::new(),
    };
    proof { assert(r@ =~= client_decl(state, t)); }
    r
}

/// The id a client-bound packet type has in a state and protocol version:
/// none for versions the proxy does not support.
pub open spec fn spec_client_packet_id(state: ProtocolState, version: i32, t: ClientPacketType) -> Option<u8> {
    if supported_versions().contains(version) {
        resolve_id(client_decl(state, t), version)
    } else {
        None
    }
}

/// The protocol states in table order.
pub open spec fn state_at(i: int) -> ProtocolState {
    if i == 0 {
        ProtocolState::Handshake
    } else if i == 1 {
        ProtocolState::Login
    } else if i == 2 {
        ProtocolState::Config
    } else {
        ProtocolState::Game
    }
}

/// The table position of a protocol state.
pub open spec fn state_index(s: ProtocolState) -> int {
    match s {
        ProtocolState::Handshake => 0,
        ProtocolState::Login => 1,
        ProtocolState::Config => 2,
        ProtocolState::Game => 3,
    }
}

fn state_slot(s: ProtocolState) -> (r: usize)
    ensures
        r == state_index(s),
        r < 4,
        state_at(r as int) == s,
{
    match s {
        ProtocolState::Handshake => 0,
        ProtocolState::Login => 1,
        ProtocolState::Config => 2,
        ProtocolState::Game => 3,
    }
}

fn state_of_slot(i: usize) -> (r: ProtocolState)
    requires
        i < 4,
    ensures
        r == state_at(i as int),
{
    if i == 0 {
        ProtocolState::Handshake
    } else if i == 1 {
        ProtocolState::Login
    } else if i == 2 {
        ProtocolState::Config
    } else {
        ProtocolState::Game
    }
}

/// The server-bound packet types in table order.
pub open spec fn server_type_at(i: int) -> ServerPacketType {
    if i == 0 {
        ServerPacketType::LoginDisconnect
    } else if i == 1 {
        ServerPacketType::EncryptionRequest
    } else if i == 2 {
        ServerPacketType::LoginPluginRequest
    } else if i == 3 {
        ServerPacketType::CookieRequest
    } else if i == 4 {
        ServerPacketType::LoginSuccess
    } else if i == 5 {
        ServerPacketType::SetCompression
    } else if i == 6 {
        ServerPacketType::StartConfiguration
    } else if i == 7 {
        ServerPacketType::Kick
    } else if i == 8 {
        ServerPacketType::ServerCustomPayload
    } else if i == 9 {
        ServerPacketType::FinishConfiguration
    } else if i == 10 {
        ServerPacketType::BundleDelimiter
    } else if i == 11 {
        ServerPacketType::SystemChatMessage
    } else if i == 12 {
        ServerPacketType::Commands
    } else {
        ServerPacketType::TabCompleteResponse
    }
}

/// The table position of a server-bound packet type.
pub open spec fn server_type_index(t: ServerPacketType) -> int {
    match t {
        ServerPacketType::LoginDisconnect => 0,
        ServerPacketType::EncryptionRequest => 1,
        ServerPacketType::LoginPluginRequest => 2,
        ServerPacketType::CookieRequest => 3,
        ServerPacketType::LoginSuccess => 4,
        ServerPacketType::SetCompression => 5,
        ServerPacketType::StartConfiguration => 6,
        ServerPacketType::Kick => 7,
        ServerPacketType::ServerCustomPayload => 8,
        ServerPacketType::FinishConfiguration => 9,
        ServerPacketType::BundleDelimiter => 10,
        ServerPacketType::SystemChatMessage => 11,
        ServerPacketType::Commands => 12,
        ServerPacketType::TabCompleteResponse => 13,
    }
}

fn server_type_slot(t: ServerPacketType) -> (r: usize)
    ensures
        r == server_type_index(t),
        r < 14,
        server_type_at(r as int) == t,
{
    match t {
        ServerPacketType::LoginDisconnect => 0,
        ServerPacketType::EncryptionRequest => 1,
        ServerPacketType::LoginPluginRequest => 2,
        ServerPacketType::CookieRequest => 3,
        ServerPacketType::LoginSuccess => 4,
        ServerPacketType::SetCompression => 5,
        ServerPacketType::StartConfiguration => 6,
        ServerPacketType::Kick => 7,
        ServerPacketType::ServerCustomPayload => 8,
        ServerPacketType::FinishConfiguration => 9,
        ServerPacketType::BundleDelimiter => 10,
        ServerPacketType::SystemChatMessage => 11,
        ServerPacketType::Commands => 12,
        ServerPacketType::TabCompleteResponse => 13,
    }
}

fn server_type_of_slot(i: usize) -> (r: ServerPacketType)
    requires
        i < 14,
    ensures
        r == server_type_at(i as int),
{
    if i == 0 {
        ServerPacketType::LoginDisconnect
    } else if i == 1 {
        ServerPacketType::EncryptionRequest
    } else if i == 2 {
        ServerPacketType::LoginPluginRequest
    } else if i == 3 {
        ServerPacketType::CookieRequest
    } else if i == 4 {
        ServerPacketType::LoginSuccess
    } else if i == 5 {
        ServerPacketType::SetCompression
    } else if i == 6 {
        ServerPacketType::StartConfiguration
    } else if i == 7 {
        ServerPacketType::Kick
    } else if i == 8 {
        ServerPacketType::ServerCustomPayload
    } else if i == 9 {
        ServerPacketType::FinishConfiguration
    } else if i == 10 {
        ServerPacketType::BundleDelimiter
    } else if i == 11 {
        ServerPacketType::SystemChatMessage
    } else if i == 12 {
        ServerPacketType::Commands
    } else {
        ServerPacketType::TabCompleteResponse
    }
}

/// The client-bound packet types in table order.
pub open spec fn client_type_at(i: int) -> ClientPacketType {
    if i == 0 {
        ClientPacketType::Handshake
    } else if i == 1 {
        ClientPacketType::LoginRequest
    } else if i == 2 {
        ClientPacketType::EncryptionResponse
    } else if i == 3 {
        ClientPacketType::LoginPluginResponse
    } else if i == 4 {
        ClientPacketType::CookieResponse
    } else if i == 5 {
        ClientPacketType::LoginAcknowledged
    } else if i == 6 {
        ClientPacketType::ClientCustomPayload
    } else if i == 7 {
        ClientPacketType::ConfigurationAck
    } else if i == 8 {
        ClientPacketType::FinishConfiguration
    } else if i == 9 {
        ClientPacketType::ClientSettings
    } else if i == 10 {
        ClientPacketType::UnsignedClientCommand
    } else {
        ClientPacketType::TabCompleteRequest
    }
}

/// The table position of a client-bound packet type.
pub open spec fn client_type_index(t: ClientPacketType) -> int {
    match t {
        ClientPacketType::Handshake => 0,
        ClientPacketType::LoginRequest => 1,
        ClientPacketType::EncryptionResponse => 2,
        ClientPacketType::LoginPluginResponse => 3,
        ClientPacketType::CookieResponse => 4,
        ClientPacketType::LoginAcknowledged => 5,
        ClientPacketType::ClientCustomPayload => 6,
        ClientPacketType::ConfigurationAck => 7,
        ClientPacketType::FinishConfiguration => 8,
        ClientPacketType::ClientSettings => 9,
        ClientPacketType::UnsignedClientCommand => 10,
        ClientPacketType::TabCompleteRequest => 11,
    }
}

fn client_type_slot(t: ClientPacketType) -> (r: usize)
    ensures
        r == client_type_index(t),
        r < 12,
        client_type_at(r as int) == t,
{
    match t {
        ClientPacketType::Handshake => 0,
        ClientPacketType::LoginRequest => 1,
        ClientPacketType::EncryptionResponse => 2,
        ClientPacketType::LoginPluginResponse => 3,
        ClientPacketType::CookieResponse => 4,
        ClientPacketType::LoginAcknowledged => 5,
        ClientPacketType::ClientCustomPayload => 6,
        ClientPacketType::ConfigurationAck => 7,
        ClientPacketType::FinishConfiguration => 8,
        ClientPacketType::ClientSettings => 9,
        ClientPacketType::UnsignedClientCommand => 10,
        ClientPacketType::TabCompleteRequest => 11,
    }
}

fn client_type_of_slot(i: usize) -> (r: ClientPacketType)
    requires
        i < 12,
    ensures
        r == client_type_at(i as int),
{
    if i == 0 {
        ClientPacketType::Handshake
    } else if i == 1 {
        ClientPacketType::LoginRequest
    } else if i == 2 {
        ClientPacketType::EncryptionResponse
    } else if i == 3 {
        ClientPacketType::LoginPluginResponse
    } else if i == 4 {
        ClientPacketType::CookieResponse
    } else if i == 5 {
        ClientPacketType::LoginAcknowledged
    } else if i == 6 {
        ClientPacketType::ClientCustomPayload
    } else if i == 7 {
        ClientPacketType::ConfigurationAck
    } else if i == 8 {
        ClientPacketType::FinishConfiguration
    } else if i == 9 {
        ClientPacketType::ClientSettings
    } else if i == 10 {
        ClientPacketType::UnsignedClientCommand
    } else {
        ClientPacketType::TabCompleteRequest
    }
}

/// The position of a protocol number among the supported ones.
fn supported_slot(version: i32) -> (r: Option<usize>)
    ensures
        r matches Some(i) ==> i < supported_versions().len() && supported_versions()[i as int] == version,
        r is None ==> !supported_versions().contains(version),
{
    let supported = supported_version_numbers();
    let mut i: usize = 0;
    while i < supported.len()
        invariant
            supported@ == supported_versions(),
            i <= supported@.len(),
            forall|j: int| 0 <= j < i ==> supported@[j] != version,
        decreases supported.len() - i,
    {
        if supported[i] == version {
            return Some(i);
        }
        i = i + 1;
    }
    None
}

/// A server id grid holds, for every supported version, protocol state and
/// packet type (in table order), the id that type has there.
pub open spec fn server_grid_ok(g: Seq<Vec<Vec<Option<u8>>>>) -> bool {
    &&& g.len() == supported_versions().len()
    &&& forall|vi: int| 0 <= vi < g.len() ==> (#[trigger] g[vi])@.len() == 4
    &&& forall|vi: int, si: int| 0 <= vi < g.len() && 0 <= si < 4 ==> (#[trigger] g[vi]@[si])@.len() == 14
    &&& forall|vi: int, si: int, ti: int|
        0 <= vi < g.len() && 0 <= si < 4 && 0 <= ti < 14 ==> #[trigger] g[vi]@[si]@[ti] == spec_server_packet_id(
            state_at(si),
            supported_versions()[vi],
            server_type_at(ti),
        )
}

/// A client id grid holds, for every supported version, protocol state and
/// packet type (in table order), the id that type has there.
pub open spec fn client_grid_ok(g: Seq<Vec<Vec<Option<u8>>>>) -> bool {
    &&& g.len() == supported_versions().len()
    &&& forall|vi: int| 0 <= vi < g.len() ==> (#[trigger] g[vi])@.len() == 4
    &&& forall|vi: int, si: int| 0 <= vi < g.len() && 0 <= si < 4 ==> (#[trigger] g[vi]@[si])@.len() == 12
    &&& forall|vi: int, si: int, ti: int|
        0 <= vi < g.len() && 0 <= si < 4 && 0 <= ti < 12 ==> #[trigger] g[vi]@[si]@[ti] == spec_client_packet_id(
            state_at(si),
            supported_versions()[vi],
            client_type_at(ti),
        )
}

/// The ids of every server-bound packet type in one state and version.
fn server_row(state: ProtocolState, version: i32) -> (r: Vec<Option<u8>>)
    ensures
        r@.len() == 14,
        forall|ti: int| 0 <= ti < 14 ==> #[trigger] r@[ti] == resolve_id(server_decl(state, server_type_at(ti)), version),
{
    let mut r: Vec<Option<u8>> = Vec::new();
    let mut ti: usize = 0;
    while ti < 14
        invariant
            ti <= 14,
            r@.len() == ti,
            forall|j: int| 0 <= j < ti ==> #[trigger] r@[j] == resolve_id(server_decl(state, server_type_at(j)), version),
        decreases 14 - ti,
    {
        let decl = server_decl_exec(state, server_type_of_slot(ti));
        r.push(resolve_exec(&decl, version));
        ti = ti + 1;
    }
    r
}

/// The ids of every client-bound packet type in one state and version.
fn client_row(state: ProtocolState, version: i32) -> (r: Vec<Option<u8>>)
    ensures
        r@.len() == 12,
        forall|ti: int| 0 <= ti < 12 ==> #[trigger] r@[ti] == resolve_id(client_decl(state, client_type_at(ti)), version),
{
    let mut r: Vec<Option<u8>> = Vec::new();
    let mut ti: usize = 0;
    while ti < 12
        invariant
            ti <= 12,
            r@.len() == ti,
            forall|j: int| 0 <= j < ti ==> #[trigger] r@[j] == resolve_id(client_decl(state, client_type_at(j)), version),
        decreases 12 - ti,
    {
        let decl = client_decl_exec(state, client_type_of_slot(ti));
        r.push(resolve_exec(&decl, version));
        ti = ti + 1;
    }
    r
}

/// Builds the server id grid over every supported version and state.
fn build_server_grid() -> (g: Vec<Vec<Vec<Option<u8>>>>)
    ensures
        server_grid_ok(g@),
{
    let versions = supported_version_numbers();
    let mut g: Vec<Vec<Vec<Option<u8>>>> = Vec::new();
    let mut vi: usize = 0;
    while vi < versions.len()
        invariant
            versions@ == supported_versions(),
            vi <= versions@.len(),
            g@.len() == vi,
            forall|v: int| 0 <= v < vi ==> (#[trigger] g@[v])@.len() == 4,
            forall|v: int, si: int| 0 <= v < vi && 0 <= si < 4 ==> (#[trigger] g@[v]@[si])@.len() == 14,
            forall|v: int, si: int, ti: int|
                0 <= v < vi && 0 <= si < 4 && 0 <= ti < 14 ==> #[trigger] g@[v]@[si]@[ti] == spec_server_packet_id(
                    state_at(si),
                    supported_versions()[v],
                    server_type_at(ti),
                ),
        decreases versions.len() - vi,
    {
        let version = versions[vi];
        assert(supported_versions().contains(version)) by {
            assert(supported_versions()[vi as int] == version);
        }
        let mut per_state: Vec<Vec<Option<u8>>> = Vec::new();
        let mut si: usize = 0;
        while si < 4
            invariant
                versions@ == supported_versions(),
                vi < versions@.len(),
                version == supported_versions()[vi as int],
                supported_versions().contains(version),
                si <= 4,
                per_state@.len() == si,
                forall|s: int| 0 <= s < si ==> (#[trigger] per_state@[s])@.len() == 14,
                forall|s: int, ti: int|
                    0 <= s < si && 0 <= ti < 14 ==> #[trigger] per_state@[s]@[ti] == spec_server_packet_id(
                        state_at(s),
                        version,
                        server_type_at(ti),
                    ),
            decreases 4 - si,
        {
            let row = server_row(state_of_slot(si), version);
            per_state.push(row);
            si = si + 1;
        }
        g.push(per_state);
        vi = vi + 1;
    }
    g
}

/// Builds the client id grid over every supported version and state.
fn build_client_grid() -> (g: Vec<Vec<Vec<Option<u8>>>>)
    ensures
        client_grid_ok(g@),
{
    let versions = supported_version_numbers();
    let mut g: Vec<Vec<Vec<Option<u8>>>> = Vec::new();
    let mut vi: usize = 0;
    while vi < versions.len()
        invariant
            versions@ == supported_versions(),
            vi <= versions@.len(),
            g@.len() == vi,
            forall|v: int| 0 <= v < vi ==> (#[trigger] g@[v])@.len() == 4,
            forall|v: int, si: int| 0 <= v < vi && 0 <= si < 4 ==> (#[trigger] g@[v]@[si])@.len() == 12,
            forall|v: int, si: int, ti: int|
                0 <= v < vi && 0 <= si < 4 && 0 <= ti < 12 ==> #[trigger] g@[v]@[si]@[ti] == spec_client_packet_id(
                    state_at(si),
                    supported_versions()[v],
                    client_type_at(ti),
                ),
        decreases versions.len() - vi,
    {
        let version = versions[vi];
        assert(supported_versions().contains(version)) by {
            assert(supported_versions()[vi as int] == version);
        }
        let mut per_state: Vec<Vec<Option<u8>>> = Vec::new();
        let mut si: usize = 0;
        while si < 4
            invariant
                versions@ == supported_versions(),
                vi < versions@.len(),
                version == supported_versions()[vi as int],
                supported_versions().contains(version),
                si <= 4,
                per_state@.len() == si,
                forall|s: int| 0 <= s < si ==> (#[trigger] per_state@[s])@.len() == 12,
                forall|s: int, ti: int|
                    0 <= s < si && 0 <= ti < 12 ==> #[trigger] per_state@[s]@[ti] == spec_client_packet_id(
                        state_at(s),
                        version,
                        client_type_at(ti),
                    ),
            decreases 4 - si,
        {
            let row = client_row(state_of_slot(si), version);
            per_state.push(row);
            si = si + 1;
        }
        g.push(per_state);
        vi = vi + 1;
    }
    g
}

/// The id tables of every packet type in every supported version.
pub struct PacketRegistry {
    server_packet_ids: Vec<Vec<Vec<Option<u8>>>>,
    client_packet_ids: Vec<Vec<Vec<Option<u8>>>>,
}

impl PacketRegistry {
    /// The tables hold exactly the ids the declarations give.
    pub closed spec fn wf(&self) -> bool {
        &&& server_grid_ok(self.server_packet_ids@)
        &&& client_grid_ok(self.client_packet_ids@)
    }

    /// The registry, built from the declarations.
    pub fn instance() -> (r: PacketRegistry)
        ensures
            r.wf(),
    {
        Self::new()
    }

    fn new() -> (r: PacketRegistry)
        ensures
            r.wf(),
    {
        let mut registry = PacketRegistry { server_packet_ids: Vec::new(), client_packet_ids: Vec::new() };
        registry.register_packets();
        registry
    }

    /// Fills the tables: for every supported version, every state and every
    /// packet type, the id of the last declaration that holds at that
    /// version.
    fn register_packets(&mut self)
        ensures
            final(self).wf(),
    {
        self.server_packet_ids = build_server_grid();
        self.client_packet_ids = build_client_grid();
    }

    /// The id of a packet the proxy sends to clients, in a state and version.
    pub fn get_server_packet_id(&self, state: ProtocolState, version: i32, packet_type: ServerPacketType) -> (r: Option<i32>)
        requires
            self.wf(),
        ensures
            r == match spec_server_packet_id(state, version, packet_type) {
                Some(id) => Some(id as i32),
                None => None::<i32>,
            },
    {
        match supported_slot(version) {
            None => None,
            Some(vi) => {
                let si = state_slot(state);
                let ti = server_type_slot(packet_type);
                match self.server_packet_ids[vi][si][ti] {
                    Some(id) => Some(id as i32),
                    None => None,
                }
            },
        }
    }

    /// The type of a packet the proxy receives from servers, by its id.
    pub fn get_server_packet_type(&self, state: ProtocolState, version: i32, packet_id: i32) -> (r: Option<ServerPacketType>)
        requires
            self.wf(),
        ensures
            r matches Some(t) ==> 0 <= packet_id < 256 && spec_server_packet_id(state, version, t) == Some(packet_id as u8),
            r is None ==> !(0 <= packet_id < 256) || forall|t: ServerPacketType|
                spec_server_packet_id(state, version, t) != Some(packet_id as u8),
    {
        if packet_id < 0 || packet_id >= 256 {
            return None;
        }
        match supported_slot(version) {
            None => None,
            Some(vi) => {
                let si = state_slot(state);
                let row = &self.server_packet_ids[vi][si];
                let mut ti: usize = 0;
                while ti < 14
                    invariant
                        0 <= packet_id < 256,
                        row@.len() == 14,
                        ti <= 14,
                        forall|j: int| 0 <= j < 14 ==> #[trigger] row@[j] == spec_server_packet_id(state, version, server_type_at(j)),
                        forall|j: int| 0 <= j < ti ==> row@[j] != Some(packet_id as u8),
                    decreases 14 - ti,
                {
                    if let Some(id) = row[ti] {
                        if id as i32 == packet_id {
                            return Some(server_type_of_slot(ti));
                        }
                    }
                    ti = ti + 1;
                }
                proof {
                    assert forall|t: ServerPacketType| spec_server_packet_id(state, version, t) != Some(packet_id as u8) by {
                        assert(server_type_at(server_type_index(t)) == t);
                        assert(row@[server_type_index(t)] == spec_server_packet_id(state, version, t));
                    }
                }
                None
            },
        }
    }

    /// The id of a packet clients send, in a state and version.
    pub fn get_client_packet_id(&self, state: ProtocolState, version: i32, packet_type: ClientPacketType) -> (r: Option<i32>)
        requires
            self.wf(),
        ensures
            r == match spec_client_packet_id(state, version, packet_type) {
                Some(id) => Some(id as i32),
                None => None::<i32>,
            },
    {
        match supported_slot(version) {
            None => None,
            Some(vi) => {
                let si = state_slot(state);
                let ti = client_type_slot(packet_type);
                match self.client_packet_ids[vi][si][ti] {
                    Some(id) => Some(id as i32),
                    None => None,
                }
            },
        }
    }

    /// The type of a packet a client sends, by its id.
    pub fn get_client_packet_type(&self, state: ProtocolState, version: i32, packet_id: i32) -> (r: Option<ClientPacketType>)
        requires
            self.wf(),
        ensures
            r matches Some(t) ==> 0 <= packet_id < 256 && spec_client_packet_id(state, version, t) == Some(packet_id as u8),
            r is None ==> !(0 <= packet_id < 256) || forall|t: ClientPacketType|
                spec_client_packet_id(state, version, t) != Some(packet_id as u8),
    {
        if packet_id < 0 || packet_id >= 256 {
            return None;
        }
        match supported_slot(version) {
            None => None,
            Some(vi) => {
                let si = state_slot(state);
                let row = &self.client_packet_ids[vi][si];
                let mut ti: usize = 0;
                while ti < 12
                    invariant
                        0 <= packet_id < 256,
                        row@.len() == 12,
                        ti <= 12,
                        forall|j: int| 0 <= j < 12 ==> #[trigger] row@[j] == spec_client_packet_id(state, version, client_type_at(j)),
                        forall|j: int| 0 <= j < ti ==> row@[j] != Some(packet_id as u8),
                    decreases 12 - ti,
                {
                    if let Some(id) = row[ti] {
                        if id as i32 == packet_id {
                            return Some(client_type_of_slot(ti));
                        }
                    }
                    ti = ti + 1;
                }
                proof {
                    assert forall|t: ClientPacketType| spec_client_packet_id(state, version, t) != Some(packet_id as u8) by {
                        assert(client_type_at(client_type_index(t)) == t);
                        assert(row@[client_type_index(t)] == spec_client_packet_id(state, version, t));
                    }
                }
                None
            },
        }
    }
}

/// Every supported protocol number is one of the six from 1.20.2 on.
proof fn lemma_supported_cases(version: i32)
    requires
        supported_versions().contains(version),
    ensures
        version == R1_20_2 || version == R1_20_3 || version == R1_20_5 || version == R1_21 || version == R1_21_2
            || version == R1_21_4,
{
    let i = choose|i: int| 0 <= i < supported_versions().len() && supported_versions()[i] == version;
    assert(i == 0 || i == 1 || i == 2 || i == 3 || i == 4 || i == 5);
}

/// Law: in every protocol state and version, no two packet types the proxy
/// sends to clients share an id, so an id names one packet type.
#[verifier::rlimit(60)]
pub proof fn law_server_ids_distinct(state: ProtocolState, version: i32, a: ServerPacketType, b: ServerPacketType)
    requires
        spec_server_packet_id(state, version, a) is Some,
        spec_server_packet_id(state, version, a) == spec_server_packet_id(state, version, b),
    ensures
        a == b,
{
    reveal_with_fuel(resolve_id, 6);
    lemma_supported_cases(version);
}

/// Law: in every protocol state and version, no two packet types clients
/// send share an id, so an id names one packet type.
#[verifier::rlimit(60)]
pub proof fn law_client_ids_distinct(state: ProtocolState, version: i32, a: ClientPacketType, b: ClientPacketType)
    requires
        spec_client_packet_id(state, version, a) is Some,
        spec_client_packet_id(state, version, a) == spec_client_packet_id(state, version, b),
    ensures
        a == b,
{
    reveal_with_fuel(resolve_id, 6);
    lemma_supported_cases(version);
}


/// Law: in every supported protocol version (1.20.2 to 1.21.4), each packet
/// the proxy sends to clients has the id of the protocol's packet table
/// for that state and version: the login packets 0x00 to 0x05, the
/// configuration packets and, in game, for example the kick 0x1B before
/// 1.20.5 and 0x1D from 1.20.5 on, and the plugin message 0x18 before
/// 1.20.5 and 0x19 from then on.
#[verifier::rlimit(60)]
pub proof fn law_server_packet_table(version: i32)
    requires
        supported_versions().contains(version),
    ensures
        spec_server_packet_id(ProtocolState::Login, version, ServerPacketType::LoginDisconnect) == (Some(0x00u8)),
        spec_server_packet_id(ProtocolState::Login, version, ServerPacketType::EncryptionRequest) == (Some(0x01u8)),
        spec_server_packet_id(ProtocolState::Login, version, ServerPacketType::LoginSuccess) == (Some(0x02u8)),
        spec_server_packet_id(ProtocolState::Login, version, ServerPacketType::SetCompression) == (Some(0x03u8)),
        spec_server_packet_id(ProtocolState::Login, version, ServerPacketType::LoginPluginRequest) == (Some(0x04u8)),
        spec_server_packet_id(ProtocolState::Login, version, ServerPacketType::CookieRequest) == (if version >= R1_20_5 { Some(0x05u8) } else { None::<u8> }),
        spec_server_packet_id(ProtocolState::Config, version, ServerPacketType::CookieRequest) == (if version >= R1_20_5 { Some(0x00u8) } else { None::<u8> }),
        spec_server_packet_id(ProtocolState::Config, version, ServerPacketType::ServerCustomPayload) == (if version >= R1_20_5 { Some(0x01u8) } else { Some(0x00u8) }),
        spec_server_packet_id(ProtocolState::Config, version, ServerPacketType::Kick) == (if version >= R1_20_5 { Some(0x02u8) } else { Some(0x01u8) }),
        spec_server_packet_id(ProtocolState::Config, version, ServerPacketType::FinishConfiguration) == (if version >= R1_20_5 { Some(0x03u8) } else { Some(0x02u8) }),
        spec_server_packet_id(ProtocolState::Game, version, ServerPacketType::CookieRequest) == (if version >= R1_20_5 { Some(0x16u8) } else { None::<u8> }),
        spec_server_packet_id(ProtocolState::Game, version, ServerPacketType::ServerCustomPayload) == (if version >= R1_20_5 { Some(0x19u8) } else { Some(0x18u8) }),
        spec_server_packet_id(ProtocolState::Game, version, ServerPacketType::Kick) == (if version >= R1_20_5 { Some(0x1Du8) } else { Some(0x1Bu8) }),
        spec_server_packet_id(ProtocolState::Game, version, ServerPacketType::StartConfiguration) == (if version >= R1_21_2 { Some(0x70u8) } else { if version >= R1_20_5 { Some(0x69u8) } else { if version >= R1_20_3 { Some(0x67u8) } else { Some(0x65u8) } } }),
        spec_server_packet_id(ProtocolState::Game, version, ServerPacketType::SystemChatMessage) == (if version >= R1_21_2 { Some(0x73u8) } else { if version >= R1_20_5 { Some(0x6Cu8) } else { if version >= R1_20_3 { Some(0x69u8) } else { Some(0x67u8) } } }),
        spec_server_packet_id(ProtocolState::Game, version, ServerPacketType::BundleDelimiter) == (Some(0x00u8)),
        spec_server_packet_id(ProtocolState::Game, version, ServerPacketType::Commands) == (Some(0x11u8)),
        spec_server_packet_id(ProtocolState::Game, version, ServerPacketType::TabCompleteResponse) == (Some(0x10u8)),
{
    reveal_with_fuel(resolve_id, 6);
    lemma_supported_cases(version);
}

/// Law: in every supported protocol version (1.20.2 to 1.21.4), each packet
/// clients send has the id of the protocol's packet table for that state
/// and version.
#[verifier::rlimit(60)]
pub proof fn law_client_packet_table(version: i32)
    requires
        supported_versions().contains(version),
    ensures
        spec_client_packet_id(ProtocolState::Handshake, version, ClientPacketType::Handshake) == (Some(0x00u8)),
        spec_client_packet_id(ProtocolState::Login, version, ClientPacketType::LoginRequest) == (Some(0x00u8)),
        spec_client_packet_id(ProtocolState::Login, version, ClientPacketType::EncryptionResponse) == (Some(0x01u8)),
        spec_client_packet_id(ProtocolState::Login, version, ClientPacketType::LoginPluginResponse) == (Some(0x02u8)),
        spec_client_packet_id(ProtocolState::Login, version, ClientPacketType::LoginAcknowledged) == (Some(0x03u8)),
        spec_client_packet_id(ProtocolState::Login, version, ClientPacketType::CookieResponse) == (if version >= R1_20_5 { Some(0x04u8) } else { None::<u8> }),
        spec_client_packet_id(ProtocolState::Config, version, ClientPacketType::ClientSettings) == (Some(0x00u8)),
        spec_client_packet_id(ProtocolState::Config, version, ClientPacketType::ClientCustomPayload) == (if version >= R1_20_5 { Some(0x02u8) } else { Some(0x01u8) }),
        spec_client_packet_id(ProtocolState::Config, version, ClientPacketType::FinishConfiguration) == (if version >= R1_20_5 { Some(0x03u8) } else { Some(0x02u8) }),
        spec_client_packet_id(ProtocolState::Game, version, ClientPacketType::ClientSettings) == (if version >= R1_21_2 { Some(0x0Cu8) } else { if version >= R1_20_5 { Some(0x0Au8) } else { Some(0x09u8) } }),
        spec_client_packet_id(ProtocolState::Game, version, ClientPacketType::UnsignedClientCommand) == (if version >= R1_21_2 { Some(0x05u8) } else { if version >= R1_20_5 { Some(0x04u8) } else { None::<u8> } }),
        spec_client_packet_id(ProtocolState::Game, version, ClientPacketType::TabCompleteRequest) == (if version >= R1_21_2 { Some(0x0Du8) } else { if version >= R1_20_5 { Some(0x0Bu8) } else { Some(0x0Au8) } }),
        spec_client_packet_id(ProtocolState::Game, version, ClientPacketType::ConfigurationAck) == (if version >= R1_21_2 { Some(0x0Eu8) } else { if version >= R1_20_5 { Some(0x0Cu8) } else { Some(0x0Bu8) } }),
        spec_client_packet_id(ProtocolState::Game, version, ClientPacketType::ClientCustomPayload) == (if version >= R1_21_2 { Some(0x14u8) } else { if version >= R1_20_5 { Some(0x12u8) } else { if version >= R1_20_3 { Some(0x10u8) } else { Some(0x0Fu8) } } }),
{
    reveal_with_fuel(resolve_id, 6);
    lemma_supported_cases(version);
}

} // verus!

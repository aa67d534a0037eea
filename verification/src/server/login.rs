//! The decisions of a connection before proxying starts: checking the
//! handshake, answering a status ping, the steps of a player's login, and
//! the steps of the proxy's own login to a backend server.
//!
//! Each step is a function from what was read (and the state so far) to
//! what to do next; the caller reads and writes the socket, runs the
//! cryptography, and asks the session server.
use rsa::pkcs8::DecodePrivateKey;
use vstd::prelude::*;

use crate::auth::{GameProfile, Property};
use crate::server::packet_ids::{ClientPacketType, ServerPacketType};
use crate::server::packets::{
    byte_field, handshake_decode, login_success_decode, properties_fields, set_compression_decode,
    encryption_request_decode, login_plugin_request_decode, varint_field, CookieRequest, CookieResponse,
    EncryptionRequest, Handshake, LoginPluginRequest, LoginPluginResponse, LoginSuccess, Packet, SetCompression,
    PROTOCOL_STATE_LOGIN, PROTOCOL_STATE_STATUS, PROTOCOL_STATE_TRANSFER,
};
use crate::util::{
    generate_uuid, lemma_varint_decode_len, md5_digest, md5_uuid_bytes, offline_player_key, push_str, string_bytes,
    string_decode, u64_be, uuid_text, varint_bytes, write_u64_be, ByteReader, EncodingHelper, IoError, VarInt,
};
use crate::version::{is_supported, supported_versions, R1_20_2};

verus! {

// ---------------------------------------------------------------------------
// Handshake
// ---------------------------------------------------------------------------

/// The shortest handshake frame the proxy reads.
pub const HANDSHAKE_MIN_LENGTH: i32 = 6;

/// The longest handshake frame the proxy reads.
pub const HANDSHAKE_MAX_LENGTH: i32 = 1000;

/// The reason a client of an unsupported version is sent away with.
pub const UNSUPPORTED_VERSION_MESSAGE: &'static str = "§cUnsupported protocol version";

/// Whether the length of a handshake frame is acceptable.
pub fn handshake_length_ok(length: i32) -> (r: bool)
    ensures
        r == (HANDSHAKE_MIN_LENGTH <= length <= HANDSHAKE_MAX_LENGTH),
{
    HANDSHAKE_MIN_LENGTH <= length && length <= HANDSHAKE_MAX_LENGTH
}

/// Reading a handshake frame: the packet id, which must be 0, then the
/// handshake.
pub open spec fn handshake_frame_decode(s: Seq<u8>) -> Result<(i32, Seq<char>, u16, i32), IoError> {
    match varint_field(s) {
        Err(e) => Err(e),
        Ok((id, n)) => if id != 0 {
            Err(IoError::InvalidData)
        } else {
            match handshake_decode(s.skip(n as int)) {
                Err(e) => Err(e),
                Ok((v, host, port, ns, _)) => Ok((v, host, port, ns)),
            }
        },
    }
}

/// Reads the handshake from its frame.
pub fn read_handshake(frame: &[u8]) -> (r: Result<Handshake, IoError>)
    ensures
        match handshake_frame_decode(frame@) {
            Ok((v, host, port, ns)) => r matches Ok(h) && h.version == v && h.host@ == host && h.port == port
                && h.next_state == ns,
            Err(e) => r == Err::<Handshake, IoError>(e),
        },
{
    let mut reader = ByteReader::new(frame);
    proof { lemma_varint_decode_len(frame@, 5); }
    let id = VarInt::decode(&mut reader, 5)?.get();
    if id != 0 {
        return Err(IoError::InvalidData);
    }
    Handshake::decode(&mut reader, 0)
}

/// Where a handshake leads.
#[derive(Debug, Clone, Copy, PartialEq, Eq, Structural)]
pub enum HandshakeOutcome {
    /// The client asks for the server status.
    Status,
    /// The client logs in (or was transferred) with a supported version.
    Login,
    /// The client would log in with a version the proxy does not support:
    /// it is sent away with `UNSUPPORTED_VERSION_MESSAGE`.
    UnsupportedVersion,
    /// The handshake asks for no known state.
    InvalidState,
}

/// Where a handshake leads.
pub open spec fn spec_handshake_outcome(version: i32, next_state: i32) -> HandshakeOutcome {
    if next_state == PROTOCOL_STATE_LOGIN || next_state == PROTOCOL_STATE_TRANSFER {
        if supported_versions().contains(version) {
            HandshakeOutcome::Login
        } else {
            HandshakeOutcome::UnsupportedVersion
        }
    } else if next_state == PROTOCOL_STATE_STATUS {
        HandshakeOutcome::Status
    } else {
        HandshakeOutcome::InvalidState
    }
}

/// Where a handshake leads.
pub fn handshake_outcome(handshake: &Handshake) -> (r: HandshakeOutcome)
    ensures
        r == spec_handshake_outcome(handshake.version, handshake.next_state),
{
    if handshake.next_state == PROTOCOL_STATE_LOGIN || handshake.next_state == PROTOCOL_STATE_TRANSFER {
        if is_supported(handshake.version) {
            HandshakeOutcome::Login
        } else {
            HandshakeOutcome::UnsupportedVersion
        }
    } else if handshake.next_state == PROTOCOL_STATE_STATUS {
        HandshakeOutcome::Status
    } else {
        HandshakeOutcome::InvalidState
    }
}

// ---------------------------------------------------------------------------
// Status
// ---------------------------------------------------------------------------

/// Where a status exchange is: waiting for the status request, or for the
/// ping that ends it.
#[derive(Debug, Clone, Copy, PartialEq, Eq, Structural)]
pub enum StatusPhase {
    Request,
    Ping,
}

/// What to answer in a status exchange.
#[derive(Debug, Clone, Copy, PartialEq, Eq, Structural)]
pub enum StatusAction {
    /// Send the status (then wait for the ping).
    SendStatus,
    /// Read the ping's time, send it back, and end the exchange.
    SendPong,
}

/// What a status packet of this length and id asks for in a phase: a
/// status request (id 0, length 1) once, then a ping (id 1, length 9).
pub open spec fn spec_status_step(phase: StatusPhase, length: i32, id: u8) -> Result<StatusAction, IoError> {
    if length != 1 && length != 9 {
        Err(IoError::InvalidData)
    } else if id == 0 {
        if phase == StatusPhase::Ping {
            Err(IoError::InvalidData)
        } else {
            Ok(StatusAction::SendStatus)
        }
    } else if id == 1 {
        if phase == StatusPhase::Request {
            Err(IoError::InvalidData)
        } else {
            Ok(StatusAction::SendPong)
        }
    } else {
        Err(IoError::InvalidData)
    }
}

/// What a status packet of this length and id asks for in a phase.
pub fn status_step(phase: StatusPhase, length: i32, id: u8) -> (r: Result<StatusAction, IoError>)
    ensures
        r == spec_status_step(phase, length, id),
{
    if length != 1 && length != 9 {
        return Err(IoError::InvalidData);
    }
    match id {
        0 => match phase {
            StatusPhase::Ping => Err(IoError::InvalidData),
            StatusPhase::Request => Ok(StatusAction::SendStatus),
        },
        1 => match phase {
            StatusPhase::Request => Err(IoError::InvalidData),
            StatusPhase::Ping => Ok(StatusAction::SendPong),
        },
        _ => Err(IoError::InvalidData),
    }
}

/// The status response packet: id 0 and the status as JSON text.
pub fn status_response_body(json: &str) -> (r: Vec<u8>)
    ensures
        r@ == varint_bytes(0) + string_bytes(json@),
{
    let mut out: Vec<u8> = Vec::new();
    let _ = VarInt(0).encode(&mut out, 5);
    let _ = EncodingHelper::write_string(&mut out, json);
    out
}

/// The pong packet: id 1 and the time the ping carried.
pub fn pong_body(time: u64) -> (r: Vec<u8>)
    ensures
        r@ == varint_bytes(1) + u64_be(time),
{
    let mut out: Vec<u8> = Vec::new();
    let _ = VarInt(1).encode(&mut out, 5);
    write_u64_be(&mut out, time);
    out
}

/// A packet with its length in front, as it goes on the wire uncompressed.
pub fn frame_packet(body: &[u8]) -> (r: Vec<u8>)
    ensures
        r@ == varint_bytes((body@.len() as i32) as u32) + body@,
{
    let mut out: Vec<u8> = Vec::new();
    let len = body.len() as i32;
    proof { crate::util::law_varint_size(len); }
    let _ = VarInt(len).encode(&mut out, 5);
    out.extend_from_slice(body);
    out
}

// ---------------------------------------------------------------------------
// A player's login
// ---------------------------------------------------------------------------

/// The reason a player with an invalid name is sent away with.
pub const INVALID_USERNAME_MESSAGE: &'static str = "§cInvalid username";

/// The reason a player whose shared secret is not sixteen bytes is sent
/// away with.
pub const INVALID_SECRET_MESSAGE: &'static str = "§cInvalid shared secret";

/// The reason a player whose verify token does not match is sent away with.
pub const INVALID_TOKEN_MESSAGE: &'static str = "§cInvalid verify token";

/// Where a player's login is: waiting for the login start, for the
/// encryption response, or for the acknowledgement of the login success.
#[derive(Debug, Clone, Copy, PartialEq, Eq, Structural)]
pub enum LoginState {
    Request,
    Encryption,
    LoginAck,
}

/// Which packet a login step reads.
#[derive(Debug, Clone, Copy, PartialEq, Eq, Structural)]
pub enum LoginExpect {
    Request,
    EncryptionResponse,
    Acknowledged,
}

/// What a login packet of a type is in a state: the packet the state waits
/// for, or an error (any other packet, or none the registry knows).
pub open spec fn spec_login_expect(state: LoginState, packet_type: Option<ClientPacketType>) -> Result<LoginExpect, IoError> {
    match packet_type {
        Some(ClientPacketType::LoginRequest) => if state == LoginState::Request {
            Ok(LoginExpect::Request)
        } else {
            Err(IoError::InvalidData)
        },
        Some(ClientPacketType::EncryptionResponse) => if state == LoginState::Encryption {
            Ok(LoginExpect::EncryptionResponse)
        } else {
            Err(IoError::InvalidData)
        },
        Some(ClientPacketType::LoginAcknowledged) => if state == LoginState::LoginAck {
            Ok(LoginExpect::Acknowledged)
        } else {
            Err(IoError::InvalidData)
        },
        _ => Err(IoError::InvalidData),
    }
}

/// What a login packet of a type is in a state.
pub fn login_expect(state: LoginState, packet_type: Option<ClientPacketType>) -> (r: Result<LoginExpect, IoError>)
    ensures
        r == spec_login_expect(state, packet_type),
{
    match packet_type {
        Some(ClientPacketType::LoginRequest) => if state == LoginState::Request {
            Ok(LoginExpect::Request)
        } else {
            Err(IoError::InvalidData)
        },
        Some(ClientPacketType::EncryptionResponse) => if state == LoginState::Encryption {
            Ok(LoginExpect::EncryptionResponse)
        } else {
            Err(IoError::InvalidData)
        },
        Some(ClientPacketType::LoginAcknowledged) => if state == LoginState::LoginAck {
            Ok(LoginExpect::Acknowledged)
        } else {
            Err(IoError::InvalidData)
        },
        _ => Err(IoError::InvalidData),
    }
}

/// The UUID text of an offline player with this name.
pub open spec fn offline_id(name: Seq<char>) -> Seq<char> {
    uuid_text(md5_uuid_bytes(md5_digest(offline_player_key(name))))
}

/// The profile of a player in offline mode: the name-based UUID, the name,
/// no properties.
pub fn offline_profile(name: &str) -> (r: GameProfile)
    ensures
        r.id@ == offline_id(name@),
        r.name@ == name@,
        r.properties@.len() == 0,
{
    let id = generate_uuid(name).to_hyphenated_string();
    GameProfile { id, name: name.to_owned(), properties: Vec::new() }
}

/// How a login goes on after the login start.
#[derive(Debug)]
pub enum LoginPlan {
    /// Ask for encryption; in offline mode the profile is known already.
    RequestEncryption(Option<GameProfile>),
    /// Finish the login at once with this profile.
    Finish(GameProfile),
}

/// How a login goes on after a valid login start: with encryption when the
/// proxy is in online mode or encrypts offline players, else finished at
/// once; offline players get the name-based profile.
pub fn plan_login(name: &str, online_mode: bool, offline_mode_encryption: bool) -> (r: LoginPlan)
    ensures
        (online_mode || offline_mode_encryption) ==> (r matches LoginPlan::RequestEncryption(p) && (online_mode
            ==> p is None) && (!online_mode ==> (p matches Some(q) && q.id@ == offline_id(name@) && q.name@
            == name@ && q.properties@.len() == 0))),
        !(online_mode || offline_mode_encryption) ==> (r matches LoginPlan::Finish(q) && q.id@ == offline_id(name@)
            && q.name@ == name@ && q.properties@.len() == 0),
{
    if offline_mode_encryption || online_mode {
        if !online_mode {
            LoginPlan::RequestEncryption(Some(offline_profile(name)))
        } else {
            LoginPlan::RequestEncryption(None)
        }
    } else {
        LoginPlan::Finish(offline_profile(name))
    }
}

/// The shared secret, when it has the sixteen bytes a cipher key needs.
pub fn shared_secret_of(secret: &[u8]) -> (r: Option<[u8; 16]>)
    ensures
        secret@.len() == 16 ==> (r matches Some(k) && k@ == secret@),
        secret@.len() != 16 ==> r is None,
{
    if secret.len() != 16 {
        return None;
    }
    let mut key = [0u8; 16];
    let mut i: usize = 0;
    while i < 16
        invariant
            secret@.len() == 16,
            i <= 16,
            forall|j: int| 0 <= j < i ==> key@[j] == secret@[j],
        decreases 16 - i,
    {
        key[i] = secret[i];
        i = i + 1;
    }
    proof { assert(key@ =~= secret@); }
    Some(key)
}

/// Whether the verify token a client sent back is the one it was given.
pub fn verify_token_matches(expected: &[u8], got: &[u8]) -> (r: bool)
    ensures
        r == (expected@ == got@),
{
    if expected.len() != got.len() {
        return false;
    }
    let mut i: usize = 0;
    while i < expected.len()
        invariant
            expected@.len() == got@.len(),
            i <= expected@.len(),
            forall|j: int| 0 <= j < i ==> expected@[j] == got@[j],
        decreases expected.len() - i,
    {
        if expected[i] != got[i] {
            return false;
        }
        i = i + 1;
    }
    proof { assert(expected@ =~= got@); }
    true
}

/// What `rsa::RsaPrivateKey::decrypt` with `Pkcs1v15Encrypt` makes of
/// `data`, under the private key that `key_der` holds (PKCS#8 DER); `None`
/// when the key does not parse or the data does not decrypt.
pub uninterp spec fn rsa_decrypted(key_der: Seq<u8>, data: Seq<u8>) -> Option<Seq<u8>>;

/// Parses the private key from `key_der` (`RsaPrivateKey::from_pkcs8_der`)
/// and decrypts `data` with PKCS#1 v1.5 padding (`RsaPrivateKey::decrypt`,
/// which uses no random blinding).
#[verifier::external_body]
fn rsa_decrypt(key_der: &[u8], data: &[u8]) -> (r: Option<Vec<u8>>)
    ensures
        match rsa_decrypted(key_der@, data@) {
            Some(p) => r matches Some(v) && v@ == p,
            None => r is None,
        },
{
    let key = rsa::RsaPrivateKey::from_pkcs8_der(key_der).ok()?;
    key.decrypt(rsa::Pkcs1v15Encrypt, data).ok()
}

/// Why a client's encryption response is refused.
#[derive(Debug, Clone, Copy, PartialEq, Eq, Structural)]
pub enum SecretError {
    /// The shared secret or the verify token did not decrypt.
    DecryptFailed,
    /// The shared secret is not sixteen bytes.
    BadLength,
    /// The verify token is not the one the client was given.
    BadToken,
}

/// What an encryption response comes to, from the decrypted shared secret
/// and, when the client sent a verify token, the token decrypted: the
/// secret as the cipher key, or why the response is refused.  The token is
/// looked at only once the secret is known to be a key.
pub open spec fn secret_outcome(
    secret: Option<Seq<u8>>,
    token: Option<Option<Seq<u8>>>,
    expected_token: Seq<u8>,
) -> Result<Seq<u8>, SecretError> {
    match secret {
        None => Err(SecretError::DecryptFailed),
        Some(s) => if s.len() != 16 {
            Err(SecretError::BadLength)
        } else {
            match token {
                None => Ok(s),
                Some(None) => Err(SecretError::DecryptFailed),
                Some(Some(t)) => if t == expected_token {
                    Ok(s)
                } else {
                    Err(SecretError::BadToken)
                },
            }
        },
    }
}

/// The cipher key of a player's encrypted login, from the shared secret and
/// verify token of the encryption response, decrypted with the proxy's
/// private key (`private_key_der`, PKCS#8 DER), and the verify token the
/// proxy sent.
pub fn accept_encryption_response(
    private_key_der: &[u8],
    shared_secret: &[u8],
    verify_token: Option<&[u8]>,
    expected_token: &[u8],
) -> (r: Result<[u8; 16], SecretError>)
    ensures
        match secret_outcome(
            rsa_decrypted(private_key_der@, shared_secret@),
            match verify_token {
                Some(t) => Some(rsa_decrypted(private_key_der@, t@)),
                None => None,
            },
            expected_token@,
        ) {
            Ok(k) => r matches Ok(key) && key@ == k,
            Err(e) => r == Err::<[u8; 16], SecretError>(e),
        },
{
    let secret = match rsa_decrypt(private_key_der, shared_secret) {
        Some(s) => s,
        None => return Err(SecretError::DecryptFailed),
    };
    let key = match shared_secret_of(secret.as_slice()) {
        Some(k) => k,
        None => return Err(SecretError::BadLength),
    };
    match verify_token {
        None => Ok(key),
        Some(t) => match rsa_decrypt(private_key_der, t) {
            None => Err(SecretError::DecryptFailed),
            Some(d) => if verify_token_matches(expected_token, d.as_slice()) {
                Ok(key)
            } else {
                Err(SecretError::BadToken)
            },
        },
    }
}

// ---------------------------------------------------------------------------
// The proxy's login to a backend server
// ---------------------------------------------------------------------------

/// Why connecting to a backend server failed.
#[derive(Debug)]
pub enum ConnectError {
    /// The connection could not be made.
    SocketConnectError(std::io::Error),
    /// Reading or writing the connection failed.
    IO(std::io::Error),
    /// The server sent data the protocol does not allow.
    Protocol(IoError),
    /// The server refused the login, with this reason (the component's
    /// JSON text).
    Kicked(String),
    /// The server wants to authenticate players itself.
    ServerInOnlineMode,
    /// The server's public key could not be read.
    InvalidPublicKeyFormat,
}

/// A packet the proxy answers a backend with during login.
#[derive(Debug)]
pub enum BackendReply {
    PluginResponse(LoginPluginResponse),
    CookieResponse(CookieResponse),
}

/// What to do after a packet of the backend's login.
#[derive(Debug)]
pub enum BackendStep {
    /// Nothing; read the next packet.
    Continue,
    /// Send this packet, then read the next.
    Reply(BackendReply),
    /// Encrypt a fresh secret and the verify token with the server's public
    /// key, answer with them, and turn on encryption.
    Encrypt { public_key: Vec<u8>, verify_token: Vec<u8> },
    /// Compress from now on above this threshold.
    SetCompression(i32),
    /// The login is done with this profile; acknowledge it first when asked.
    Done { profile: GameProfile, acknowledge: bool },
}

/// What a login packet from a backend comes to, by its type: a refusal
/// ends the login (`Kicked` with the reason as JSON text), an encryption
/// request is refused when the server authenticates players and answered
/// otherwise, a login success ends the login (acknowledged from 1.20.2
/// on), a compression threshold is taken over, plugin requests and cookie
/// requests are answered with no data, and anything else is passed over.
pub fn backend_login_step(packet_type: Option<ServerPacketType>, src: &mut ByteReader, version: i32) -> (r: Result<
    BackendStep,
    ConnectError,
>)
    ensures
        match packet_type {
            Some(ServerPacketType::LoginDisconnect) => match string_decode(old(src).rest(), 32767) {
                Ok((t, _)) => r matches Err(ConnectError::Kicked(j)) && j@ == t,
                Err(e) => r matches Err(ConnectError::Protocol(x)) && x == e,
            },
            Some(ServerPacketType::EncryptionRequest) => match encryption_request_decode(old(src).rest(), version) {
                Ok((_, pk, vt, auth, _)) => if auth {
                    r matches Err(ConnectError::ServerInOnlineMode)
                } else {
                    r matches Ok(BackendStep::Encrypt { public_key, verify_token }) && public_key@ == pk
                        && verify_token@ == vt
                },
                Err(e) => r matches Err(ConnectError::Protocol(x)) && x == e,
            },
            Some(ServerPacketType::LoginSuccess) => match login_success_decode(old(src).rest(), version) {
                Ok((id, name, ps, _)) => r matches Ok(BackendStep::Done { profile, acknowledge }) && profile.id@ == id
                    && profile.name@ == name && properties_fields(profile.properties@) == ps && acknowledge == (version
                    >= R1_20_2),
                Err(e) => r matches Err(ConnectError::Protocol(x)) && x == e,
            },
            Some(ServerPacketType::SetCompression) => match set_compression_decode(old(src).rest()) {
                Ok((c, _)) => r matches Ok(BackendStep::SetCompression(t)) && t == c,
                Err(e) => r matches Err(ConnectError::Protocol(x)) && x == e,
            },
            Some(ServerPacketType::LoginPluginRequest) => match login_plugin_request_decode(old(src).rest()) {
                Ok((id, _, _, _)) => r matches Ok(BackendStep::Reply(BackendReply::PluginResponse(p))) && p.id == id
                    && p.data is None,
                Err(e) => r matches Err(ConnectError::Protocol(x)) && x == e,
            },
            Some(ServerPacketType::CookieRequest) => match string_decode(old(src).rest(), 32767) {
                Ok((c, _)) => r matches Ok(BackendStep::Reply(BackendReply::CookieResponse(p))) && p.cookie@ == c
                    && p.data is None,
                Err(e) => r matches Err(ConnectError::Protocol(x)) && x == e,
            },
            _ => r matches Ok(BackendStep::Continue),
        },
{
    match packet_type {
        Some(ServerPacketType::LoginDisconnect) => match crate::server::packets::LoginDisconnect::read_json(src) {
            Ok(json) => Err(ConnectError::Kicked(json)),
            Err(e) => Err(ConnectError::Protocol(e)),
        },
        Some(ServerPacketType::EncryptionRequest) => match EncryptionRequest::decode(src, version) {
            Ok(request) => {
                if request.should_authenticate {
                    Err(ConnectError::ServerInOnlineMode)
                } else {
                    Ok(BackendStep::Encrypt { public_key: request.public_key, verify_token: request.verify_token })
                }
            },
            Err(e) => Err(ConnectError::Protocol(e)),
        },
        Some(ServerPacketType::LoginSuccess) => match LoginSuccess::decode(src, version) {
            Ok(success) => Ok(BackendStep::Done { profile: success.profile, acknowledge: version >= R1_20_2 }),
            Err(e) => Err(ConnectError::Protocol(e)),
        },
        Some(ServerPacketType::SetCompression) => match SetCompression::decode(src, version) {
            Ok(p) => Ok(BackendStep::SetCompression(p.compression)),
            Err(e) => Err(ConnectError::Protocol(e)),
        },
        Some(ServerPacketType::LoginPluginRequest) => match LoginPluginRequest::decode(src, version) {
            Ok(p) => Ok(BackendStep::Reply(BackendReply::PluginResponse(LoginPluginResponse { id: p.id, data: None }))),
            Err(e) => Err(ConnectError::Protocol(e)),
        },
        Some(ServerPacketType::CookieRequest) => match CookieRequest::decode(src, version) {
            Ok(p) => Ok(BackendStep::Reply(BackendReply::CookieResponse(CookieResponse { cookie: p.cookie, data: None }))),
            Err(e) => Err(ConnectError::Protocol(e)),
        },
        _ => Ok(BackendStep::Continue),
    }
}

/// The host a handshake to a backend carries when player data is forwarded
/// the BungeeCord way: the host, the player's address and UUID, and the
/// profile properties as JSON when there are any, separated by NUL
/// characters.
pub open spec fn spec_forward_host(host: Seq<char>, ip: Seq<char>, id: Seq<char>, properties: Option<Seq<char>>) -> Seq<
    char,
> {
    host + seq!['\0'] + ip + seq!['\0'] + id + match properties {
        Some(j) => seq!['\0'] + j,
        None => Seq::empty(),
    }
}

/// The forwarded host for a handshake to a backend.
pub fn forward_host(host: &str, ip: &str, id: &str, properties_json: Option<&str>) -> (r: String)
    ensures
        r@ == spec_forward_host(host@, ip@, id@, match properties_json {
            Some(j) => Some(j@),
            None => None,
        }),
{
    let mut out = host.to_owned();
    crate::util::push_char(&mut out, '\0');
    push_str(&mut out, ip);
    crate::util::push_char(&mut out, '\0');
    push_str(&mut out, id);
    match properties_json {
        Some(j) => {
            crate::util::push_char(&mut out, '\0');
            push_str(&mut out, j);
        },
        None => {},
    }
    proof {
        assert(out@ =~= spec_forward_host(host@, ip@, id@, match properties_json {
            Some(j) => Some(j@),
            None => None,
        }));
    }
    out
}

/// An IP address's text without the scope of an IPv6 address (what
/// follows `%`).
pub open spec fn spec_strip_scope(text: Seq<char>) -> Seq<char>
    decreases text.len(),
{
    if text.len() == 0 {
        Seq::empty()
    } else if text[0] == '%' {
        Seq::empty()
    } else {
        seq![text[0]] + spec_strip_scope(text.drop_first())
    }
}

/// Removes the scope from an IPv6 address's text.
pub fn strip_scope(text: &str) -> (r: String)
    ensures
        r@ == spec_strip_scope(text@),
{
    broadcast use vstd::string::axiom_spec_iter;
    let ghost s = text@;
    let mut out = String::new();
    let mut done = false;
    proof {
        assert(s.skip(0) =~= s);
        assert(out@ + spec_strip_scope(s) =~= spec_strip_scope(s));
    }
    for c in it: text.chars()
        invariant
            it.seq() == s,
            s == text@,
            !done ==> out@ + spec_strip_scope(s.skip(it.index() as int)) == spec_strip_scope(s),
            done ==> out@ == spec_strip_scope(s),
    {
        let ghost idx = it.index() as int;
        proof {
            assert(s.skip(idx)[0] == c);
            assert(s.skip(idx).drop_first() =~= s.skip(idx + 1));
        }
        if !done {
            if c == '%' {
                done = true;
                proof { assert(out@ + Seq::<char>::empty() =~= out@); }
            } else {
                let ghost before = out@;
                crate::util::push_char(&mut out, c);
                proof {
                    assert(before + (seq![c] + spec_strip_scope(s.skip(idx + 1))) =~= out@ + spec_strip_scope(
                        s.skip(idx + 1),
                    ));
                }
            }
        }
    }
    proof {
        if !done {
            assert(s.skip(s.len() as int) =~= Seq::<char>::empty());
            assert(out@ + Seq::<char>::empty() =~= out@);
        }
    }
    out
}

} // verus!

//! The packets the proxy reads and writes, with their encodings.
//!
//! Every packet has a spec function for the bytes it encodes to and one for
//! what reading it from the start of some bytes gives; `encode` and `decode`
//! are proved to do exactly that, and the round-trip laws below show that a
//! packet reads back as it was written.
use vstd::prelude::*;
use vstd::utf8::encode_utf8;

use crate::auth::{opt_text, GameProfile, Property};
use crate::chat::json::{
    json_view, serialize_json, deserialize_json, text_json, text_of_json, text_view, DeserializationError, JsonValue,
};
use crate::chat::Text;
use crate::server::compression::RefSizeLimitedReader;
use crate::server::brigadier::{suggestion_views, suggestions_bytes, suggestions_decode, SuggestionView, Suggestions};
use crate::server::nbt::{
    network_nbt_bytes, network_nbt_decode, nbt_view, read_networking_nbt, view_id, write_networking_nbt, NbtType,
    NbtView, NetworkNbt, NetworkNbtView,
};
use crate::server::packet_ids::{
    spec_client_packet_id, spec_server_packet_id, ClientPacketType, PacketRegistry, ServerPacketType,
};
use crate::util::{
    byte_array_bytes, byte_array_decode, law_byte_array_roundtrip, law_string_roundtrip, law_varint_roundtrip,
    law_varint_size, lemma_u16_be, lemma_varint_decode_len, string_bytes, string_decode, u16_be, u16_of_be, varint_bytes,
    varint_decode, varint_len, write_u16_be, ByteReader, EncodingHelper, IoError, VarInt, u64_be, u64_of_be,
    write_i64_be, write_u64_be, Uuid, lemma_u64_be, lemma_i64_bits, uuid_parse_result, uuid_text,
};
use crate::version::{R1_20_3, R1_16, R1_13, R1_17, R1_18, R1_19, R1_19_1, R1_19_3, R1_20_2, R1_20_5, R1_21_2, R1_9};

verus! {

/// The `next_state` a handshake asks for to get the server status.
pub const PROTOCOL_STATE_STATUS: i32 = 1;

/// The `next_state` a handshake asks for to log in.
pub const PROTOCOL_STATE_LOGIN: i32 = 2;

/// The `next_state` a handshake asks for when the client was transferred.
pub const PROTOCOL_STATE_TRANSFER: i32 = 3;

/// The protocol state of a connection.
#[derive(Debug, Clone, Copy, PartialEq, Eq, Structural, Hash)]
pub enum ProtocolState {
    Handshake,
    Login,
    Config,
    Game,
}

/// A packet the proxy sends to clients.
pub trait ServerPacket {
    /// The packet's type.
    spec fn packet_type(&self) -> ServerPacketType;

    fn get_type(&self) -> (r: ServerPacketType)
        ensures
            r == self.packet_type(),
    ;
}

/// A packet clients send.
pub trait ClientPacket {
    /// The packet's type.
    spec fn packet_type(&self) -> ClientPacketType;

    fn get_type(&self) -> (r: ClientPacketType)
        ensures
            r == self.packet_type(),
    ;
}

/// A packet with its wire encoding (the body, after the packet id).
pub trait Packet: Sized {
    /// The bytes the packet encodes to in a protocol version.
    spec fn encoding(&self, version: i32) -> Seq<u8>;

    /// Whether the packet can be written in a protocol version: the fields
    /// that version needs are there.
    spec fn encodable(&self, version: i32) -> bool;

    fn decode(src: &mut ByteReader, version: i32) -> Result<Self, IoError>;

    fn encode(&self, dst: &mut Vec<u8>, version: i32) -> (r: Result<(), IoError>)
        requires
            self.encodable(version),
        ensures
            r is Ok,
            final(dst)@ == old(dst)@ + self.encoding(version),
    ;
}

/// The id of a packet the proxy sends, with its body: the whole packet as
/// it goes on the wire before framing.
pub fn get_full_server_packet_buf<P: Packet + ServerPacket>(packet: &P, version: i32, protocol: ProtocolState) -> (r: Result<Option<Vec<u8>>, IoError>)
    requires
        spec_server_packet_id(protocol, version, packet.packet_type()) is Some,
        packet.encodable(version),
    ensures
        r matches Ok(Some(data)) && data@ == varint_bytes(
            spec_server_packet_id(protocol, version, packet.packet_type()).unwrap() as u32,
        ) + packet.encoding(version),
{
    let mut data: Vec<u8> = Vec::new();
    let ok = get_full_server_packet_buf_write_buffer(&mut data, packet, version, protocol);
    Ok(Some(data))
}

/// Writes the id of a packet the proxy sends, then its body, into `buffer`
/// in place of what it held.
pub fn get_full_server_packet_buf_write_buffer<P: Packet + ServerPacket>(buffer: &mut Vec<u8>, packet: &P, version: i32, protocol: ProtocolState) -> (r: Result<bool, IoError>)
    requires
        spec_server_packet_id(protocol, version, packet.packet_type()) is Some,
        packet.encodable(version),
    ensures
        r == Ok::<bool, IoError>(true),
        final(buffer)@ == varint_bytes(spec_server_packet_id(protocol, version, packet.packet_type()).unwrap() as u32)
            + packet.encoding(version),
{
    let registry = PacketRegistry::instance();
    let packet_type = packet.get_type();
    match registry.get_server_packet_id(protocol, version, packet_type) {
        Some(packet_id) => {
            buffer.clear();
            let _ = VarInt(packet_id).encode_simple(buffer);
            let _ = packet.encode(buffer, version);
            proof { lemma_small_id_varint(spec_server_packet_id(protocol, version, packet_type).unwrap()); }
            Ok(true)
        },
        None => Ok(true),
    }
}

/// The id of a packet clients send, with its body.
pub fn get_full_client_packet_buf<P: Packet + ClientPacket>(packet: &P, version: i32, protocol: ProtocolState) -> (r: Result<Option<Vec<u8>>, IoError>)
    requires
        spec_client_packet_id(protocol, version, packet.packet_type()) is Some,
        packet.encodable(version),
    ensures
        r matches Ok(Some(data)) && data@ == varint_bytes(
            spec_client_packet_id(protocol, version, packet.packet_type()).unwrap() as u32,
        ) + packet.encoding(version),
{
    let mut data: Vec<u8> = Vec::new();
    let ok = get_full_client_packet_buf_write_buffer(&mut data, packet, version, protocol);
    Ok(Some(data))
}

/// Writes the id of a packet clients send, then its body, into `buffer` in
/// place of what it held.
pub fn get_full_client_packet_buf_write_buffer<P: Packet + ClientPacket>(buffer: &mut Vec<u8>, packet: &P, version: i32, protocol: ProtocolState) -> (r: Result<bool, IoError>)
    requires
        spec_client_packet_id(protocol, version, packet.packet_type()) is Some,
        packet.encodable(version),
    ensures
        r == Ok::<bool, IoError>(true),
        final(buffer)@ == varint_bytes(spec_client_packet_id(protocol, version, packet.packet_type()).unwrap() as u32)
            + packet.encoding(version),
{
    let registry = PacketRegistry::instance();
    let packet_type = packet.get_type();
    match registry.get_client_packet_id(protocol, version, packet_type) {
        Some(packet_id) => {
            buffer.clear();
            let _ = VarInt(packet_id).encode_simple(buffer);
            let _ = packet.encode(buffer, version);
            proof { lemma_small_id_varint(spec_client_packet_id(protocol, version, packet_type).unwrap()); }
            Ok(true)
        },
        None => Ok(true),
    }
}

/// A packet id, as an `i32`, has the VarInt encoding of the id.
proof fn lemma_small_id_varint(id: u8)
    ensures
        ((id as i32) as u32) == id as u32,
        varint_len(id as u32) <= 5,
{
}

// ---------------------------------------------------------------------------
// Handshake
// ---------------------------------------------------------------------------

/// The first packet of every connection: which version the client speaks,
/// which address it connected to, and what it wants next.
#[derive(Debug)]
pub struct Handshake {
    pub version: i32,
    pub host: String,
    pub port: u16,
    pub next_state: i32,
}

/// The bytes of a handshake with these fields.
pub open spec fn handshake_bytes(version: i32, host: Seq<char>, port: u16, next_state: i32) -> Seq<u8> {
    varint_bytes(version as u32) + string_bytes(host) + u16_be(port) + varint_bytes(next_state as u32)
}

/// Reading a handshake from the start of `s`: its fields and how many bytes
/// they took.
pub open spec fn handshake_decode(s: Seq<u8>) -> Result<(i32, Seq<char>, u16, i32, nat), IoError> {
    match varint_decode(s, 5) {
        Err(e) => Err(e),
        Ok((v, n1)) => match string_decode(s.skip(n1 as int), 255) {
            Err(e) => Err(e),
            Ok((host, n2)) => {
                let s3 = s.skip((n1 + n2) as int);
                if s3.len() < 2 {
                    Err(IoError::UnexpectedEof)
                } else {
                    match varint_decode(s3.skip(2), 5) {
                        Err(e) => Err(e),
                        Ok((ns, n4)) => Ok((v as i32, host, u16_of_be(s3[0], s3[1]), ns as i32, n1 + n2 + 2 + n4)),
                    }
                }
            },
        },
    }
}

impl ClientPacket for Handshake {
    open spec fn packet_type(&self) -> ClientPacketType {
        ClientPacketType::Handshake
    }

    fn get_type(&self) -> (r: ClientPacketType) {
        ClientPacketType::Handshake
    }
}

impl Packet for Handshake {
    open spec fn encoding(&self, version: i32) -> Seq<u8> {
        handshake_bytes(self.version, self.host@, self.port, self.next_state)
    }

    open spec fn encodable(&self, version: i32) -> bool {
        true
    }

    fn decode(src: &mut ByteReader, version: i32) -> (r: Result<Self, IoError>)
        ensures
            match handshake_decode(old(src).rest()) {
                Ok((v, host, port, ns, n)) => r matches Ok(p) && p.version == v && p.host@ == host && p.port == port
                    && p.next_state == ns && final(src).rest() == old(src).rest().skip(n as int),
                Err(e) => r == Err::<Self, IoError>(e),
            },
    {
        let ghost s = src.rest();
        proof { lemma_varint_decode_len(s, 5); }
        let version = VarInt::decode_simple(src)?.get();
        let ghost n1 = varint_decode(s, 5).unwrap().1;
        let host = EncodingHelper::read_string(src, 255)?;
        let ghost n2 = string_decode(s.skip(n1 as int), 255).unwrap().1;
        proof {
            lemma_string_decode_len(s.skip(n1 as int), 255);
            assert(src.rest() =~= s.skip((n1 + n2) as int));
        }
        let port = src.read_u16_be()?;
        proof { assert(src.rest() =~= s.skip((n1 + n2) as int).skip(2)); }
        let next_state = VarInt::decode_simple(src)?.get();
        proof {
            lemma_varint_decode_len(s.skip((n1 + n2) as int).skip(2), 5);
            let n4 = varint_decode(s.skip((n1 + n2) as int).skip(2), 5).unwrap().1;
            assert(src.rest() =~= s.skip((n1 + n2 + 2 + n4) as int));
        }
        Ok(Handshake { version, host, port, next_state })
    }

    fn encode(&self, dst: &mut Vec<u8>, version: i32) -> (r: Result<(), IoError>) {
        let _ = VarInt(self.version).encode(dst, 5);
        let _ = EncodingHelper::write_string(dst, self.host.as_str());
        write_u16_be(dst, self.port);
        let _ = VarInt(self.next_state).encode(dst, 5);
        proof {
            assert(final(dst)@ =~= old(dst)@ + handshake_bytes(self.version, self.host@, self.port, self.next_state));
        }
        Ok(())
    }
}

/// A successful string read uses no more bytes than there are.
pub(crate) proof fn lemma_string_decode_len(s: Seq<u8>, max: nat)
    ensures
        string_decode(s, max) matches Ok((t, n)) ==> n <= s.len(),
{
    lemma_varint_decode_len(s, 5);
}

/// A successful byte-array read uses no more bytes than there are.
proof fn lemma_byte_array_decode_len(s: Seq<u8>, max: nat)
    ensures
        byte_array_decode(s, max) matches Ok((d, n)) ==> n <= s.len(),
{
    lemma_varint_decode_len(s, 5);
}

/// Law: a handshake reads back as it was written, whatever follows it, when
/// the host name is within the limit of 255 characters.
pub proof fn law_handshake_roundtrip(version: i32, host: Seq<char>, port: u16, next_state: i32, rest: Seq<u8>)
    requires
        encode_utf8(host).len() <= 255 * 3,
    ensures
        handshake_decode(handshake_bytes(version, host, port, next_state) + rest) == Ok::<
            (i32, Seq<char>, u16, i32, nat),
            IoError,
        >((version, host, port, next_state, handshake_bytes(version, host, port, next_state).len())),
{
    let s = handshake_bytes(version, host, port, next_state) + rest;
    let a = varint_bytes(version as u32);
    let b = string_bytes(host);
    let c = u16_be(port);
    let d = varint_bytes(next_state as u32);
    law_varint_size(version);
    law_varint_size(next_state);
    law_varint_roundtrip(version, b + c + d + rest, 5);
    assert(s =~= a + (b + c + d + rest));
    assert(s.skip(a.len() as int) =~= b + (c + d + rest));
    law_string_roundtrip(host, c + d + rest, 255);
    assert(s.skip((a.len() + b.len()) as int) =~= c + (d + rest));
    lemma_u16_be(port);
    assert(s.skip((a.len() + b.len()) as int).skip(2) =~= d + rest);
    law_varint_roundtrip(next_state, rest, 5);
}

/// The bytes of a byte array held in an `Option`, as a spec value.
pub open spec fn opt_bytes(o: Option<Vec<u8>>) -> Option<Seq<u8>> {
    match o {
        Some(d) => Some(d@),
        None => None,
    }
}

/// Writes one byte.
fn write_u8(dst: &mut Vec<u8>, b: u8)
    ensures
        final(dst)@ == old(dst)@ + seq![b],
{
    dst.push(b);
    proof { assert(final(dst)@ =~= old(dst)@ + seq![b]); }
}

// ---------------------------------------------------------------------------
// SetCompression
// ---------------------------------------------------------------------------

/// Tells the client from which size on packets are compressed.
pub struct SetCompression {
    pub compression: i32,
}

/// Reading a set-compression packet: the threshold and the bytes it took.
pub open spec fn set_compression_decode(s: Seq<u8>) -> Result<(i32, nat), IoError> {
    match varint_decode(s, 5) {
        Err(e) => Err(e),
        Ok((v, n)) => Ok((v as i32, n)),
    }
}

impl ServerPacket for SetCompression {
    open spec fn packet_type(&self) -> ServerPacketType {
        ServerPacketType::SetCompression
    }

    fn get_type(&self) -> (r: ServerPacketType) {
        ServerPacketType::SetCompression
    }
}

impl Packet for SetCompression {
    open spec fn encoding(&self, version: i32) -> Seq<u8> {
        varint_bytes(self.compression as u32)
    }

    open spec fn encodable(&self, version: i32) -> bool {
        true
    }

    fn decode(src: &mut ByteReader, version: i32) -> (r: Result<Self, IoError>)
        ensures
            match set_compression_decode(old(src).rest()) {
                Ok((c, n)) => r matches Ok(p) && p.compression == c && final(src).rest() == old(src).rest().skip(n as int),
                Err(e) => r == Err::<Self, IoError>(e),
            },
    {
        let compression = VarInt::decode_simple(src)?.get();
        Ok(SetCompression { compression })
    }

    fn encode(&self, dst: &mut Vec<u8>, version: i32) -> (r: Result<(), IoError>) {
        proof { law_varint_size(self.compression); }
        let _ = VarInt(self.compression).encode_simple(dst);
        Ok(())
    }
}

// ---------------------------------------------------------------------------
// LoginAcknowledged
// ---------------------------------------------------------------------------

/// The client's answer to a login success: it moves to the configuration state.
pub struct LoginAcknowledged;

impl ClientPacket for LoginAcknowledged {
    open spec fn packet_type(&self) -> ClientPacketType {
        ClientPacketType::LoginAcknowledged
    }

    fn get_type(&self) -> (r: ClientPacketType) {
        ClientPacketType::LoginAcknowledged
    }
}

impl Packet for LoginAcknowledged {
    open spec fn encoding(&self, version: i32) -> Seq<u8> {
        Seq::empty()
    }

    open spec fn encodable(&self, version: i32) -> bool {
        true
    }

    fn decode(src: &mut ByteReader, version: i32) -> (r: Result<Self, IoError>)
        ensures
            r is Ok,
            final(src).rest() == old(src).rest(),
    {
        Ok(LoginAcknowledged)
    }

    fn encode(&self, dst: &mut Vec<u8>, version: i32) -> (r: Result<(), IoError>) {
        proof { assert(old(dst)@ + Seq::<u8>::empty() =~= old(dst)@); }
        Ok(())
    }
}

// ---------------------------------------------------------------------------
// Cookies
// ---------------------------------------------------------------------------

/// The server asks the client for a stored cookie.
pub struct CookieRequest {
    pub cookie: String,
}

impl ServerPacket for CookieRequest {
    open spec fn packet_type(&self) -> ServerPacketType {
        ServerPacketType::CookieRequest
    }

    fn get_type(&self) -> (r: ServerPacketType) {
        ServerPacketType::CookieRequest
    }
}

impl Packet for CookieRequest {
    open spec fn encoding(&self, version: i32) -> Seq<u8> {
        string_bytes(self.cookie@)
    }

    open spec fn encodable(&self, version: i32) -> bool {
        true
    }

    fn decode(src: &mut ByteReader, version: i32) -> (r: Result<Self, IoError>)
        ensures
            match string_decode(old(src).rest(), 32767) {
                Ok((c, n)) => r matches Ok(p) && p.cookie@ == c && final(src).rest() == old(src).rest().skip(n as int),
                Err(e) => r == Err::<Self, IoError>(e),
            },
    {
        let cookie = EncodingHelper::read_string(src, 32767)?;
        Ok(CookieRequest { cookie })
    }

    fn encode(&self, dst: &mut Vec<u8>, version: i32) -> (r: Result<(), IoError>) {
        let _ = EncodingHelper::write_string(dst, self.cookie.as_str());
        Ok(())
    }
}

/// The client's answer to a cookie request: the cookie's name and, if it
/// had one stored, its data.
#[derive(Debug)]
pub struct CookieResponse {
    pub cookie: String,
    pub data: Option<Vec<u8>>,
}

/// The bytes of a cookie response with these fields.
pub open spec fn cookie_response_bytes(cookie: Seq<char>, data: Option<Seq<u8>>) -> Seq<u8> {
    string_bytes(cookie) + match data {
        Some(d) => seq![1u8] + byte_array_bytes(d),
        None => seq![0u8],
    }
}

/// Reading a cookie response: its fields and the bytes they took.
pub open spec fn cookie_response_decode(s: Seq<u8>) -> Result<(Seq<char>, Option<Seq<u8>>, nat), IoError> {
    match string_decode(s, 32767) {
        Err(e) => Err(e),
        Ok((c, n1)) => {
            let s2 = s.skip(n1 as int);
            if s2.len() == 0 {
                Err(IoError::UnexpectedEof)
            } else if s2[0] == 0 {
                Ok((c, None, n1 + 1))
            } else {
                match byte_array_decode(s2.skip(1), 5120) {
                    Err(e) => Err(e),
                    Ok((d, n3)) => Ok((c, Some(d), n1 + 1 + n3)),
                }
            }
        },
    }
}

impl ClientPacket for CookieResponse {
    open spec fn packet_type(&self) -> ClientPacketType {
        ClientPacketType::CookieResponse
    }

    fn get_type(&self) -> (r: ClientPacketType) {
        ClientPacketType::CookieResponse
    }
}

impl Packet for CookieResponse {
    open spec fn encoding(&self, version: i32) -> Seq<u8> {
        cookie_response_bytes(self.cookie@, opt_bytes(self.data))
    }

    open spec fn encodable(&self, version: i32) -> bool {
        true
    }

    fn decode(src: &mut ByteReader, version: i32) -> (r: Result<Self, IoError>)
        ensures
            match cookie_response_decode(old(src).rest()) {
                Ok((c, d, n)) => r matches Ok(p) && p.cookie@ == c && opt_bytes(p.data) == d && final(src).rest()
                    == old(src).rest().skip(n as int),
                Err(e) => r == Err::<Self, IoError>(e),
            },
    {
        let ghost s = src.rest();
        let cookie = EncodingHelper::read_string(src, 32767)?;
        let ghost n1 = string_decode(s, 32767).unwrap().1;
        proof { lemma_string_decode_len(s, 32767); }
        let flag = src.read_u8()?;
        proof { assert(src.rest() =~= s.skip((n1 + 1) as int)); }
        if flag == 0 {
            Ok(CookieResponse { cookie, data: None })
        } else {
            let data = EncodingHelper::read_byte_array(src, 5120)?;
            proof {
                lemma_byte_array_decode_len(s.skip((n1 + 1) as int), 5120);
                let n3 = byte_array_decode(s.skip((n1 + 1) as int), 5120).unwrap().1;
                assert(s.skip(n1 as int).skip(1) =~= s.skip((n1 + 1) as int));
                assert(src.rest() =~= s.skip((n1 + 1 + n3) as int));
            }
            Ok(CookieResponse { cookie, data: Some(data) })
        }
    }

    fn encode(&self, dst: &mut Vec<u8>, version: i32) -> (r: Result<(), IoError>) {
        let _ = EncodingHelper::write_string(dst, self.cookie.as_str());
        match &self.data {
            Some(data) => {
                write_u8(dst, 1);
                let _ = EncodingHelper::write_byte_array(dst, data.as_slice());
            },
            None => {
                write_u8(dst, 0);
            },
        }
        proof { assert(final(dst)@ =~= old(dst)@ + cookie_response_bytes(self.cookie@, opt_bytes(self.data))); }
        Ok(())
    }
}

// ---------------------------------------------------------------------------
// UnsignedClientCommand
// ---------------------------------------------------------------------------

/// A command the client runs, without a signature.
pub struct UnsignedClientCommand {
    pub message: String,
}

impl ClientPacket for UnsignedClientCommand {
    open spec fn packet_type(&self) -> ClientPacketType {
        ClientPacketType::UnsignedClientCommand
    }

    fn get_type(&self) -> (r: ClientPacketType) {
        ClientPacketType::UnsignedClientCommand
    }
}

impl Packet for UnsignedClientCommand {
    open spec fn encoding(&self, version: i32) -> Seq<u8> {
        string_bytes(self.message@)
    }

    open spec fn encodable(&self, version: i32) -> bool {
        true
    }

    fn decode(src: &mut ByteReader, version: i32) -> (r: Result<Self, IoError>)
        ensures
            match string_decode(old(src).rest(), 32767) {
                Ok((m, n)) => r matches Ok(p) && p.message@ == m && final(src).rest() == old(src).rest().skip(n as int),
                Err(e) => r == Err::<Self, IoError>(e),
            },
    {
        let message = EncodingHelper::read_string(src, 32767)?;
        Ok(UnsignedClientCommand { message })
    }

    fn encode(&self, dst: &mut Vec<u8>, version: i32) -> (r: Result<(), IoError>) {
        let _ = EncodingHelper::write_string(dst, self.message.as_str());
        Ok(())
    }
}

// ---------------------------------------------------------------------------
// Login plugin messages
// ---------------------------------------------------------------------------

/// A plugin message the server sends during login: everything after the
/// channel name is the data.
pub struct LoginPluginRequest {
    pub id: i32,
    pub channel: String,
    pub data: Vec<u8>,
}

/// Reading a login plugin request: id, channel, and the rest as data.
pub open spec fn login_plugin_request_decode(s: Seq<u8>) -> Result<(i32, Seq<char>, Seq<u8>, nat), IoError> {
    match varint_decode(s, 5) {
        Err(e) => Err(e),
        Ok((id, n1)) => match string_decode(s.skip(n1 as int), 255) {
            Err(e) => Err(e),
            Ok((c, n2)) => Ok((id as i32, c, s.skip((n1 + n2) as int), s.len())),
        },
    }
}

impl ServerPacket for LoginPluginRequest {
    open spec fn packet_type(&self) -> ServerPacketType {
        ServerPacketType::LoginPluginRequest
    }

    fn get_type(&self) -> (r: ServerPacketType) {
        ServerPacketType::LoginPluginRequest
    }
}

impl Packet for LoginPluginRequest {
    open spec fn encoding(&self, version: i32) -> Seq<u8> {
        varint_bytes(self.id as u32) + string_bytes(self.channel@) + self.data@
    }

    open spec fn encodable(&self, version: i32) -> bool {
        true
    }

    fn decode(src: &mut ByteReader, version: i32) -> (r: Result<Self, IoError>)
        ensures
            match login_plugin_request_decode(old(src).rest()) {
                Ok((id, c, d, n)) => r matches Ok(p) && p.id == id && p.channel@ == c && p.data@ == d && final(src).rest()
                    == old(src).rest().skip(n as int),
                Err(e) => r == Err::<Self, IoError>(e),
            },
    {
        let ghost s = src.rest();
        proof { lemma_varint_decode_len(s, 5); }
        let id = VarInt::decode(src, 5)?.get();
        let ghost n1 = varint_decode(s, 5).unwrap().1;
        let channel = EncodingHelper::read_string(src, 255)?;
        proof {
            let n2 = string_decode(s.skip(n1 as int), 255).unwrap().1;
            lemma_string_decode_len(s.skip(n1 as int), 255);
            assert(src.rest() =~= s.skip((n1 + n2) as int));
        }
        let data = src.read_to_end();
        proof { assert(src.rest() =~= s.skip(s.len() as int)); }
        Ok(LoginPluginRequest { id, channel, data })
    }

    fn encode(&self, dst: &mut Vec<u8>, version: i32) -> (r: Result<(), IoError>) {
        proof { law_varint_size(self.id); }
        let _ = VarInt(self.id).encode(dst, 5);
        let _ = EncodingHelper::write_string(dst, self.channel.as_str());
        dst.extend_from_slice(self.data.as_slice());
        proof {
            assert(final(dst)@ =~= old(dst)@ + (varint_bytes(self.id as u32) + string_bytes(self.channel@) + self.data@));
        }
        Ok(())
    }
}

/// The most data a login plugin response is read with.
pub const LOGIN_PLUGIN_RESPONSE_LIMIT: usize = 1048576;

/// The client's answer to a login plugin request: the data, if it
/// understood the channel.
#[derive(Debug)]
pub struct LoginPluginResponse {
    pub id: i32,
    pub data: Option<Vec<u8>>,
}

/// Reading a login plugin response: id, and, after a nonzero flag, all the
/// rest as data, which must be shorter than the size limit.
pub open spec fn login_plugin_response_decode(s: Seq<u8>) -> Result<(i32, Option<Seq<u8>>, nat), IoError> {
    match varint_decode(s, 5) {
        Err(e) => Err(e),
        Ok((id, n1)) => {
            let s2 = s.skip(n1 as int);
            if s2.len() == 0 {
                Err(IoError::UnexpectedEof)
            } else if s2[0] == 0 {
                Ok((id as i32, None, n1 + 1))
            } else if s2.len() - 1 < LOGIN_PLUGIN_RESPONSE_LIMIT {
                Ok((id as i32, Some(s2.skip(1)), s.len()))
            } else {
                Err(IoError::InvalidData)
            }
        },
    }
}

impl ClientPacket for LoginPluginResponse {
    open spec fn packet_type(&self) -> ClientPacketType {
        ClientPacketType::LoginPluginResponse
    }

    fn get_type(&self) -> (r: ClientPacketType) {
        ClientPacketType::LoginPluginResponse
    }
}

impl Packet for LoginPluginResponse {
    open spec fn encoding(&self, version: i32) -> Seq<u8> {
        varint_bytes(self.id as u32) + match self.data {
            Some(d) => seq![1u8] + d@,
            None => seq![0u8],
        }
    }

    open spec fn encodable(&self, version: i32) -> bool {
        true
    }

    fn decode(src: &mut ByteReader, version: i32) -> (r: Result<Self, IoError>)
        ensures
            match login_plugin_response_decode(old(src).rest()) {
                Ok((id, d, n)) => r matches Ok(p) && p.id == id && opt_bytes(p.data) == d && final(src).rest()
                    == old(src).rest().skip(n as int),
                Err(e) => r == Err::<Self, IoError>(e),
            },
    {
        let ghost s = src.rest();
        proof { lemma_varint_decode_len(s, 5); }
        let id = VarInt::decode(src, 5)?.get();
        let ghost n1 = varint_decode(s, 5).unwrap().1;
        let flag = src.read_u8()?;
        proof { assert(src.rest() =~= s.skip((n1 + 1) as int)); }
        if flag == 0 {
            Ok(LoginPluginResponse { id, data: None })
        } else {
            let mut reader = RefSizeLimitedReader::new(LOGIN_PLUGIN_RESPONSE_LIMIT);
            let mut data: Vec<u8> = Vec::new();
            reader.read_to_end(src, &mut data)?;
            proof {
                assert(data@ =~= s.skip(n1 as int).skip(1));
                assert(src.rest() =~= s.skip(s.len() as int));
            }
            Ok(LoginPluginResponse { id, data: Some(data) })
        }
    }

    fn encode(&self, dst: &mut Vec<u8>, version: i32) -> (r: Result<(), IoError>) {
        proof { law_varint_size(self.id); }
        let _ = VarInt(self.id).encode(dst, 5);
        match &self.data {
            Some(data) => {
                write_u8(dst, 1);
                dst.extend_from_slice(data.as_slice());
            },
            None => {
                write_u8(dst, 0);
            },
        }
        proof { assert(final(dst)@ =~= old(dst)@ + self.encoding(version)); }
        Ok(())
    }
}

// ---------------------------------------------------------------------------
// Field readers shared by the packets below
// ---------------------------------------------------------------------------

/// Reading one byte from the start of `s`.
pub open spec fn byte_field(s: Seq<u8>) -> Result<(u8, nat), IoError> {
    if s.len() == 0 {
        Err(IoError::UnexpectedEof)
    } else {
        Ok((s[0], 1))
    }
}

/// Reading a VarInt as an `i32` from the start of `s`.
pub open spec fn varint_field(s: Seq<u8>) -> Result<(i32, nat), IoError> {
    match varint_decode(s, 5) {
        Err(e) => Err(e),
        Ok((v, n)) => Ok((v as i32, n)),
    }
}

/// Reading a VarInt when `present`, else nothing (and 0).
pub open spec fn opt_varint_field(s: Seq<u8>, present: bool) -> Result<(i32, nat), IoError> {
    if present {
        varint_field(s)
    } else {
        Ok((0, 0))
    }
}

/// Reading a boolean byte when `present`, else nothing (and `false`).
pub open spec fn opt_bool_field(s: Seq<u8>, present: bool) -> Result<(bool, nat), IoError> {
    if present {
        match byte_field(s) {
            Err(e) => Err(e),
            Ok((b, n)) => Ok((b != 0, n)),
        }
    } else {
        Ok((false, 0))
    }
}

/// Reading a big-endian `i64` from the start of `s`.
pub open spec fn i64_field(s: Seq<u8>) -> Result<(i64, nat), IoError> {
    if s.len() < 8 {
        Err(IoError::UnexpectedEof)
    } else {
        Ok((u64_of_be(s.take(8)) as i64, 8))
    }
}

pub(crate) fn read_varint_field(src: &mut ByteReader) -> (r: Result<i32, IoError>)
    ensures
        match varint_field(old(src).rest()) {
            Ok((v, n)) => r == Ok::<i32, IoError>(v) && final(src).rest() == old(src).rest().skip(n as int) && n
                <= old(src).rest().len(),
            Err(e) => r == Err::<i32, IoError>(e),
        },
{
    proof { lemma_varint_decode_len(old(src).rest(), 5); }
    let v = VarInt::decode_simple(src)?;
    Ok(v.get())
}

fn read_opt_varint_field(src: &mut ByteReader, present: bool) -> (r: Result<i32, IoError>)
    ensures
        match opt_varint_field(old(src).rest(), present) {
            Ok((v, n)) => r == Ok::<i32, IoError>(v) && final(src).rest() == old(src).rest().skip(n as int) && n
                <= old(src).rest().len(),
            Err(e) => r == Err::<i32, IoError>(e),
        },
{
    if present {
        read_varint_field(src)
    } else {
        proof { assert(src.rest().skip(0) =~= src.rest()); }
        Ok(0)
    }
}

fn read_opt_bool_field(src: &mut ByteReader, present: bool) -> (r: Result<bool, IoError>)
    ensures
        match opt_bool_field(old(src).rest(), present) {
            Ok((v, n)) => r == Ok::<bool, IoError>(v) && final(src).rest() == old(src).rest().skip(n as int) && n
                <= old(src).rest().len(),
            Err(e) => r == Err::<bool, IoError>(e),
        },
{
    if present {
        let b = src.read_u8()?;
        proof { assert(old(src).rest().drop_first() =~= old(src).rest().skip(1)); }
        Ok(b != 0)
    } else {
        proof { assert(src.rest().skip(0) =~= src.rest()); }
        Ok(false)
    }
}

// ---------------------------------------------------------------------------
// Encryption
// ---------------------------------------------------------------------------

/// The server's request to encrypt the connection.
pub struct EncryptionRequest {
    pub server_id: String,
    pub public_key: Vec<u8>,
    pub verify_token: Vec<u8>,
    pub should_authenticate: bool,
}

/// Reading an encryption request in a protocol version.
pub open spec fn encryption_request_decode(s: Seq<u8>, version: i32) -> Result<
    (Seq<char>, Seq<u8>, Seq<u8>, bool, nat),
    IoError,
> {
    match string_decode(s, 20) {
        Err(e) => Err(e),
        Ok((id, n1)) => match byte_array_decode(s.skip(n1 as int), 256) {
            Err(e) => Err(e),
            Ok((pk, n2)) => match byte_array_decode(s.skip((n1 + n2) as int), 256) {
                Err(e) => Err(e),
                Ok((vt, n3)) => match opt_bool_field(s.skip((n1 + n2 + n3) as int), version >= R1_20_5) {
                    Err(e) => Err(e),
                    Ok((auth, n4)) => Ok((id, pk, vt, if version >= R1_20_5 { auth } else { true }, n1 + n2 + n3 + n4)),
                },
            },
        },
    }
}

impl ServerPacket for EncryptionRequest {
    open spec fn packet_type(&self) -> ServerPacketType {
        ServerPacketType::EncryptionRequest
    }

    fn get_type(&self) -> (r: ServerPacketType) {
        ServerPacketType::EncryptionRequest
    }
}

impl Packet for EncryptionRequest {
    open spec fn encoding(&self, version: i32) -> Seq<u8> {
        string_bytes(self.server_id@) + byte_array_bytes(self.public_key@) + byte_array_bytes(self.verify_token@) + if version
            >= R1_20_5 {
            seq![if self.should_authenticate { 1u8 } else { 0u8 }]
        } else {
            Seq::empty()
        }
    }

    open spec fn encodable(&self, version: i32) -> bool {
        true
    }

    fn decode(src: &mut ByteReader, version: i32) -> (r: Result<Self, IoError>)
        ensures
            match encryption_request_decode(old(src).rest(), version) {
                Ok((id, pk, vt, auth, n)) => r matches Ok(p) && p.server_id@ == id && p.public_key@ == pk
                    && p.verify_token@ == vt && p.should_authenticate == auth && final(src).rest() == old(src).rest().skip(
                    n as int,
                ),
                Err(e) => r == Err::<Self, IoError>(e),
            },
    {
        let ghost s = src.rest();
        let server_id = EncodingHelper::read_string(src, 20)?;
        let ghost n1 = string_decode(s, 20).unwrap().1;
        proof { lemma_string_decode_len(s, 20); }
        let public_key = EncodingHelper::read_byte_array(src, 256)?;
        let ghost n2 = byte_array_decode(s.skip(n1 as int), 256).unwrap().1;
        proof {
            lemma_byte_array_decode_len(s.skip(n1 as int), 256);
            assert(src.rest() =~= s.skip((n1 + n2) as int));
        }
        let verify_token = EncodingHelper::read_byte_array(src, 256)?;
        let ghost n3 = byte_array_decode(s.skip((n1 + n2) as int), 256).unwrap().1;
        proof {
            lemma_byte_array_decode_len(s.skip((n1 + n2) as int), 256);
            assert(src.rest() =~= s.skip((n1 + n2 + n3) as int));
        }
        let auth = read_opt_bool_field(src, version >= R1_20_5)?;
        proof {
            let n4 = opt_bool_field(s.skip((n1 + n2 + n3) as int), version >= R1_20_5).unwrap().1;
            assert(src.rest() =~= s.skip((n1 + n2 + n3 + n4) as int));
        }
        let should_authenticate = if version >= R1_20_5 { auth } else { true };
        Ok(EncryptionRequest { server_id, public_key, verify_token, should_authenticate })
    }

    fn encode(&self, dst: &mut Vec<u8>, version: i32) -> (r: Result<(), IoError>) {
        let _ = EncodingHelper::write_string(dst, self.server_id.as_str());
        let _ = EncodingHelper::write_byte_array(dst, self.public_key.as_slice());
        let _ = EncodingHelper::write_byte_array(dst, self.verify_token.as_slice());
        if version >= R1_20_5 {
            write_u8(dst, if self.should_authenticate { 1 } else { 0 });
        }
        proof { assert(final(dst)@ =~= old(dst)@ + self.encoding(version)); }
        Ok(())
    }
}

/// The signed salt a 1.19 client sends in place of the verify token.
pub struct EncryptionData {
    pub salt: i64,
    pub signature: Vec<u8>,
}

/// The fields of optional encryption data, as spec values.
pub open spec fn opt_encryption_data(o: Option<EncryptionData>) -> Option<(i64, Seq<u8>)> {
    match o {
        Some(d) => Some((d.salt, d.signature@)),
        None => None,
    }
}

/// Whether a protocol version lets the client sign a salt in place of
/// sending the verify token back.
pub open spec fn signs_salt(version: i32) -> bool {
    version >= R1_19 && version < R1_19_3
}

/// The client's answer to an encryption request.
pub struct EncryptionResponse {
    pub shared_secret: Vec<u8>,
    pub verify_token: Option<Vec<u8>>,
    pub encryption_data: Option<EncryptionData>,
}

/// Reading an encryption response in a protocol version: secret, then the
/// verify token or, where the version allows and the flag says so, the
/// signed salt.
pub open spec fn encryption_response_decode(s: Seq<u8>, version: i32) -> Result<
    (Seq<u8>, Option<Seq<u8>>, Option<(i64, Seq<u8>)>, nat),
    IoError,
> {
    match byte_array_decode(s, 128) {
        Err(e) => Err(e),
        Ok((secret, n1)) => {
            let s2 = s.skip(n1 as int);
            let flag: Result<(bool, nat), IoError> = if signs_salt(version) {
                match byte_field(s2) {
                    Err(e) => Err(e),
                    Ok((b, m)) => Ok((b != 0, m)),
                }
            } else {
                Ok((true, 0))
            };
            match flag {
                Err(e) => Err(e),
                Ok((token, m)) => {
                    let s3 = s2.skip(m as int);
                    if token {
                        match byte_array_decode(s3, 128) {
                            Err(e) => Err(e),
                            Ok((t, n3)) => Ok((secret, Some(t), None, n1 + m + n3)),
                        }
                    } else {
                        match i64_field(s3) {
                            Err(e) => Err(e),
                            Ok((salt, n3)) => match byte_array_decode(s3.skip(8), 32767) {
                                Err(e) => Err(e),
                                Ok((sig, n4)) => Ok((secret, None, Some((salt, sig)), n1 + m + n3 + n4)),
                            },
                        }
                    }
                },
            }
        },
    }
}

impl ClientPacket for EncryptionResponse {
    open spec fn packet_type(&self) -> ClientPacketType {
        ClientPacketType::EncryptionResponse
    }

    fn get_type(&self) -> (r: ClientPacketType) {
        ClientPacketType::EncryptionResponse
    }
}

impl Packet for EncryptionResponse {
    open spec fn encoding(&self, version: i32) -> Seq<u8> {
        byte_array_bytes(self.shared_secret@) + if signs_salt(version) {
            match self.verify_token {
                Some(t) => seq![1u8] + byte_array_bytes(t@),
                None => seq![0u8] + u64_be(self.encryption_data.unwrap().salt as u64) + byte_array_bytes(
                    self.encryption_data.unwrap().signature@,
                ),
            }
        } else {
            byte_array_bytes(self.verify_token.unwrap()@)
        }
    }

    open spec fn encodable(&self, version: i32) -> bool {
        if signs_salt(version) {
            self.verify_token is Some || self.encryption_data is Some
        } else {
            self.verify_token is Some
        }
    }

    fn decode(src: &mut ByteReader, version: i32) -> (r: Result<Self, IoError>)
        ensures
            match encryption_response_decode(old(src).rest(), version) {
                Ok((secret, t, d, n)) => r matches Ok(p) && p.shared_secret@ == secret && opt_bytes(p.verify_token) == t
                    && opt_encryption_data(p.encryption_data) == d && final(src).rest() == old(src).rest().skip(n as int),
                Err(e) => r == Err::<Self, IoError>(e),
            },
    {
        let ghost s = src.rest();
        let shared_secret = EncodingHelper::read_byte_array(src, 128)?;
        let ghost n1 = byte_array_decode(s, 128).unwrap().1;
        proof { lemma_byte_array_decode_len(s, 128); }
        let token = if version >= R1_19 && version < R1_19_3 {
            let b = src.read_u8()?;
            proof { assert(src.rest() =~= s.skip((n1 + 1) as int)); }
            b != 0
        } else {
            proof { assert(src.rest() =~= s.skip(n1 as int).skip(0)); }
            true
        };
        let ghost m: nat = if signs_salt(version) { 1 } else { 0 };
        proof { assert(src.rest() =~= s.skip(n1 as int).skip(m as int)); }
        if token {
            let t = EncodingHelper::read_byte_array(src, 128)?;
            proof {
                let s3 = s.skip(n1 as int).skip(m as int);
                lemma_byte_array_decode_len(s3, 128);
                let n3 = byte_array_decode(s3, 128).unwrap().1;
                assert(src.rest() =~= s.skip((n1 + m + n3) as int));
            }
            Ok(EncryptionResponse { shared_secret, verify_token: Some(t), encryption_data: None })
        } else {
            let salt = src.read_i64_be()?;
            let signature = EncodingHelper::read_byte_array(src, 32767)?;
            proof {
                let s3 = s.skip(n1 as int).skip(m as int);
                lemma_byte_array_decode_len(s3.skip(8), 32767);
                let n4 = byte_array_decode(s3.skip(8), 32767).unwrap().1;
                assert(src.rest() =~= s.skip((n1 + m + 8 + n4) as int));
            }
            Ok(EncryptionResponse { shared_secret, verify_token: None, encryption_data: Some(EncryptionData { salt, signature }) })
        }
    }

    fn encode(&self, dst: &mut Vec<u8>, version: i32) -> (r: Result<(), IoError>) {
        let _ = EncodingHelper::write_byte_array(dst, self.shared_secret.as_slice());
        if version >= R1_19 && version < R1_19_3 {
            match &self.verify_token {
                Some(token) => {
                    write_u8(dst, 1);
                    let _ = EncodingHelper::write_byte_array(dst, token.as_slice());
                },
                None => {
                    write_u8(dst, 0);
                    match &self.encryption_data {
                        Some(data) => {
                            write_i64_be(dst, data.salt);
                            let _ = EncodingHelper::write_byte_array(dst, data.signature.as_slice());
                        },
                        None => {},
                    }
                },
            }
        } else {
            match &self.verify_token {
                Some(token) => {
                    let _ = EncodingHelper::write_byte_array(dst, token.as_slice());
                },
                None => {},
            }
        }
        proof { assert(final(dst)@ =~= old(dst)@ + self.encoding(version)); }
        Ok(())
    }
}

// ---------------------------------------------------------------------------
// Login start
// ---------------------------------------------------------------------------

/// The chat-signing key a 1.19 client sends when it logs in.
#[derive(Clone)]
pub struct PlayerPublicKey {
    pub expiry: u64,
    pub key: Vec<u8>,
    pub signature: Vec<u8>,
}

/// The bytes of a player public key with these fields.
pub open spec fn player_public_key_bytes(expiry: u64, key: Seq<u8>, signature: Seq<u8>) -> Seq<u8> {
    u64_be(expiry) + byte_array_bytes(key) + byte_array_bytes(signature)
}

/// Reading a player public key: expiry, key and signature, and the bytes
/// they took.
pub open spec fn player_public_key_decode(s: Seq<u8>) -> Result<(u64, Seq<u8>, Seq<u8>, nat), IoError> {
    if s.len() < 8 {
        Err(IoError::UnexpectedEof)
    } else {
        match byte_array_decode(s.skip(8), 512) {
            Err(e) => Err(e),
            Ok((key, n2)) => match byte_array_decode(s.skip((8 + n2) as int), 4096) {
                Err(e) => Err(e),
                Ok((sig, n3)) => Ok((u64_of_be(s.take(8)), key, sig, 8 + n2 + n3)),
            },
        }
    }
}

impl PlayerPublicKey {
    /// The key's fields as spec values.
    pub open spec fn fields(&self) -> (u64, Seq<u8>, Seq<u8>) {
        (self.expiry, self.key@, self.signature@)
    }

    fn decode(src: &mut ByteReader, version: i32) -> (r: Result<Self, IoError>)
        ensures
            match player_public_key_decode(old(src).rest()) {
                Ok((e, k, sig, n)) => r matches Ok(p) && p.fields() == (e, k, sig) && final(src).rest() == old(
                    src,
                ).rest().skip(n as int) && n <= old(src).rest().len(),
                Err(err) => r == Err::<Self, IoError>(err),
            },
    {
        let ghost s = src.rest();
        let expiry = src.read_u64_be()?;
        let key = EncodingHelper::read_byte_array(src, 512)?;
        let ghost n2 = byte_array_decode(s.skip(8), 512).unwrap().1;
        proof {
            lemma_byte_array_decode_len(s.skip(8), 512);
            assert(src.rest() =~= s.skip((8 + n2) as int));
        }
        let signature = EncodingHelper::read_byte_array(src, 4096)?;
        proof {
            lemma_byte_array_decode_len(s.skip((8 + n2) as int), 4096);
            let n3 = byte_array_decode(s.skip((8 + n2) as int), 4096).unwrap().1;
            assert(src.rest() =~= s.skip((8 + n2 + n3) as int));
        }
        Ok(PlayerPublicKey { expiry, key, signature })
    }

    fn encode(&self, dst: &mut Vec<u8>, version: i32) -> (r: Result<(), IoError>)
        ensures
            r is Ok,
            final(dst)@ == old(dst)@ + player_public_key_bytes(self.expiry, self.key@, self.signature@),
    {
        write_u64_be(dst, self.expiry);
        let _ = EncodingHelper::write_byte_array(dst, self.key.as_slice());
        let _ = EncodingHelper::write_byte_array(dst, self.signature.as_slice());
        proof {
            assert(final(dst)@ =~= old(dst)@ + player_public_key_bytes(self.expiry, self.key@, self.signature@));
        }
        Ok(())
    }
}

/// The fields of an optional player public key, as spec values.
pub open spec fn opt_key_fields(o: Option<PlayerPublicKey>) -> Option<(u64, Seq<u8>, Seq<u8>)> {
    match o {
        Some(k) => Some(k.fields()),
        None => None,
    }
}

/// The bytes of an optional UUID, as spec values.
pub open spec fn opt_uuid_bytes(o: Option<Uuid>) -> Option<Seq<u8>> {
    match o {
        Some(u) => Some(u.bytes@),
        None => None,
    }
}

/// Whether a protocol version carries the player's chat-signing key in
/// the login start.
pub open spec fn sends_public_key(version: i32) -> bool {
    version >= R1_19 && version < R1_19_3
}

/// The first login packet: the player's name, and, depending on the
/// version, a chat-signing key and the player's UUID.
pub struct LoginRequest {
    pub name: String,
    pub public_key: Option<PlayerPublicKey>,
    pub uuid: Option<Uuid>,
}

/// Reading the optional key of a login start.
pub open spec fn login_key_decode(s: Seq<u8>, version: i32) -> Result<(Option<(u64, Seq<u8>, Seq<u8>)>, nat), IoError> {
    if sends_public_key(version) {
        match byte_field(s) {
            Err(e) => Err(e),
            Ok((flag, _)) => if flag == 0 {
                Ok((None, 1))
            } else {
                match player_public_key_decode(s.skip(1)) {
                    Err(e) => Err(e),
                    Ok((e, k, sig, n)) => Ok((Some((e, k, sig)), 1 + n)),
                }
            },
        }
    } else {
        Ok((None, 0))
    }
}

/// Reading the optional UUID of a login start.
pub open spec fn login_uuid_decode(s: Seq<u8>, version: i32) -> Result<(Option<Seq<u8>>, nat), IoError> {
    if version >= R1_19_1 {
        if version >= R1_20_2 {
            if s.len() < 16 {
                Err(IoError::UnexpectedEof)
            } else {
                Ok((Some(s.take(16)), 16))
            }
        } else {
            match byte_field(s) {
                Err(e) => Err(e),
                Ok((flag, _)) => if flag == 0 {
                    Ok((None, 1))
                } else if s.len() < 17 {
                    Err(IoError::UnexpectedEof)
                } else {
                    Ok((Some(s.subrange(1, 17)), 17))
                },
            }
        }
    } else {
        Ok((None, 0))
    }
}

/// Reading a login start in a protocol version.
pub open spec fn login_request_decode(s: Seq<u8>, version: i32) -> Result<
    (Seq<char>, Option<(u64, Seq<u8>, Seq<u8>)>, Option<Seq<u8>>, nat),
    IoError,
> {
    match string_decode(s, 16) {
        Err(e) => Err(e),
        Ok((name, n1)) => match login_key_decode(s.skip(n1 as int), version) {
            Err(e) => Err(e),
            Ok((key, n2)) => match login_uuid_decode(s.skip((n1 + n2) as int), version) {
                Err(e) => Err(e),
                Ok((uuid, n3)) => Ok((name, key, uuid, n1 + n2 + n3)),
            },
        },
    }
}

impl ClientPacket for LoginRequest {
    open spec fn packet_type(&self) -> ClientPacketType {
        ClientPacketType::LoginRequest
    }

    fn get_type(&self) -> (r: ClientPacketType) {
        ClientPacketType::LoginRequest
    }
}

impl LoginRequest {
    fn decode_key(src: &mut ByteReader, version: i32) -> (r: Result<Option<PlayerPublicKey>, IoError>)
        ensures
            match login_key_decode(old(src).rest(), version) {
                Ok((k, n)) => r matches Ok(key) && opt_key_fields(key) == k && final(src).rest() == old(src).rest().skip(
                    n as int,
                ) && n <= old(src).rest().len(),
                Err(e) => r == Err::<Option<PlayerPublicKey>, IoError>(e),
            },
    {
        let ghost s = src.rest();
        if version >= R1_19 && version < R1_19_3 {
            let flag = src.read_u8()?;
            proof { assert(src.rest() =~= s.skip(1)); }
            if flag == 0 {
                Ok(None)
            } else {
                let key = PlayerPublicKey::decode(src, version)?;
                proof {
                    let n = player_public_key_decode(s.skip(1)).unwrap().3;
                    assert(src.rest() =~= s.skip((1 + n) as int));
                }
                Ok(Some(key))
            }
        } else {
            proof { assert(s.skip(0) =~= s); }
            Ok(None)
        }
    }

    fn decode_uuid(src: &mut ByteReader, version: i32) -> (r: Result<Option<Uuid>, IoError>)
        ensures
            match login_uuid_decode(old(src).rest(), version) {
                Ok((u, n)) => r matches Ok(uuid) && opt_uuid_bytes(uuid) == u && final(src).rest() == old(src).rest().skip(
                    n as int,
                ) && n <= old(src).rest().len(),
                Err(e) => r == Err::<Option<Uuid>, IoError>(e),
            },
    {
        let ghost s = src.rest();
        if version >= R1_19_1 {
            if version >= R1_20_2 {
                let uuid = EncodingHelper::read_uuid(src)?;
                Ok(Some(uuid))
            } else {
                let flag = src.read_u8()?;
                if flag == 0 {
                    proof { assert(src.rest() =~= s.skip(1)); }
                    Ok(None)
                } else {
                    let uuid = EncodingHelper::read_uuid(src)?;
                    proof {
                        assert(uuid.bytes@ =~= s.subrange(1, 17));
                        assert(src.rest() =~= s.skip(17));
                    }
                    Ok(Some(uuid))
                }
            }
        } else {
            proof { assert(s.skip(0) =~= s); }
            Ok(None)
        }
    }
}

impl Packet for LoginRequest {
    open spec fn encoding(&self, version: i32) -> Seq<u8> {
        string_bytes(self.name@) + (if sends_public_key(version) {
            match self.public_key {
                Some(k) => seq![1u8] + player_public_key_bytes(k.expiry, k.key@, k.signature@),
                None => seq![0u8],
            }
        } else {
            Seq::empty()
        }) + (if version >= R1_19_1 {
            if version >= R1_20_2 {
                self.uuid.unwrap().bytes@
            } else {
                match self.uuid {
                    Some(u) => seq![1u8] + u.bytes@,
                    None => seq![0u8],
                }
            }
        } else {
            Seq::empty()
        })
    }

    open spec fn encodable(&self, version: i32) -> bool {
        version >= R1_20_2 ==> self.uuid is Some
    }

    fn decode(src: &mut ByteReader, version: i32) -> (r: Result<Self, IoError>)
        ensures
            match login_request_decode(old(src).rest(), version) {
                Ok((name, k, u, n)) => r matches Ok(p) && p.name@ == name && opt_key_fields(p.public_key) == k
                    && opt_uuid_bytes(p.uuid) == u && final(src).rest() == old(src).rest().skip(n as int),
                Err(e) => r == Err::<Self, IoError>(e),
            },
    {
        let ghost s = src.rest();
        let name = EncodingHelper::read_string(src, 16)?;
        let ghost n1 = string_decode(s, 16).unwrap().1;
        proof { lemma_string_decode_len(s, 16); }
        let public_key = Self::decode_key(src, version)?;
        let ghost n2 = login_key_decode(s.skip(n1 as int), version).unwrap().1;
        proof { assert(src.rest() =~= s.skip((n1 + n2) as int)); }
        let uuid = Self::decode_uuid(src, version)?;
        proof {
            let n3 = login_uuid_decode(s.skip((n1 + n2) as int), version).unwrap().1;
            assert(src.rest() =~= s.skip((n1 + n2 + n3) as int));
        }
        Ok(LoginRequest { name, public_key, uuid })
    }

    fn encode(&self, dst: &mut Vec<u8>, version: i32) -> (r: Result<(), IoError>) {
        let ghost d0 = dst@;
        let _ = EncodingHelper::write_string(dst, self.name.as_str());
        let ghost d1 = dst@;
        if version >= R1_19 && version < R1_19_3 {
            match &self.public_key {
                Some(key) => {
                    write_u8(dst, 1);
                    let _ = key.encode(dst, version);
                },
                None => {
                    write_u8(dst, 0);
                },
            }
        }
        let ghost d2 = dst@;
        if version >= R1_19_1 {
            if version >= R1_20_2 {
                match &self.uuid {
                    Some(uuid) => {
                        let _ = EncodingHelper::write_uuid(dst, uuid);
                    },
                    None => {},
                }
            } else {
                match &self.uuid {
                    Some(uuid) => {
                        write_u8(dst, 1);
                        let _ = EncodingHelper::write_uuid(dst, uuid);
                    },
                    None => {
                        write_u8(dst, 0);
                    },
                }
            }
        }
        proof { assert(final(dst)@ =~= old(dst)@ + self.encoding(version)); }
        Ok(())
    }
}

// ---------------------------------------------------------------------------
// ClientSettings
// ---------------------------------------------------------------------------

/// The client's settings: language, view distance, chat and skin options.
pub struct ClientSettings {
    pub local: String,
    pub view_distance: i8,
    pub chat_flags: i32,
    pub chat_colours: bool,
    pub skin_parts: i8,
    pub main_hand: i32,
    pub disable_text_filtering: bool,
    pub allow_server_listing: bool,
    pub particel_status: i32,
}

/// The fields of client settings as spec values, in wire order.
pub struct ClientSettingsFields {
    pub local: Seq<char>,
    pub view_distance: i8,
    pub chat_flags: i32,
    pub chat_colours: bool,
    pub skin_parts: i8,
    pub main_hand: i32,
    pub disable_text_filtering: bool,
    pub allow_server_listing: bool,
    pub particel_status: i32,
}

/// Reading the chat flags: a VarInt after 1.9, else one byte.
pub open spec fn chat_flags_decode(s: Seq<u8>, version: i32) -> Result<(i32, nat), IoError> {
    if version > R1_9 {
        varint_field(s)
    } else {
        match byte_field(s) {
            Err(e) => Err(e),
            Ok((b, n)) => Ok((b as i32, n)),
        }
    }
}

/// Reading the tail of client settings, from the chat colours on.
pub open spec fn client_settings_tail_decode(s: Seq<u8>, version: i32) -> Result<(bool, i8, i32, bool, bool, i32, nat), IoError> {
    match byte_field(s) {
        Err(e) => Err(e),
        Ok((colours, _)) => match byte_field(s.skip(1)) {
            Err(e) => Err(e),
            Ok((skin, _)) => match opt_varint_field(s.skip(2), version >= R1_9) {
                Err(e) => Err(e),
                Ok((hand, n3)) => match opt_bool_field(s.skip((2 + n3) as int), version >= R1_17) {
                    Err(e) => Err(e),
                    Ok((filter, n4)) => match opt_bool_field(s.skip((2 + n3 + n4) as int), version >= R1_18) {
                        Err(e) => Err(e),
                        Ok((listing, n5)) => match opt_varint_field(s.skip((2 + n3 + n4 + n5) as int), version >= R1_21_2) {
                            Err(e) => Err(e),
                            Ok((particles, n6)) => Ok(
                                (colours != 0, skin as i8, hand, filter, listing, particles, 2 + n3 + n4 + n5 + n6),
                            ),
                        },
                    },
                },
            },
        },
    }
}

/// Reading client settings in a protocol version.
pub open spec fn client_settings_decode(s: Seq<u8>, version: i32) -> Result<(ClientSettingsFields, nat), IoError> {
    match string_decode(s, 16) {
        Err(e) => Err(e),
        Ok((local, n1)) => match byte_field(s.skip(n1 as int)) {
            Err(e) => Err(e),
            Ok((view, _)) => match chat_flags_decode(s.skip((n1 + 1) as int), version) {
                Err(e) => Err(e),
                Ok((flags, n3)) => match client_settings_tail_decode(s.skip((n1 + 1 + n3) as int), version) {
                    Err(e) => Err(e),
                    Ok((colours, skin, hand, filter, listing, particles, n4)) => Ok(
                        (
                            ClientSettingsFields {
                                local,
                                view_distance: view as i8,
                                chat_flags: flags,
                                chat_colours: colours,
                                skin_parts: skin,
                                main_hand: hand,
                                disable_text_filtering: filter,
                                allow_server_listing: listing,
                                particel_status: particles,
                            },
                            n1 + 1 + n3 + n4,
                        ),
                    ),
                },
            },
        },
    }
}

impl ClientSettings {
    /// The settings' fields as spec values.
    pub open spec fn fields(&self) -> ClientSettingsFields {
        ClientSettingsFields {
            local: self.local@,
            view_distance: self.view_distance,
            chat_flags: self.chat_flags,
            chat_colours: self.chat_colours,
            skin_parts: self.skin_parts,
            main_hand: self.main_hand,
            disable_text_filtering: self.disable_text_filtering,
            allow_server_listing: self.allow_server_listing,
            particel_status: self.particel_status,
        }
    }
}

/// One byte for a flag.
pub open spec fn bool_byte(b: bool) -> Seq<u8> {
    seq![if b { 1u8 } else { 0u8 }]
}

impl ClientPacket for ClientSettings {
    open spec fn packet_type(&self) -> ClientPacketType {
        ClientPacketType::ClientSettings
    }

    fn get_type(&self) -> (r: ClientPacketType) {
        ClientPacketType::ClientSettings
    }
}

/// The bytes of client settings up to the chat flags.
pub open spec fn client_settings_head_bytes(c: &ClientSettings, version: i32) -> Seq<u8> {
    string_bytes(c.local@) + seq![c.view_distance as u8] + (if version > R1_9 {
        varint_bytes(c.chat_flags as u32)
    } else {
        seq![c.chat_flags as u8]
    })
}

/// The bytes of client settings from the chat colours on.
pub open spec fn client_settings_tail_bytes(c: &ClientSettings, version: i32) -> Seq<u8> {
    bool_byte(c.chat_colours) + seq![c.skin_parts as u8] + (if version >= R1_9 {
        varint_bytes(c.main_hand as u32)
    } else {
        Seq::empty()
    }) + (if version >= R1_17 {
        bool_byte(c.disable_text_filtering)
    } else {
        Seq::empty()
    }) + (if version >= R1_18 {
        bool_byte(c.allow_server_listing)
    } else {
        Seq::empty()
    }) + (if version >= R1_21_2 {
        varint_bytes(c.particel_status as u32)
    } else {
        Seq::empty()
    })
}

impl ClientSettings {
    fn decode_tail(src: &mut ByteReader, version: i32) -> (r: Result<(bool, i8, i32, bool, bool, i32), IoError>)
        ensures
            match client_settings_tail_decode(old(src).rest(), version) {
                Ok((a, b, c, d, e, f, n)) => r == Ok::<(bool, i8, i32, bool, bool, i32), IoError>((a, b, c, d, e, f))
                    && final(src).rest() == old(src).rest().skip(n as int) && n <= old(src).rest().len(),
                Err(e) => r == Err::<(bool, i8, i32, bool, bool, i32), IoError>(e),
            },
    {
        let ghost t = src.rest();
        let chat_colours = src.read_u8()? != 0;
        let skin_parts = src.read_u8()? as i8;
        proof { assert(src.rest() =~= t.skip(2)); }
        let main_hand = read_opt_varint_field(src, version >= R1_9)?;
        let ghost m3 = opt_varint_field(t.skip(2), version >= R1_9).unwrap().1;
        proof { assert(src.rest() =~= t.skip((2 + m3) as int)); }
        let disable_text_filtering = read_opt_bool_field(src, version >= R1_17)?;
        let ghost m4 = opt_bool_field(t.skip((2 + m3) as int), version >= R1_17).unwrap().1;
        proof { assert(src.rest() =~= t.skip((2 + m3 + m4) as int)); }
        let allow_server_listing = read_opt_bool_field(src, version >= R1_18)?;
        let ghost m5 = opt_bool_field(t.skip((2 + m3 + m4) as int), version >= R1_18).unwrap().1;
        proof { assert(src.rest() =~= t.skip((2 + m3 + m4 + m5) as int)); }
        let particel_status = read_opt_varint_field(src, version >= R1_21_2)?;
        proof {
            let m6 = opt_varint_field(t.skip((2 + m3 + m4 + m5) as int), version >= R1_21_2).unwrap().1;
            assert(src.rest() =~= t.skip((2 + m3 + m4 + m5 + m6) as int));
        }
        Ok((chat_colours, skin_parts, main_hand, disable_text_filtering, allow_server_listing, particel_status))
    }

    fn encode_head(&self, dst: &mut Vec<u8>, version: i32)
        ensures
            final(dst)@ == old(dst)@ + client_settings_head_bytes(self, version),
    {
        let _ = EncodingHelper::write_string(dst, self.local.as_str());
        write_u8(dst, self.view_distance as u8);
        if version > R1_9 {
            proof { law_varint_size(self.chat_flags); }
            let _ = VarInt(self.chat_flags).encode_simple(dst);
        } else {
            write_u8(dst, self.chat_flags as u8);
        }
        proof { assert(final(dst)@ =~= old(dst)@ + client_settings_head_bytes(self, version)); }
    }

    fn encode_tail(&self, dst: &mut Vec<u8>, version: i32)
        ensures
            final(dst)@ == old(dst)@ + client_settings_tail_bytes(self, version),
    {
        write_u8(dst, if self.chat_colours { 1 } else { 0 });
        write_u8(dst, self.skin_parts as u8);
        if version >= R1_9 {
            proof { law_varint_size(self.main_hand); }
            let _ = VarInt(self.main_hand).encode_simple(dst);
        }
        if version >= R1_17 {
            write_u8(dst, if self.disable_text_filtering { 1 } else { 0 });
        }
        if version >= R1_18 {
            write_u8(dst, if self.allow_server_listing { 1 } else { 0 });
        }
        if version >= R1_21_2 {
            proof { law_varint_size(self.particel_status); }
            let _ = VarInt(self.particel_status).encode_simple(dst);
        }
        proof { assert(final(dst)@ =~= old(dst)@ + client_settings_tail_bytes(self, version)); }
    }
}

impl Packet for ClientSettings {
    open spec fn encoding(&self, version: i32) -> Seq<u8> {
        client_settings_head_bytes(self, version) + client_settings_tail_bytes(self, version)
    }

    open spec fn encodable(&self, version: i32) -> bool {
        true
    }

    fn decode(src: &mut ByteReader, version: i32) -> (r: Result<Self, IoError>)
        ensures
            match client_settings_decode(old(src).rest(), version) {
                Ok((f, n)) => r matches Ok(p) && p.fields() == f && final(src).rest() == old(src).rest().skip(n as int),
                Err(e) => r == Err::<Self, IoError>(e),
            },
    {
        let ghost s = src.rest();
        let local = EncodingHelper::read_string(src, 16)?;
        let ghost n1 = string_decode(s, 16).unwrap().1;
        proof { lemma_string_decode_len(s, 16); }
        let view_distance = src.read_u8()? as i8;
        proof { assert(src.rest() =~= s.skip((n1 + 1) as int)); }
        let chat_flags = if version > R1_9 {
            read_varint_field(src)?
        } else {
            let b = src.read_u8()?;
            proof { assert(src.rest() =~= s.skip((n1 + 1) as int).skip(1)); }
            b as i32
        };
        let ghost n3 = chat_flags_decode(s.skip((n1 + 1) as int), version).unwrap().1;
        proof { assert(src.rest() =~= s.skip((n1 + 1 + n3) as int)); }
        let (chat_colours, skin_parts, main_hand, disable_text_filtering, allow_server_listing, particel_status) =
            Self::decode_tail(src, version)?;
        proof {
            let n4 = client_settings_tail_decode(s.skip((n1 + 1 + n3) as int), version).unwrap().6;
            assert(src.rest() =~= s.skip((n1 + 1 + n3 + n4) as int));
        }
        Ok(ClientSettings {
            local,
            view_distance,
            chat_flags,
            chat_colours,
            skin_parts,
            main_hand,
            disable_text_filtering,
            allow_server_listing,
            particel_status,
        })
    }

    fn encode(&self, dst: &mut Vec<u8>, version: i32) -> (r: Result<(), IoError>) {
        self.encode_head(dst, version);
        self.encode_tail(dst, version);
        proof { assert(final(dst)@ =~= old(dst)@ + self.encoding(version)); }
        Ok(())
    }
}

// ---------------------------------------------------------------------------
// Tab completion request
// ---------------------------------------------------------------------------

/// The client asks for completions of what it has typed.
#[derive(Debug)]
pub struct TabCompleteRequest {
    pub transaction_id: Option<i32>,
    pub cursor: String,
    pub assume_command: Option<bool>,
    pub position: Option<i64>,
}

/// The longest text a completion request carries in a protocol version.
pub open spec fn cursor_limit(version: i32) -> nat {
    if version > R1_13 {
        32500
    } else if version == R1_13 {
        256
    } else {
        32767
    }
}

/// Reading the transaction id of a completion request (1.13 on).
pub open spec fn transaction_decode(s: Seq<u8>, version: i32) -> Result<(Option<i32>, nat), IoError> {
    if version >= R1_13 {
        match varint_field(s) {
            Err(e) => Err(e),
            Ok((v, n)) => Ok((Some(v), n)),
        }
    } else {
        Ok((None, 0))
    }
}

/// Reading the fields a completion request has before 1.13.
pub open spec fn legacy_completion_decode(s: Seq<u8>, version: i32) -> Result<(Option<bool>, Option<i64>, nat), IoError> {
    if version < R1_13 {
        let flag_field: Result<(Option<bool>, nat), IoError> = if version >= R1_9 {
            match byte_field(s) {
                Err(e) => Err(e),
                Ok((b, n)) => Ok((Some(b != 0), n)),
            }
        } else {
            Ok((None, 0))
        };
        match flag_field {
            Err(e) => Err(e),
            Ok((a, n1)) => match byte_field(s.skip(n1 as int)) {
                Err(e) => Err(e),
                Ok((flag, _)) => if flag == 0 {
                    Ok((a, None, n1 + 1))
                } else {
                    match i64_field(s.skip((n1 + 1) as int)) {
                        Err(e) => Err(e),
                        Ok((p, n3)) => Ok((a, Some(p), n1 + 1 + n3)),
                    }
                },
            },
        }
    } else {
        Ok((None, None, 0))
    }
}

/// Reading a completion request in a protocol version.
pub open spec fn tab_complete_request_decode(s: Seq<u8>, version: i32) -> Result<
    (Option<i32>, Seq<char>, Option<bool>, Option<i64>, nat),
    IoError,
> {
    match transaction_decode(s, version) {
        Err(e) => Err(e),
        Ok((tx, n1)) => match string_decode(s.skip(n1 as int), cursor_limit(version)) {
            Err(e) => Err(e),
            Ok((cursor, n2)) => match legacy_completion_decode(s.skip((n1 + n2) as int), version) {
                Err(e) => Err(e),
                Ok((a, p, n3)) => Ok((tx, cursor, a, p, n1 + n2 + n3)),
            },
        },
    }
}

impl ClientPacket for TabCompleteRequest {
    open spec fn packet_type(&self) -> ClientPacketType {
        ClientPacketType::TabCompleteRequest
    }

    fn get_type(&self) -> (r: ClientPacketType) {
        ClientPacketType::TabCompleteRequest
    }
}

impl TabCompleteRequest {
    fn decode_legacy(src: &mut ByteReader, version: i32) -> (r: Result<(Option<bool>, Option<i64>), IoError>)
        ensures
            match legacy_completion_decode(old(src).rest(), version) {
                Ok((a, p, n)) => r == Ok::<(Option<bool>, Option<i64>), IoError>((a, p)) && final(src).rest() == old(
                    src,
                ).rest().skip(n as int) && n <= old(src).rest().len(),
                Err(e) => r == Err::<(Option<bool>, Option<i64>), IoError>(e),
            },
    {
        let ghost s = src.rest();
        if version < R1_13 {
            let assume_command = if version >= R1_9 {
                let b = src.read_u8()?;
                Some(b != 0)
            } else {
                None
            };
            let ghost n1: nat = if version >= R1_9 { 1 } else { 0 };
            proof { assert(src.rest() =~= s.skip(n1 as int)); }
            let flag = src.read_u8()?;
            proof { assert(src.rest() =~= s.skip((n1 + 1) as int)); }
            if flag == 0 {
                Ok((assume_command, None))
            } else {
                let position = src.read_i64_be()?;
                proof { assert(src.rest() =~= s.skip((n1 + 1 + 8) as int)); }
                Ok((assume_command, Some(position)))
            }
        } else {
            proof { assert(s.skip(0) =~= s); }
            Ok((None, None))
        }
    }
}

impl Packet for TabCompleteRequest {
    open spec fn encoding(&self, version: i32) -> Seq<u8> {
        (if version >= R1_13 {
            varint_bytes(self.transaction_id.unwrap() as u32)
        } else {
            Seq::empty()
        }) + string_bytes(self.cursor@) + (if version < R1_13 {
            (if version >= R1_9 {
                bool_byte(self.assume_command.unwrap())
            } else {
                Seq::empty()
            }) + match self.position {
                Some(p) => seq![1u8] + u64_be(p as u64),
                None => seq![0u8],
            }
        } else {
            Seq::empty()
        })
    }

    open spec fn encodable(&self, version: i32) -> bool {
        &&& version >= R1_13 ==> self.transaction_id is Some
        &&& (version < R1_13 && version >= R1_9) ==> self.assume_command is Some
    }

    fn decode(src: &mut ByteReader, version: i32) -> (r: Result<Self, IoError>)
        ensures
            match tab_complete_request_decode(old(src).rest(), version) {
                Ok((tx, cursor, a, p, n)) => r matches Ok(req) && req.transaction_id == tx && req.cursor@ == cursor
                    && req.assume_command == a && req.position == p && final(src).rest() == old(src).rest().skip(
                    n as int,
                ),
                Err(e) => r == Err::<Self, IoError>(e),
            },
    {
        let ghost s = src.rest();
        let transaction_id = if version >= R1_13 {
            let v = read_varint_field(src)?;
            Some(v)
        } else {
            None
        };
        let ghost n1 = transaction_decode(s, version).unwrap().1;
        proof { assert(src.rest() =~= s.skip(n1 as int)); }
        let limit: usize = if version > R1_13 {
            32500
        } else if version == R1_13 {
            256
        } else {
            32767
        };
        let cursor = EncodingHelper::read_string(src, limit)?;
        let ghost n2 = string_decode(s.skip(n1 as int), cursor_limit(version)).unwrap().1;
        proof {
            lemma_string_decode_len(s.skip(n1 as int), cursor_limit(version));
            assert(src.rest() =~= s.skip((n1 + n2) as int));
        }
        let (assume_command, position) = Self::decode_legacy(src, version)?;
        proof {
            let n3 = legacy_completion_decode(s.skip((n1 + n2) as int), version).unwrap().2;
            assert(src.rest() =~= s.skip((n1 + n2 + n3) as int));
        }
        Ok(TabCompleteRequest { transaction_id, cursor, assume_command, position })
    }

    fn encode(&self, dst: &mut Vec<u8>, version: i32) -> (r: Result<(), IoError>) {
        if version >= R1_13 {
            match self.transaction_id {
                Some(id) => {
                    proof { law_varint_size(id); }
                    let _ = VarInt(id).encode_simple(dst);
                },
                None => {},
            }
        }
        let _ = EncodingHelper::write_string(dst, self.cursor.as_str());
        if version < R1_13 {
            if version >= R1_9 {
                match self.assume_command {
                    Some(a) => write_u8(dst, if a { 1 } else { 0 }),
                    None => {},
                }
            }
            match self.position {
                Some(p) => {
                    write_u8(dst, 1);
                    write_i64_be(dst, p);
                },
                None => write_u8(dst, 0),
            }
        }
        proof { assert(final(dst)@ =~= old(dst)@ + self.encoding(version)); }
        Ok(())
    }
}

// ---------------------------------------------------------------------------
// Tab completion response
// ---------------------------------------------------------------------------

/// The server's completions: from 1.13 on a transaction id and suggestions,
/// before that a plain list of completed commands.
pub struct TabCompleteResponse {
    pub transaction_id: Option<i32>,
    pub suggestions: Option<Suggestions>,
    pub commands: Option<Vec<String>>,
}

/// Suggestions as spec values: start, length, completions.
pub type SuggestionsView = (i32, i32, Seq<SuggestionView>);

/// The view of optional suggestions.
pub open spec fn opt_suggestions_view(o: Option<Suggestions>) -> Option<SuggestionsView> {
    match o {
        Some(x) => Some((x.start, x.length, suggestion_views(x.matches@))),
        None => None,
    }
}

/// The characters of each string, in order.
pub open spec fn string_views(v: Seq<String>) -> Seq<Seq<char>> {
    v.map_values(|t: String| t@)
}

/// The view of an optional list of strings.
pub open spec fn opt_string_views(o: Option<Vec<String>>) -> Option<Seq<Seq<char>>> {
    match o {
        Some(v) => Some(string_views(v@)),
        None => None,
    }
}

/// Reading `k` strings of at most 32767 characters one after another.
pub open spec fn string_list_decode(s: Seq<u8>, k: nat) -> Result<(Seq<Seq<char>>, nat), IoError>
    decreases k,
{
    if k == 0 {
        Ok((Seq::empty(), 0))
    } else {
        match string_list_decode(s, (k - 1) as nat) {
            Err(e) => Err(e),
            Ok((v, n)) => match string_decode(s.skip(n as int), 32767) {
                Err(e) => Err(e),
                Ok((x, m)) => Ok((v.push(x), n + m)),
            },
        }
    }
}

/// The bytes of strings one after another.
pub open spec fn string_list_bytes(v: Seq<Seq<char>>) -> Seq<u8>
    decreases v.len(),
{
    if v.len() == 0 {
        Seq::empty()
    } else {
        string_list_bytes(v.drop_last()) + string_bytes(v.last())
    }
}

/// Reading a completion response in a protocol version.
pub open spec fn tab_complete_response_decode(s: Seq<u8>, version: i32) -> Result<
    (Option<i32>, Option<SuggestionsView>, Option<Seq<Seq<char>>>, nat),
    IoError,
> {
    if version >= R1_13 {
        match varint_field(s) {
            Err(e) => Err(e),
            Ok((tx, n1)) => match suggestions_decode(s.skip(n1 as int), version) {
                Err(e) => Err(e),
                Ok((start, length, ms, n2)) => Ok((Some(tx), Some((start, length, ms)), None, n1 + n2)),
            },
        }
    } else {
        match varint_field(s) {
            Err(e) => Err(e),
            Ok((c, n1)) => match string_list_decode(s.skip(n1 as int), count_of(c)) {
                Err(e) => Err(e),
                Ok((list, n2)) => Ok((None, None, Some(list), n1 + n2)),
            },
        }
    }
}

proof fn lemma_string_list_decode_err(s: Seq<u8>, k: nat, m: nat)
    requires
        k <= m,
        string_list_decode(s, k) is Err,
    ensures
        string_list_decode(s, m) == string_list_decode(s, k),
    decreases m,
{
    if m > k {
        lemma_string_list_decode_err(s, k, (m - 1) as nat);
    }
}

fn read_string_list(src: &mut ByteReader, count: i32) -> (r: Result<Vec<String>, IoError>)
    ensures
        match string_list_decode(old(src).rest(), count_of(count)) {
            Ok((v, n)) => r matches Ok(x) && string_views(x@) == v && final(src).rest() == old(src).rest().skip(n as int)
                && n <= old(src).rest().len(),
            Err(e) => r == Err::<Vec<String>, IoError>(e),
        },
{
    let ghost s = src.rest();
    let mut out: Vec<String> = Vec::new();
    let mut i: i32 = 0;
    let ghost mut used: nat = 0;
    proof {
        assert(s.skip(0) =~= s);
        assert(string_views(out@) =~= Seq::<Seq<char>>::empty());
    }
    while i < count
        invariant
            s == old(src).rest(),
            0 <= i,
            count <= 0 ==> i == 0,
            count > 0 ==> i <= count,
            string_list_decode(s, i as nat) == Ok::<(Seq<Seq<char>>, nat), IoError>((string_views(out@), used)),
            src.rest() == s.skip(used as int),
            used <= s.len(),
        decreases count - i,
    {
        let ghost before = src.rest();
        proof { lemma_string_decode_len(before, 32767); }
        match EncodingHelper::read_string(src, 32767) {
            Ok(x) => {
                proof {
                    let m = string_decode(before, 32767).unwrap().1;
                    assert(src.rest() =~= s.skip((used + m) as int));
                    used = used + m;
                }
                let ghost prev = string_views(out@);
                let ghost xv = x@;
                out.push(x);
                proof { assert(string_views(out@) =~= prev.push(xv)); }
                i = i + 1;
            },
            Err(e) => {
                proof { lemma_string_list_decode_err(s, (i + 1) as nat, count_of(count)); }
                return Err(e);
            },
        }
    }
    Ok(out)
}

fn write_string_list(dst: &mut Vec<u8>, v: &Vec<String>)
    ensures
        final(dst)@ == old(dst)@ + string_list_bytes(string_views(v@)),
{
    let ghost d0 = dst@;
    let ghost vs = string_views(v@);
    let mut i: usize = 0;
    proof { assert(d0 + string_list_bytes(vs.take(0)) =~= d0); }
    while i < v.len()
        invariant
            d0 == old(dst)@,
            vs == string_views(v@),
            i <= v@.len(),
            dst@ == d0 + string_list_bytes(vs.take(i as int)),
        decreases v.len() - i,
    {
        let _ = EncodingHelper::write_string(dst, v[i].as_str());
        proof {
            assert(vs.take((i + 1) as int).drop_last() =~= vs.take(i as int));
            assert(vs.take((i + 1) as int).last() == v@[i as int]@);
            assert(dst@ =~= d0 + string_list_bytes(vs.take((i + 1) as int)));
        }
        i = i + 1;
    }
    proof { assert(vs.take(v@.len() as int) =~= vs); }
}

impl ServerPacket for TabCompleteResponse {
    open spec fn packet_type(&self) -> ServerPacketType {
        ServerPacketType::TabCompleteResponse
    }

    fn get_type(&self) -> (r: ServerPacketType) {
        ServerPacketType::TabCompleteResponse
    }
}

impl Packet for TabCompleteResponse {
    open spec fn encoding(&self, version: i32) -> Seq<u8> {
        if version >= R1_13 {
            let sg = self.suggestions.unwrap();
            varint_bytes(self.transaction_id.unwrap() as u32) + suggestions_bytes(
                sg.start,
                sg.length,
                suggestion_views(sg.matches@),
            )
        } else {
            let list = string_views(self.commands.unwrap()@);
            varint_bytes((list.len() as i32) as u32) + string_list_bytes(list)
        }
    }

    open spec fn encodable(&self, version: i32) -> bool {
        &&& version >= R1_13 ==> self.transaction_id is Some && self.suggestions is Some
        &&& version < R1_13 ==> self.commands is Some
    }

    fn decode(src: &mut ByteReader, version: i32) -> (r: Result<Self, IoError>)
        ensures
            match tab_complete_response_decode(old(src).rest(), version) {
                Ok((tx, sg, list, n)) => r matches Ok(p) && p.transaction_id == tx && opt_suggestions_view(p.suggestions)
                    == sg && opt_string_views(p.commands) == list && final(src).rest() == old(src).rest().skip(
                    n as int,
                ),
                Err(e) => r == Err::<Self, IoError>(e),
            },
    {
        let ghost s = src.rest();
        if version >= R1_13 {
            let tx = read_varint_field(src)?;
            let ghost n1 = varint_field(s).unwrap().1;
            let suggestions = Suggestions::decode(src, version)?;
            proof {
                let n2 = suggestions_decode(s.skip(n1 as int), version).unwrap().3;
                assert(src.rest() =~= s.skip((n1 + n2) as int));
            }
            Ok(TabCompleteResponse { transaction_id: Some(tx), suggestions: Some(suggestions), commands: None })
        } else {
            let count = read_varint_field(src)?;
            let ghost n1 = varint_field(s).unwrap().1;
            let list = read_string_list(src, count)?;
            proof {
                let n2 = string_list_decode(s.skip(n1 as int), count_of(count)).unwrap().1;
                assert(src.rest() =~= s.skip((n1 + n2) as int));
            }
            Ok(TabCompleteResponse { transaction_id: None, suggestions: None, commands: Some(list) })
        }
    }

    fn encode(&self, dst: &mut Vec<u8>, version: i32) -> (r: Result<(), IoError>) {
        let ghost d0 = dst@;
        if version >= R1_13 {
            match (self.transaction_id, &self.suggestions) {
                (Some(tx), Some(sg)) => {
                    proof { law_varint_size(tx); }
                    let _ = VarInt(tx).encode_simple(dst);
                    let _ = sg.encode(dst, version);
                },
                _ => {},
            }
        } else {
            match &self.commands {
                Some(list) => {
                    let count = list.len() as i32;
                    proof { law_varint_size(count); }
                    let _ = VarInt(count).encode_simple(dst);
                    write_string_list(dst, list);
                },
                None => {},
            }
        }
        proof { assert(dst@ =~= d0 + self.encoding(version)); }
        Ok(())
    }
}

// ---------------------------------------------------------------------------
// LoginSuccess
// ---------------------------------------------------------------------------

/// The end of the login: the player's profile as the proxy accepted it.
pub struct LoginSuccess {
    pub profile: GameProfile,
}

/// A profile property's fields as spec values.
pub type PropertyFields = (Seq<char>, Seq<char>, Option<Seq<char>>);

/// The fields of each property, in order.
pub open spec fn properties_fields(v: Seq<Property>) -> Seq<PropertyFields> {
    v.map_values(|p: Property| p.fields())
}

/// Reading one profile property: name, value, and a signature after a
/// nonzero flag.
pub open spec fn property_decode(s: Seq<u8>) -> Result<(PropertyFields, nat), IoError> {
    match string_decode(s, 255) {
        Err(e) => Err(e),
        Ok((name, n1)) => match string_decode(s.skip(n1 as int), 32767) {
            Err(e) => Err(e),
            Ok((value, n2)) => match byte_field(s.skip((n1 + n2) as int)) {
                Err(e) => Err(e),
                Ok((flag, _)) => if flag == 0 {
                    Ok(((name, value, None), n1 + n2 + 1))
                } else {
                    match string_decode(s.skip((n1 + n2 + 1) as int), 255) {
                        Err(e) => Err(e),
                        Ok((sig, n4)) => Ok(((name, value, Some(sig)), n1 + n2 + 1 + n4)),
                    }
                },
            },
        },
    }
}

/// Reading `k` profile properties one after another.
pub open spec fn properties_decode(s: Seq<u8>, k: nat) -> Result<(Seq<PropertyFields>, nat), IoError>
    decreases k,
{
    if k == 0 {
        Ok((Seq::empty(), 0))
    } else {
        match properties_decode(s, (k - 1) as nat) {
            Err(e) => Err(e),
            Ok((props, n)) => match property_decode(s.skip(n as int)) {
                Err(e) => Err(e),
                Ok((p, m)) => Ok((props.push(p), n + m)),
            },
        }
    }
}

/// The number of iterations a count read as an `i32` gives.
pub open spec fn count_of(c: i32) -> nat {
    if c <= 0 {
        0
    } else {
        c as nat
    }
}

/// Reading the profile id of a login success: sixteen UUID bytes from 1.16
/// on, else the UUID as text, which must parse.
pub open spec fn profile_id_decode(s: Seq<u8>, version: i32) -> Result<(Seq<char>, nat), IoError> {
    if version >= R1_16 {
        if s.len() < 16 {
            Err(IoError::UnexpectedEof)
        } else {
            Ok((uuid_text(s.take(16)), 16))
        }
    } else {
        match string_decode(s, 36) {
            Err(e) => Err(e),
            Ok((t, n)) => if uuid_parse_result(t) is None {
                Err(IoError::InvalidData)
            } else {
                Ok((t, n))
            },
        }
    }
}

/// Reading the properties of a login success (1.19 on): a count, then the
/// properties.
pub open spec fn profile_properties_decode(s: Seq<u8>, version: i32) -> Result<(Seq<PropertyFields>, nat), IoError> {
    if version >= R1_19 {
        match varint_decode(s, 5) {
            Err(e) => Err(e),
            Ok((c, n1)) => match properties_decode(s.skip(n1 as int), count_of(c as i32)) {
                Err(e) => Err(e),
                Ok((props, n2)) => Ok((props, n1 + n2)),
            },
        }
    } else {
        Ok((Seq::empty(), 0))
    }
}

/// Whether a protocol version ends the login success with the flag about
/// ignoring malformed packets.
pub open spec fn has_strict_flag(version: i32) -> bool {
    version >= R1_20_5 && version < R1_21_2
}

/// Reading a login success in a protocol version.
pub open spec fn login_success_decode(s: Seq<u8>, version: i32) -> Result<
    (Seq<char>, Seq<char>, Seq<PropertyFields>, nat),
    IoError,
> {
    match profile_id_decode(s, version) {
        Err(e) => Err(e),
        Ok((id, n1)) => match string_decode(s.skip(n1 as int), 16) {
            Err(e) => Err(e),
            Ok((name, n2)) => match profile_properties_decode(s.skip((n1 + n2) as int), version) {
                Err(e) => Err(e),
                Ok((props, n3)) => {
                    if has_strict_flag(version) {
                        match byte_field(s.skip((n1 + n2 + n3) as int)) {
                            Err(e) => Err(e),
                            Ok((_, n4)) => Ok((id, name, props, n1 + n2 + n3 + n4)),
                        }
                    } else {
                        Ok((id, name, props, n1 + n2 + n3))
                    }
                },
            },
        },
    }
}

/// The bytes of one profile property.
pub open spec fn property_bytes(p: PropertyFields) -> Seq<u8> {
    string_bytes(p.0) + string_bytes(p.1) + match p.2 {
        Some(sig) => seq![1u8] + string_bytes(sig),
        None => seq![0u8],
    }
}

/// The bytes of profile properties one after another.
pub open spec fn properties_bytes(ps: Seq<PropertyFields>) -> Seq<u8>
    decreases ps.len(),
{
    if ps.len() == 0 {
        Seq::empty()
    } else {
        properties_bytes(ps.drop_last()) + property_bytes(ps.last())
    }
}

/// Once reading some properties failed, reading more fails the same way.
proof fn lemma_properties_decode_err(s: Seq<u8>, k: nat, m: nat)
    requires
        k <= m,
        properties_decode(s, k) is Err,
    ensures
        properties_decode(s, m) == properties_decode(s, k),
    decreases m,
{
    if m > k {
        lemma_properties_decode_err(s, k, (m - 1) as nat);
    }
}

/// A successful read of properties uses no more bytes than there are.
proof fn lemma_properties_decode_len(s: Seq<u8>, k: nat)
    ensures
        properties_decode(s, k) matches Ok((ps, n)) ==> n <= s.len() && ps.len() == k,
    decreases k,
{
    if k > 0 {
        lemma_properties_decode_len(s, (k - 1) as nat);
        if let Ok((ps, n)) = properties_decode(s, (k - 1) as nat) {
            lemma_property_decode_len(s.skip(n as int));
        }
    }
}

proof fn lemma_property_decode_len(s: Seq<u8>)
    ensures
        property_decode(s) matches Ok((p, n)) ==> n <= s.len(),
{
    lemma_string_decode_len(s, 255);
    if let Ok((name, n1)) = string_decode(s, 255) {
        lemma_string_decode_len(s.skip(n1 as int), 32767);
        if let Ok((value, n2)) = string_decode(s.skip(n1 as int), 32767) {
            lemma_string_decode_len(s.skip((n1 + n2 + 1) as int), 255);
        }
    }
}

fn read_property(src: &mut ByteReader) -> (r: Result<Property, IoError>)
    ensures
        match property_decode(old(src).rest()) {
            Ok((p, n)) => r matches Ok(prop) && prop.fields() == p && final(src).rest() == old(src).rest().skip(n as int),
            Err(e) => r == Err::<Property, IoError>(e),
        },
{
    let ghost s = src.rest();
    let name = EncodingHelper::read_string(src, 255)?;
    let ghost n1 = string_decode(s, 255).unwrap().1;
    proof { lemma_string_decode_len(s, 255); }
    let value = EncodingHelper::read_string(src, 32767)?;
    let ghost n2 = string_decode(s.skip(n1 as int), 32767).unwrap().1;
    proof {
        lemma_string_decode_len(s.skip(n1 as int), 32767);
        assert(src.rest() =~= s.skip((n1 + n2) as int));
    }
    let flag = src.read_u8()?;
    proof { assert(src.rest() =~= s.skip((n1 + n2 + 1) as int)); }
    if flag != 0 {
        let sig = EncodingHelper::read_string(src, 255)?;
        proof {
            lemma_string_decode_len(s.skip((n1 + n2 + 1) as int), 255);
            let n4 = string_decode(s.skip((n1 + n2 + 1) as int), 255).unwrap().1;
            assert(src.rest() =~= s.skip((n1 + n2 + 1 + n4) as int));
        }
        Ok(Property { name, value, signature: Some(sig) })
    } else {
        Ok(Property { name, value, signature: None })
    }
}

fn read_properties(src: &mut ByteReader, count: i32) -> (r: Result<Vec<Property>, IoError>)
    ensures
        match properties_decode(old(src).rest(), count_of(count)) {
            Ok((ps, n)) => r matches Ok(props) && properties_fields(props@) == ps
                && final(src).rest() == old(src).rest().skip(n as int),
            Err(e) => r == Err::<Vec<Property>, IoError>(e),
        },
{
    let ghost s = src.rest();
    let mut properties: Vec<Property> = Vec::new();
    let mut i: i32 = 0;
    let ghost mut used: nat = 0;
    proof {
        assert(s.skip(0) =~= s);
        assert(properties_fields(properties@) =~= Seq::<PropertyFields>::empty());
    }
    while i < count
        invariant
            s == old(src).rest(),
            0 <= i,
            count <= 0 ==> i == 0,
            count > 0 ==> i <= count,
            properties_decode(s, i as nat) == Ok::<(Seq<PropertyFields>, nat), IoError>(
                (properties_fields(properties@), used),
            ),
            src.rest() == s.skip(used as int),
            used <= s.len(),
        decreases count - i,
    {
        let ghost before = src.rest();
        match read_property(src) {
            Ok(p) => {
                proof {
                    let m = property_decode(before).unwrap().1;
                    lemma_property_decode_len(before);
                    assert(src.rest() =~= s.skip((used + m) as int));
                    used = used + m;
                }
                let ghost prev = properties_fields(properties@);
                let ghost pf = p.fields();
                properties.push(p);
                proof { assert(properties_fields(properties@) =~= prev.push(pf)); }
                i = i + 1;
            },
            Err(e) => {
                proof {
                    assert(before == s.skip(used as int));
                    assert(properties_decode(s, (i + 1) as nat) == Err::<(Seq<PropertyFields>, nat), IoError>(e));
                    lemma_properties_decode_err(s, (i + 1) as nat, count_of(count));
                }
                return Err(e);
            },
        }
    }
    assert(count_of(count) == i as nat);
    Ok(properties)
}

fn write_property(dst: &mut Vec<u8>, p: &Property)
    ensures
        final(dst)@ == old(dst)@ + property_bytes(p.fields()),
{
    let _ = EncodingHelper::write_string(dst, p.name.as_str());
    let _ = EncodingHelper::write_string(dst, p.value.as_str());
    match &p.signature {
        Some(sig) => {
            write_u8(dst, 1);
            let _ = EncodingHelper::write_string(dst, sig.as_str());
        },
        None => write_u8(dst, 0),
    }
    proof { assert(final(dst)@ =~= old(dst)@ + property_bytes(p.fields())); }
}

fn write_properties(dst: &mut Vec<u8>, props: &Vec<Property>)
    ensures
        final(dst)@ == old(dst)@ + properties_bytes(properties_fields(props@)),
{
    let ghost d0 = dst@;
    let ghost fs = properties_fields(props@);
    let mut i: usize = 0;
    proof { assert(d0 + properties_bytes(fs.take(0)) =~= d0); }
    while i < props.len()
        invariant
            d0 == old(dst)@,
            fs == properties_fields(props@),
            i <= props@.len(),
            dst@ == d0 + properties_bytes(fs.take(i as int)),
        decreases props.len() - i,
    {
        write_property(dst, &props[i]);
        proof {
            assert(fs.take((i + 1) as int).drop_last() =~= fs.take(i as int));
            assert(fs.take((i + 1) as int).last() == props@[i as int].fields());
            assert(dst@ =~= d0 + properties_bytes(fs.take((i + 1) as int)));
        }
        i = i + 1;
    }
    proof { assert(fs.take(props@.len() as int) =~= fs); }
}

impl ServerPacket for LoginSuccess {
    open spec fn packet_type(&self) -> ServerPacketType {
        ServerPacketType::LoginSuccess
    }

    fn get_type(&self) -> (r: ServerPacketType) {
        ServerPacketType::LoginSuccess
    }
}

impl LoginSuccess {
    fn decode_id(src: &mut ByteReader, version: i32) -> (r: Result<String, IoError>)
        ensures
            match profile_id_decode(old(src).rest(), version) {
                Ok((id, n)) => r matches Ok(t) && t@ == id && final(src).rest() == old(src).rest().skip(n as int) && n
                    <= old(src).rest().len(),
                Err(e) => r == Err::<String, IoError>(e),
            },
    {
        if version >= R1_16 {
            let uuid = EncodingHelper::read_uuid(src)?;
            Ok(uuid.to_hyphenated_string())
        } else {
            proof { lemma_string_decode_len(old(src).rest(), 36); }
            let text = EncodingHelper::read_string(src, 36)?;
            match Uuid::parse_str(text.as_str()) {
                Some(_) => Ok(text),
                None => Err(IoError::InvalidData),
            }
        }
    }

    fn decode_properties(src: &mut ByteReader, version: i32) -> (r: Result<Vec<Property>, IoError>)
        ensures
            match profile_properties_decode(old(src).rest(), version) {
                Ok((ps, n)) => r matches Ok(props) && properties_fields(props@) == ps
                    && final(src).rest() == old(src).rest().skip(n as int) && n <= old(src).rest().len(),
                Err(e) => r == Err::<Vec<Property>, IoError>(e),
            },
    {
        let ghost s = src.rest();
        if version >= R1_19 {
            proof { lemma_varint_decode_len(s, 5); }
            let count = VarInt::decode(src, 5)?.get();
            let ghost n1 = varint_decode(s, 5).unwrap().1;
            let props = read_properties(src, count)?;
            proof {
                lemma_properties_decode_len(s.skip(n1 as int), count_of(count));
                let n2 = properties_decode(s.skip(n1 as int), count_of(count)).unwrap().1;
                assert(src.rest() =~= s.skip((n1 + n2) as int));
            }
            Ok(props)
        } else {
            proof {
                assert(s.skip(0) =~= s);
                assert(properties_fields(Seq::<Property>::empty()) =~= Seq::<PropertyFields>::empty());
            }
            Ok(Vec::new())
        }
    }
}

impl Packet for LoginSuccess {
    open spec fn encoding(&self, version: i32) -> Seq<u8> {
        (if version >= R1_16 {
            uuid_parse_result(self.profile.id@).unwrap()
        } else {
            string_bytes(self.profile.id@)
        }) + string_bytes(self.profile.name@) + (if version >= R1_19 {
            varint_bytes((self.profile.properties@.len() as i32) as u32) + properties_bytes(
                properties_fields(self.profile.properties@),
            )
        } else {
            Seq::empty()
        }) + (if has_strict_flag(version) {
            seq![1u8]
        } else {
            Seq::empty()
        })
    }

    open spec fn encodable(&self, version: i32) -> bool {
        version >= R1_16 ==> uuid_parse_result(self.profile.id@) is Some
    }

    fn decode(src: &mut ByteReader, version: i32) -> (r: Result<Self, IoError>)
        ensures
            match login_success_decode(old(src).rest(), version) {
                Ok((id, name, ps, n)) => r matches Ok(p) && p.profile.id@ == id && p.profile.name@ == name
                    && properties_fields(p.profile.properties@) == ps && final(src).rest() == old(src).rest().skip(
                    n as int,
                ),
                Err(e) => r == Err::<Self, IoError>(e),
            },
    {
        let ghost s = src.rest();
        let id = Self::decode_id(src, version)?;
        let ghost n1 = profile_id_decode(s, version).unwrap().1;
        let name = EncodingHelper::read_string(src, 16)?;
        let ghost n2 = string_decode(s.skip(n1 as int), 16).unwrap().1;
        proof {
            lemma_string_decode_len(s.skip(n1 as int), 16);
            assert(src.rest() =~= s.skip((n1 + n2) as int));
        }
        let properties = Self::decode_properties(src, version)?;
        let ghost n3 = profile_properties_decode(s.skip((n1 + n2) as int), version).unwrap().1;
        proof { assert(src.rest() =~= s.skip((n1 + n2 + n3) as int)); }
        if version >= R1_20_5 && version < R1_21_2 {
            let _ = src.read_u8()?;
            proof { assert(src.rest() =~= s.skip((n1 + n2 + n3 + 1) as int)); }
        }
        Ok(LoginSuccess { profile: GameProfile { id, name, properties } })
    }

    fn encode(&self, dst: &mut Vec<u8>, version: i32) -> (r: Result<(), IoError>) {
        let ghost d0 = dst@;
        if version >= R1_16 {
            match Uuid::parse_str(self.profile.id.as_str()) {
                Some(uuid) => {
                    let _ = EncodingHelper::write_uuid(dst, &uuid);
                },
                None => {},
            }
        } else {
            let _ = EncodingHelper::write_string(dst, self.profile.id.as_str());
        }
        let _ = EncodingHelper::write_string(dst, self.profile.name.as_str());
        if version >= R1_19 {
            let count = self.profile.properties.len() as i32;
            proof { law_varint_size(count); }
            let _ = VarInt(count).encode(dst, 5);
            write_properties(dst, &self.profile.properties);
        }
        if version >= R1_20_5 && version < R1_21_2 {
            write_u8(dst, 1);
        }
        proof { assert(final(dst)@ =~= old(dst)@ + self.encoding(version)); }
        Ok(())
    }
}

// ---------------------------------------------------------------------------
// Packets that carry chat components
// ---------------------------------------------------------------------------
//
// A component travels as JSON text or, from 1.20.3 on, as NBT.  Turning
// JSON text into values and NBT into JSON (which involves floating-point
// numbers) is done by the caller; these packets read and write the framed
// form and go between components and JSON values.

/// The longest JSON text a packet carries, in characters.
pub const JSON_TEXT_LIMIT: usize = 32767;

/// The server refuses a login, with a reason.
pub struct LoginDisconnect {
    pub text: Text,
}

impl ServerPacket for LoginDisconnect {
    open spec fn packet_type(&self) -> ServerPacketType {
        ServerPacketType::LoginDisconnect
    }

    fn get_type(&self) -> (r: ServerPacketType) {
        ServerPacketType::LoginDisconnect
    }
}

impl LoginDisconnect {
    /// Reads the JSON text of the reason.
    pub fn read_json(src: &mut ByteReader) -> (r: Result<String, IoError>)
        ensures
            match string_decode(old(src).rest(), JSON_TEXT_LIMIT as nat) {
                Ok((t, n)) => r matches Ok(s) && s@ == t && final(src).rest() == old(src).rest().skip(n as int),
                Err(e) => r == Err::<String, IoError>(e),
            },
    {
        EncodingHelper::read_string(src, JSON_TEXT_LIMIT)
    }

    /// The packet for a reason read from JSON.
    pub fn from_json(value: &JsonValue) -> (r: Result<LoginDisconnect, DeserializationError>)
        ensures
            match text_of_json(json_view(*value)) {
                Ok(tv) => r matches Ok(p) && text_view(p.text) == tv,
                Err(e) => r == Err::<LoginDisconnect, DeserializationError>(e),
            },
    {
        let text = deserialize_json(value)?;
        Ok(LoginDisconnect { text })
    }

    /// The JSON of the reason.
    pub fn to_json(&self) -> (r: JsonValue)
        ensures
            json_view(r) == text_json(text_view(self.text)),
    {
        serialize_json(&self.text)
    }

    /// Writes the packet, given the JSON text of the reason.
    pub fn write_json(dst: &mut Vec<u8>, json: &str)
        ensures
            final(dst)@ == old(dst)@ + string_bytes(json@),
    {
        let _ = EncodingHelper::write_string(dst, json);
    }
}

/// The server disconnects a player, with a reason.
pub struct Kick {
    pub text: Text,
}

impl ServerPacket for Kick {
    open spec fn packet_type(&self) -> ServerPacketType {
        ServerPacketType::Kick
    }

    fn get_type(&self) -> (r: ServerPacketType) {
        ServerPacketType::Kick
    }
}

/// Whether a protocol version carries components as NBT.
pub open spec fn text_as_nbt(version: i32) -> bool {
    version >= R1_20_3
}

/// Reading a component as NBT: there must be a tag (not none, not named).
pub open spec fn text_nbt_decode(s: Seq<u8>, version: i32) -> Result<(NbtView, nat), IoError> {
    match network_nbt_decode(s, version) {
        Err(e) => Err(e),
        Ok((NetworkNbtView::Unnamed(Some(v)), n)) => Ok((v, n)),
        Ok(_) => Err(IoError::InvalidData),
    }
}

/// Reads a component sent as NBT.
pub(crate) fn read_text_nbt(src: &mut ByteReader, version: i32) -> (r: Result<NbtType, IoError>)
    ensures
        match text_nbt_decode(old(src).rest(), version) {
            Ok((v, n)) => r matches Ok(t) && nbt_view(t) == v && final(src).rest() == old(src).rest().skip(n as int)
                && n <= old(src).rest().len(),
            Err(e) => r == Err::<NbtType, IoError>(e),
        },
{
    match read_networking_nbt(src, version)? {
        NetworkNbt::Unnamed(Some(tag)) => Ok(tag),
        _ => Err(IoError::InvalidData),
    }
}

impl Kick {
    /// Reads the reason as JSON text (before 1.20.3).
    pub fn read_json(src: &mut ByteReader) -> (r: Result<String, IoError>)
        ensures
            match string_decode(old(src).rest(), JSON_TEXT_LIMIT as nat) {
                Ok((t, n)) => r matches Ok(s) && s@ == t && final(src).rest() == old(src).rest().skip(n as int),
                Err(e) => r == Err::<String, IoError>(e),
            },
    {
        EncodingHelper::read_string(src, JSON_TEXT_LIMIT)
    }

    /// Reads the reason as NBT (1.20.3 on).
    pub fn read_nbt(src: &mut ByteReader, version: i32) -> (r: Result<NbtType, IoError>)
        ensures
            match text_nbt_decode(old(src).rest(), version) {
                Ok((v, n)) => r matches Ok(t) && nbt_view(t) == v && final(src).rest() == old(src).rest().skip(n as int),
                Err(e) => r == Err::<NbtType, IoError>(e),
            },
    {
        read_text_nbt(src, version)
    }

    /// The packet for a reason read from JSON.
    pub fn from_json(value: &JsonValue) -> (r: Result<Kick, DeserializationError>)
        ensures
            match text_of_json(json_view(*value)) {
                Ok(tv) => r matches Ok(p) && text_view(p.text) == tv,
                Err(e) => r == Err::<Kick, DeserializationError>(e),
            },
    {
        let text = deserialize_json(value)?;
        Ok(Kick { text })
    }

    /// The JSON of the reason.
    pub fn to_json(&self) -> (r: JsonValue)
        ensures
            json_view(r) == text_json(text_view(self.text)),
    {
        serialize_json(&self.text)
    }

    /// Writes the reason as JSON text (before 1.20.3).
    pub fn write_json(dst: &mut Vec<u8>, json: &str)
        ensures
            final(dst)@ == old(dst)@ + string_bytes(json@),
    {
        let _ = EncodingHelper::write_string(dst, json);
    }

    /// Writes the reason as NBT (1.20.3 on).
    pub fn write_nbt(dst: &mut Vec<u8>, version: i32, tag: NbtType)
        ensures
            final(dst)@ == old(dst)@ + seq![view_id(nbt_view(tag)) as u8] + crate::server::nbt::nbt_bytes(nbt_view(tag)),
    {
        let nbt = NetworkNbt::Unnamed(Some(tag));
        let _ = write_networking_nbt(dst, version, &nbt);
    }
}

/// A chat message from the server (1.19 on), with where it shows.
pub struct SystemChatMessage {
    pub message: Text,
    pub pos: i32,
}

impl ServerPacket for SystemChatMessage {
    open spec fn packet_type(&self) -> ServerPacketType {
        ServerPacketType::SystemChatMessage
    }

    fn get_type(&self) -> (r: ServerPacketType) {
        ServerPacketType::SystemChatMessage
    }
}

/// Reading where a system message shows: from 1.19.1 on a flag (2 for the
/// action bar, else 0), before that a VarInt.
pub open spec fn chat_position_decode(s: Seq<u8>, version: i32) -> Result<(i32, nat), IoError> {
    if version >= R1_19_1 {
        match byte_field(s) {
            Err(e) => Err(e),
            Ok((b, n)) => Ok((if b != 0 { 2i32 } else { 0i32 }, n)),
        }
    } else {
        varint_field(s)
    }
}

/// The bytes of where a system message shows.
pub open spec fn chat_position_bytes(pos: i32, version: i32) -> Seq<u8> {
    if version >= R1_19_1 {
        seq![pos as u8]
    } else {
        varint_bytes(pos as u32)
    }
}

impl SystemChatMessage {
    /// Reads the message (as NBT) and where it shows.  Before 1.20.2 the
    /// message would be a named tag, which this packet does not read.
    pub fn read_nbt_and_position(src: &mut ByteReader, version: i32) -> (r: Result<(NbtType, i32), IoError>)
        requires
            version >= R1_20_2,
        ensures
            match text_nbt_decode(old(src).rest(), version) {
                Ok((v, n)) => match chat_position_decode(old(src).rest().skip(n as int), version) {
                    Ok((pos, m)) => r matches Ok((t, p)) && nbt_view(t) == v && p == pos && final(src).rest() == old(
                        src,
                    ).rest().skip((n + m) as int),
                    Err(e) => r == Err::<(NbtType, i32), IoError>(e),
                },
                Err(e) => r == Err::<(NbtType, i32), IoError>(e),
            },
    {
        let ghost s = src.rest();
        let tag = read_text_nbt(src, version)?;
        let ghost n = text_nbt_decode(s, version).unwrap().1;
        let pos = if version >= R1_19_1 {
            let b = src.read_u8()?;
            proof { assert(old(src).rest().skip(n as int).drop_first() =~= s.skip((n + 1) as int)); }
            if b != 0 { 2 } else { 0 }
        } else {
            read_varint_field(src)?
        };
        proof {
            let m = chat_position_decode(s.skip(n as int), version).unwrap().1;
            assert(src.rest() =~= s.skip((n + m) as int));
        }
        Ok((tag, pos))
    }

    /// The packet for a message read from JSON.
    pub fn from_json(value: &JsonValue, pos: i32) -> (r: Result<SystemChatMessage, DeserializationError>)
        ensures
            match text_of_json(json_view(*value)) {
                Ok(tv) => r matches Ok(p) && text_view(p.message) == tv && p.pos == pos,
                Err(e) => r == Err::<SystemChatMessage, DeserializationError>(e),
            },
    {
        let message = deserialize_json(value)?;
        Ok(SystemChatMessage { message, pos })
    }

    /// The JSON of the message.
    pub fn to_json(&self) -> (r: JsonValue)
        ensures
            json_view(r) == text_json(text_view(self.message)),
    {
        serialize_json(&self.message)
    }

    /// Writes the message (as NBT) and where it shows.
    pub fn write(&self, dst: &mut Vec<u8>, version: i32, tag: NbtType)
        ensures
            final(dst)@ == old(dst)@ + seq![view_id(nbt_view(tag)) as u8] + crate::server::nbt::nbt_bytes(nbt_view(tag))
                + chat_position_bytes(self.pos, version),
    {
        let ghost t = nbt_view(tag);
        let nbt = NetworkNbt::Unnamed(Some(tag));
        let _ = write_networking_nbt(dst, version, &nbt);
        if version >= R1_19_1 {
            write_u8(dst, self.pos as u8);
        } else {
            proof { law_varint_size(self.pos); }
            let _ = VarInt(self.pos).encode_simple(dst);
        }
        proof { assert(final(dst)@ =~= old(dst)@ + seq![view_id(t) as u8] + crate::server::nbt::nbt_bytes(t) + chat_position_bytes(self.pos, version)); }
    }
}

// ---------------------------------------------------------------------------
// What a read gives back of a write
// ---------------------------------------------------------------------------

/// Law: a set-compression packet reads back as written, whatever follows.
pub proof fn law_set_compression_roundtrip(compression: i32, rest: Seq<u8>)
    ensures
        set_compression_decode(varint_bytes(compression as u32) + rest) == Ok::<(i32, nat), IoError>(
            (compression, varint_len(compression as u32)),
        ),
{
    law_varint_size(compression);
    law_varint_roundtrip(compression, rest, 5);
}

/// Law: a cookie request reads back as written, whatever follows, when the
/// cookie's name is within the limit.
pub proof fn law_cookie_request_roundtrip(cookie: Seq<char>, rest: Seq<u8>)
    requires
        encode_utf8(cookie).len() <= 32767 * 3,
    ensures
        string_decode(string_bytes(cookie) + rest, 32767) == Ok::<(Seq<char>, nat), IoError>(
            (cookie, string_bytes(cookie).len()),
        ),
{
    law_string_roundtrip(cookie, rest, 32767);
    law_varint_size(encode_utf8(cookie).len() as i32);
}

/// Law: a cookie response reads back as written, whatever follows, when the
/// name and the data are within their limits.
pub proof fn law_cookie_response_roundtrip(cookie: Seq<char>, data: Option<Seq<u8>>, rest: Seq<u8>)
    requires
        encode_utf8(cookie).len() <= 32767 * 3,
        data matches Some(d) ==> d.len() <= 5120,
    ensures
        cookie_response_decode(cookie_response_bytes(cookie, data) + rest) == Ok::<
            (Seq<char>, Option<Seq<u8>>, nat),
            IoError,
        >((cookie, data, cookie_response_bytes(cookie, data).len())),
{
    let a = string_bytes(cookie);
    let tail = match data {
        Some(d) => seq![1u8] + byte_array_bytes(d),
        None => seq![0u8],
    };
    let s = cookie_response_bytes(cookie, data) + rest;
    assert(s =~= a + (tail + rest));
    law_string_roundtrip(cookie, tail + rest, 32767);
    law_varint_size(encode_utf8(cookie).len() as i32);
    assert(s.skip(a.len() as int) =~= tail + rest);
    match data {
        Some(d) => {
            assert(s.skip(a.len() as int).skip(1) =~= byte_array_bytes(d) + rest);
            law_byte_array_roundtrip(d, rest, 5120);
            law_varint_size(d.len() as i32);
        },
        None => {},
    }
}

/// Law: a login plugin request reads back as written; its data runs to the
/// end of the packet.
pub proof fn law_login_plugin_request_roundtrip(id: i32, channel: Seq<char>, data: Seq<u8>)
    requires
        encode_utf8(channel).len() <= 255 * 3,
    ensures
        login_plugin_request_decode(varint_bytes(id as u32) + string_bytes(channel) + data) == Ok::<
            (i32, Seq<char>, Seq<u8>, nat),
            IoError,
        >((id, channel, data, (varint_bytes(id as u32) + string_bytes(channel) + data).len())),
{
    let a = varint_bytes(id as u32);
    let b = string_bytes(channel);
    let s = a + b + data;
    assert(s =~= a + (b + data));
    law_varint_size(id);
    law_varint_roundtrip(id, b + data, 5);
    assert(s.skip(a.len() as int) =~= b + data);
    law_string_roundtrip(channel, data, 255);
    law_varint_size(encode_utf8(channel).len() as i32);
    assert(s.skip((a.len() + b.len()) as int) =~= data);
}

/// Law: a login plugin response reads back as written; its data runs to the
/// end of the packet and must be shorter than the size limit.
pub proof fn law_login_plugin_response_roundtrip(id: i32, data: Option<Seq<u8>>)
    requires
        data matches Some(d) ==> d.len() < LOGIN_PLUGIN_RESPONSE_LIMIT,
    ensures
        ({
            let s = varint_bytes(id as u32) + match data {
                Some(d) => seq![1u8] + d,
                None => seq![0u8],
            };
            login_plugin_response_decode(s) == Ok::<(i32, Option<Seq<u8>>, nat), IoError>((id, data, s.len()))
        }),
{
    let a = varint_bytes(id as u32);
    let tail = match data {
        Some(d) => seq![1u8] + d,
        None => seq![0u8],
    };
    law_varint_size(id);
    law_varint_roundtrip(id, tail, 5);
    assert((a + tail).skip(a.len() as int) =~= tail);
    match data {
        Some(d) => {
            assert(tail.skip(1) =~= d);
        },
        None => {},
    }
}

/// Law: a player's public key reads back as written, whatever follows, when
/// key and signature are within their limits.
pub proof fn law_player_public_key_roundtrip(expiry: u64, key: Seq<u8>, signature: Seq<u8>, rest: Seq<u8>)
    requires
        key.len() <= 512,
        signature.len() <= 4096,
    ensures
        player_public_key_decode(player_public_key_bytes(expiry, key, signature) + rest) == Ok::<
            (u64, Seq<u8>, Seq<u8>, nat),
            IoError,
        >((expiry, key, signature, player_public_key_bytes(expiry, key, signature).len())),
{
    let a = u64_be(expiry);
    let b = byte_array_bytes(key);
    let c = byte_array_bytes(signature);
    let s = player_public_key_bytes(expiry, key, signature) + rest;
    assert(s =~= a + (b + (c + rest)));
    assert(s.take(8) =~= a);
    lemma_u64_be(expiry);
    assert(s.skip(8) =~= b + (c + rest));
    law_byte_array_roundtrip(key, c + rest, 512);
    law_varint_size(key.len() as i32);
    assert(s.skip((8 + b.len()) as int) =~= c + rest);
    law_byte_array_roundtrip(signature, rest, 4096);
    law_varint_size(signature.len() as i32);
}


} // verus!

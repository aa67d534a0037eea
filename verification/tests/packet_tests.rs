use crust::auth::{GameProfile, Property};
use crust::server::packet_ids::{ClientPacketType, PacketRegistry, ServerPacketType};
use crust::server::packets::{
    get_full_server_packet_buf, CookieRequest, CookieResponse, Handshake, LoginPluginRequest, LoginPluginResponse,
    LoginSuccess, Packet, ProtocolState, SetCompression, TabCompleteRequest, TabCompleteResponse, LOGIN_PLUGIN_RESPONSE_LIMIT,
};
use crust::util::{ByteReader, IoError};

#[test]
fn handshake_reads_back() {
    let h = Handshake { version: 767, host: "mc.example.org".to_string(), port: 25577, next_state: 2 };
    let mut out = Vec::new();
    h.encode(&mut out, 767).unwrap();
    out.push(0xEE);
    let mut r = ByteReader::new(&out);
    let back = Handshake::decode(&mut r, 0).unwrap();
    assert_eq!(back.version, 767);
    assert_eq!(back.host, "mc.example.org");
    assert_eq!(back.port, 25577);
    assert_eq!(back.next_state, 2);
    assert_eq!(r.remaining(), 1);
}

#[test]
fn registry_ids() {
    let reg = PacketRegistry::instance();
    assert_eq!(reg.get_server_packet_id(ProtocolState::Login, 767, ServerPacketType::SetCompression), Some(0x03));
    assert_eq!(reg.get_server_packet_type(ProtocolState::Login, 767, 0x03), Some(ServerPacketType::SetCompression));
    assert_eq!(reg.get_client_packet_id(ProtocolState::Login, 767, ClientPacketType::LoginRequest), Some(0x00));
    assert_eq!(reg.get_client_packet_type(ProtocolState::Login, 767, 0x7f), None);
}

#[test]
fn full_packet_has_its_id() {
    let p = SetCompression { compression: 256 };
    let buf = get_full_server_packet_buf(&p, 767, ProtocolState::Login).unwrap().unwrap();
    assert_eq!(buf, vec![0x03, 0x80, 0x02]);
}

#[test]
fn login_plugin_response_limit() {
    let mut data = vec![7u8, 1];
    data.extend_from_slice(&[9u8; 10]);
    let mut r = ByteReader::new(&data);
    let p = LoginPluginResponse::decode(&mut r, 767).unwrap();
    assert_eq!(p.id, 7);
    assert_eq!(p.data.unwrap().len(), 10);
    let mut data = vec![7u8, 1];
    data.extend(std::iter::repeat(0u8).take(LOGIN_PLUGIN_RESPONSE_LIMIT));
    let mut r = ByteReader::new(&data);
    assert!(matches!(LoginPluginResponse::decode(&mut r, 767), Err(IoError::InvalidData)));
    let mut r = ByteReader::new(&[7u8, 0]);
    assert!(LoginPluginResponse::decode(&mut r, 767).unwrap().data.is_none());
}

#[test]
fn login_success_reads_back() {
    let p = LoginSuccess {
        profile: GameProfile {
            id: "b50ad385-829d-3141-a216-7e7d7539ba7f".to_string(),
            name: "Notch".to_string(),
            properties: vec![Property { name: "textures".into(), value: "abc".into(), signature: Some("sig".into()) }],
        },
    };
    let mut out = Vec::new();
    p.encode(&mut out, 767).unwrap();
    let mut r = ByteReader::new(&out);
    let back = LoginSuccess::decode(&mut r, 767).unwrap();
    assert_eq!(back.profile.id, p.profile.id);
    assert_eq!(back.profile.name, "Notch");
    assert_eq!(back.profile.properties.len(), 1);
    assert_eq!(back.profile.properties[0].signature.as_deref(), Some("sig"));
    assert_eq!(r.remaining(), 0);
}

#[test]
fn tab_completion_packets() {
    let req = TabCompleteRequest { transaction_id: Some(3), cursor: "/server l".into(), assume_command: None, position: None };
    let mut out = Vec::new();
    req.encode(&mut out, 767).unwrap();
    let mut r = ByteReader::new(&out);
    let back = TabCompleteRequest::decode(&mut r, 767).unwrap();
    assert_eq!(back.transaction_id, Some(3));
    assert_eq!(back.cursor, "/server l");
    let resp = TabCompleteResponse { transaction_id: None, suggestions: None, commands: Some(vec!["/a".into(), "/b".into()]) };
    let mut out = Vec::new();
    resp.encode(&mut out, 47).unwrap();
    assert_eq!(out, vec![2, 2, b'/', b'a', 2, b'/', b'b']);
    let mut r = ByteReader::new(&out);
    let back = TabCompleteResponse::decode(&mut r, 47).unwrap();
    assert_eq!(back.commands.unwrap(), vec!["/a".to_string(), "/b".to_string()]);
}

#[test]
fn cookie_request_reads() {
    let mut out = Vec::new();
    CookieRequest { cookie: "minecraft:c".into() }.encode(&mut out, 767).unwrap();
    let mut r = ByteReader::new(&out);
    assert_eq!(CookieRequest::decode(&mut r, 767).unwrap().cookie, "minecraft:c");
}

#[test]
fn set_compression_reads_back() {
    for threshold in [-1, 0, 256, i32::MAX] {
        let mut out = Vec::new();
        SetCompression { compression: threshold }.encode(&mut out, 767).unwrap();
        out.push(0x42);
        let mut r = ByteReader::new(&out);
        assert_eq!(SetCompression::decode(&mut r, 767).unwrap().compression, threshold);
        assert_eq!(r.remaining(), 1);
    }
}

#[test]
fn cookie_response_reads_back() {
    for data in [None, Some(vec![]), Some(vec![1u8, 2, 3])] {
        let mut out = Vec::new();
        CookieResponse { cookie: "minecraft:c".into(), data: data.clone() }.encode(&mut out, 767).unwrap();
        out.push(0x42);
        let mut r = ByteReader::new(&out);
        let back = CookieResponse::decode(&mut r, 767).unwrap();
        assert_eq!(back.cookie, "minecraft:c");
        assert_eq!(back.data, data);
        assert_eq!(r.remaining(), 1);
    }
}

#[test]
fn login_plugin_messages_read_back() {
    let mut out = Vec::new();
    LoginPluginRequest { id: 300, channel: "velocity:player_info".into(), data: vec![4, 5, 6] }
        .encode(&mut out, 767)
        .unwrap();
    let mut r = ByteReader::new(&out);
    let back = LoginPluginRequest::decode(&mut r, 767).unwrap();
    assert_eq!(back.id, 300);
    assert_eq!(back.channel, "velocity:player_info");
    assert_eq!(back.data, vec![4, 5, 6]);
    let mut out = Vec::new();
    LoginPluginResponse { id: 300, data: Some(vec![8, 9]) }.encode(&mut out, 767).unwrap();
    let mut r = ByteReader::new(&out);
    let back = LoginPluginResponse::decode(&mut r, 767).unwrap();
    assert_eq!(back.id, 300);
    assert_eq!(back.data, Some(vec![8, 9]));
}

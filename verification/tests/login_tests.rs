use rsa::pkcs8::EncodePrivateKey;
use crust::server::login::{
    accept_encryption_response, SecretError, backend_login_step, forward_host, frame_packet, handshake_length_ok, handshake_outcome, login_expect,
    offline_profile, plan_login, pong_body, read_handshake, shared_secret_of, status_response_body, status_step,
    strip_scope, verify_token_matches, BackendReply, BackendStep, ConnectError, HandshakeOutcome, LoginExpect,
    LoginPlan, LoginState, StatusAction, StatusPhase,
};
use crust::server::packet_ids::{ClientPacketType, ServerPacketType};
use crust::server::packets::{Handshake, Packet};
use crust::util::{ByteReader, EncodingHelper, IoError, VarInt};

fn handshake_frame(version: i32, next_state: i32) -> Vec<u8> {
    let mut body = Vec::new();
    VarInt(0).encode_simple(&mut body).unwrap();
    Handshake { version, host: "localhost".to_string(), port: 25565, next_state }.encode(&mut body, version).unwrap();
    body
}

#[test]
fn handshake_frames() {
    assert!(handshake_length_ok(6));
    assert!(handshake_length_ok(1000));
    assert!(!handshake_length_ok(5));
    assert!(!handshake_length_ok(1001));
    let h = read_handshake(&handshake_frame(767, 2)).unwrap();
    assert_eq!((h.version, h.host.as_str(), h.port, h.next_state), (767, "localhost", 25565, 2));
    assert_eq!(handshake_outcome(&h), HandshakeOutcome::Login);
    let h = read_handshake(&handshake_frame(1, 3)).unwrap();
    assert_eq!(handshake_outcome(&h), HandshakeOutcome::UnsupportedVersion);
    let h = read_handshake(&handshake_frame(1, 1)).unwrap();
    assert_eq!(handshake_outcome(&h), HandshakeOutcome::Status);
    let h = read_handshake(&handshake_frame(767, 7)).unwrap();
    assert_eq!(handshake_outcome(&h), HandshakeOutcome::InvalidState);
    let mut bad = handshake_frame(767, 2);
    bad[0] = 1;
    assert_eq!(read_handshake(&bad).unwrap_err(), IoError::InvalidData);
}

#[test]
fn status_exchange() {
    assert_eq!(status_step(StatusPhase::Request, 1, 0), Ok(StatusAction::SendStatus));
    assert_eq!(status_step(StatusPhase::Ping, 9, 1), Ok(StatusAction::SendPong));
    assert_eq!(status_step(StatusPhase::Ping, 1, 0), Err(IoError::InvalidData));
    assert_eq!(status_step(StatusPhase::Request, 9, 1), Err(IoError::InvalidData));
    assert_eq!(status_step(StatusPhase::Request, 2, 0), Err(IoError::InvalidData));
    assert_eq!(status_step(StatusPhase::Request, 1, 2), Err(IoError::InvalidData));
    assert_eq!(status_response_body("{}"), vec![0, 2, b'{', b'}']);
    assert_eq!(pong_body(0x0102030405060708), vec![1, 1, 2, 3, 4, 5, 6, 7, 8]);
    assert_eq!(frame_packet(&[9, 9]), vec![2, 9, 9]);
}

#[test]
fn login_states() {
    assert_eq!(login_expect(LoginState::Request, Some(ClientPacketType::LoginRequest)), Ok(LoginExpect::Request));
    assert_eq!(login_expect(LoginState::Encryption, Some(ClientPacketType::LoginRequest)), Err(IoError::InvalidData));
    assert_eq!(
        login_expect(LoginState::Encryption, Some(ClientPacketType::EncryptionResponse)),
        Ok(LoginExpect::EncryptionResponse)
    );
    assert_eq!(
        login_expect(LoginState::LoginAck, Some(ClientPacketType::LoginAcknowledged)),
        Ok(LoginExpect::Acknowledged)
    );
    assert_eq!(login_expect(LoginState::LoginAck, Some(ClientPacketType::CookieResponse)), Err(IoError::InvalidData));
    assert_eq!(login_expect(LoginState::Request, None), Err(IoError::InvalidData));
}

#[test]
fn login_plans() {
    let p = offline_profile("Notch");
    assert_eq!(p.id, "b50ad385-829d-3141-a216-7e7d7539ba7f");
    match plan_login("Notch", false, false) {
        LoginPlan::Finish(p) => assert_eq!(p.name, "Notch"),
        _ => panic!("expected finish"),
    }
    match plan_login("Notch", true, false) {
        LoginPlan::RequestEncryption(p) => assert!(p.is_none()),
        _ => panic!("expected encryption"),
    }
    match plan_login("Notch", false, true) {
        LoginPlan::RequestEncryption(Some(p)) => assert_eq!(p.id, "b50ad385-829d-3141-a216-7e7d7539ba7f"),
        _ => panic!("expected offline encryption"),
    }
    assert!(shared_secret_of(&[0u8; 15]).is_none());
    assert_eq!(shared_secret_of(&[7u8; 16]), Some([7u8; 16]));
    assert!(verify_token_matches(&[1, 2, 3], &[1, 2, 3]));
    assert!(!verify_token_matches(&[1, 2, 3], &[1, 2]));
    assert!(!verify_token_matches(&[1, 2, 3], &[1, 2, 4]));
}

#[test]
fn backend_steps() {
    let mut json = Vec::new();
    EncodingHelper::write_string(&mut json, "{\"text\":\"bye\"}").unwrap();
    let mut r = ByteReader::new(&json);
    match backend_login_step(Some(ServerPacketType::LoginDisconnect), &mut r, 767) {
        Err(ConnectError::Kicked(j)) => assert_eq!(j, "{\"text\":\"bye\"}"),
        other => panic!("unexpected {:?}", other),
    }
    let mut r = ByteReader::new(&[0x80, 0x02]);
    match backend_login_step(Some(ServerPacketType::SetCompression), &mut r, 767) {
        Ok(BackendStep::SetCompression(t)) => assert_eq!(t, 256),
        other => panic!("unexpected {:?}", other),
    }
    let mut body = vec![5u8];
    EncodingHelper::write_string(&mut body, "chan").unwrap();
    body.extend_from_slice(&[1, 2]);
    let mut r = ByteReader::new(&body);
    match backend_login_step(Some(ServerPacketType::LoginPluginRequest), &mut r, 767) {
        Ok(BackendStep::Reply(BackendReply::PluginResponse(p))) => {
            assert_eq!(p.id, 5);
            assert!(p.data.is_none());
        },
        other => panic!("unexpected {:?}", other),
    }
    let mut r = ByteReader::new(&[]);
    assert!(matches!(backend_login_step(Some(ServerPacketType::Kick), &mut r, 767), Ok(BackendStep::Continue)));
    let mut r = ByteReader::new(&[]);
    assert!(matches!(
        backend_login_step(Some(ServerPacketType::SetCompression), &mut r, 767),
        Err(ConnectError::Protocol(IoError::UnexpectedEof))
    ));
}

#[test]
fn forwarding_text() {
    assert_eq!(forward_host("host", "1.2.3.4", "uuid", None), "host\u{0}1.2.3.4\u{0}uuid");
    assert_eq!(forward_host("h", "ip", "id", Some("[]")), "h\u{0}ip\u{0}id\u{0}[]");
    assert_eq!(strip_scope("fe80::1%eth0"), "fe80::1");
    assert_eq!(strip_scope("::1"), "::1");
}

fn test_key() -> (rsa::RsaPublicKey, Vec<u8>) {
    let private = rsa::RsaPrivateKey::new(&mut rand::thread_rng(), 512).unwrap();
    let public = rsa::RsaPublicKey::from(&private);
    (public, private.to_pkcs8_der().unwrap().as_bytes().to_vec())
}

fn seal(public: &rsa::RsaPublicKey, data: &[u8]) -> Vec<u8> {
    public.encrypt(&mut rand::thread_rng(), rsa::Pkcs1v15Encrypt, data).unwrap()
}

#[test]
fn encryption_response_gives_the_key() {
    let (public, der) = test_key();
    let secret: Vec<u8> = (1u8..=16).collect();
    let token = [9u8, 8, 7, 6];
    let sealed_secret = seal(&public, &secret);
    let sealed_token = seal(&public, &token);
    let key = accept_encryption_response(&der, &sealed_secret, Some(sealed_token.as_slice()), &token).unwrap();
    assert_eq!(key.to_vec(), secret);
    let key = accept_encryption_response(&der, &sealed_secret, None, &token).unwrap();
    assert_eq!(key.to_vec(), secret);
    assert_eq!(
        accept_encryption_response(&der, &sealed_secret, Some(sealed_token.as_slice()), &[1, 2, 3, 4]),
        Err(SecretError::BadToken)
    );
    let short = seal(&public, &secret[..15]);
    assert_eq!(accept_encryption_response(&der, &short, None, &token), Err(SecretError::BadLength));
    assert_eq!(accept_encryption_response(&der, &[1, 2, 3], None, &token), Err(SecretError::DecryptFailed));
    assert_eq!(
        accept_encryption_response(&der, &sealed_secret, Some(&[5u8, 5][..]), &token),
        Err(SecretError::DecryptFailed)
    );
}

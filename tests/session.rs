use kem_session::auth::{authenticate, ConnectToken, PROTOCOL_ID};
use kem_session::client::ClientSession;
use kem_session::error::SessionError;
use kem_session::message::{ClientMessage, ServerMessage};
use kem_session::server::{PeerState, ServerSessions};
use kem_session::user::UserData;

fn token(peer_id: u64) -> ConnectToken {
    ConnectToken {
        protocol_id: PROTOCOL_ID,
        peer_id,
        expire_timestamp: 1_000,
        user_data: Some(b"alice".to_vec()),
    }
}

fn value(n: &[u8; 12]) -> u128 {
    n.iter().fold(0u128, |acc, b| acc * 256 + *b as u128)
}

/// Runs the key exchange for `peer_id`; returns the client.
fn handshake(server: &mut ServerSessions, peer_id: u64) -> ClientSession {
    let offer = server.client_connected(&token(peer_id), 10).unwrap();
    let mut client = ClientSession::new();
    let answer = client.receive_handshake(&offer).unwrap();
    server.receive_handshake(peer_id, &answer).unwrap();
    client
}

#[test]
fn handshake_derives_the_same_secret_on_both_sides() {
    let mut server = ServerSessions::new();
    let client = handshake(&mut server, 7);
    let s = server.session(7).unwrap();
    assert_eq!(s.state, PeerState::SecureChannelEstablished);
    assert!(s.decaps_key.is_none());
    let server_key = s.channel.as_ref().unwrap().key;
    assert_eq!(client.channel.as_ref().unwrap().key, server_key);
    assert_ne!(server_key, [0u8; 32]);
}

#[test]
fn ping_pong_end_to_end() {
    let mut server = ServerSessions::new();
    let mut client = handshake(&mut server, 11);
    let ping = client.seal_ping().unwrap();
    let pong = server.receive_encrypted(11, &ping).unwrap();
    let ch = server.session(11).unwrap().channel.as_ref().unwrap();
    assert_eq!(value(&ch.recv_nonce), 1);
    assert_eq!(value(&ch.send_nonce), 1);
    assert_eq!(client.receive_encrypted(&pong), Ok(ServerMessage::Pong));
    assert_eq!(value(&client.channel.as_ref().unwrap().recv_nonce), 1);
    assert_eq!(value(&client.channel.as_ref().unwrap().send_nonce), 1);
}

#[test]
fn pong_is_sealed_with_server_nonce_zero() {
    let mut server = ServerSessions::new();
    let mut client = handshake(&mut server, 12);
    let key = client.channel.as_ref().unwrap().key;
    let ping = client.seal_ping().unwrap();
    let pong = server.receive_encrypted(12, &ping).unwrap();
    let mut reader = kem_session::channel::SecureChannel::new(key);
    assert_eq!(reader.decrypt(&pong).unwrap(), ServerMessage::Pong.encode());
}

#[test]
fn application_message_before_handshake_is_refused() {
    let mut server = ServerSessions::new();
    server.client_connected(&token(3), 10).unwrap();
    let frame = kem_session::channel::SecureChannel::new([0u8; 32]).encrypt(&[0]).unwrap();
    assert_eq!(
        server.receive_encrypted(3, &frame),
        Err(SessionError::ProtocolStateViolation)
    );
    assert_eq!(server.session(3).unwrap().state, PeerState::AwaitingCiphertext);
    let mut client = ClientSession::new();
    assert_eq!(client.seal_ping(), Err(SessionError::ProtocolStateViolation));
    assert_eq!(
        client.receive_encrypted(&frame),
        Err(SessionError::ProtocolStateViolation)
    );
}

#[test]
fn unencrypted_ping_on_handshake_channel_is_refused() {
    let mut server = ServerSessions::new();
    server.client_connected(&token(4), 10).unwrap();
    assert_eq!(
        server.receive_handshake(4, &ClientMessage::Ping.encode()),
        Err(SessionError::ProtocolStateViolation)
    );
    assert_eq!(
        server.receive_handshake(4, &[9, 9]),
        Err(SessionError::EncodingFailure)
    );
    assert_eq!(
        server.receive_handshake(5, &ClientMessage::Ping.encode()),
        Err(SessionError::UnknownPeer)
    );
}

#[test]
fn second_ciphertext_is_a_state_violation() {
    let mut server = ServerSessions::new();
    let offer = server.client_connected(&token(6), 10).unwrap();
    let mut client = ClientSession::new();
    let answer = client.receive_handshake(&offer).unwrap();
    server.receive_handshake(6, &answer).unwrap();
    assert_eq!(
        server.receive_handshake(6, &answer),
        Err(SessionError::ProtocolStateViolation)
    );
    assert_eq!(
        client.receive_handshake(&offer),
        Err(SessionError::ProtocolStateViolation)
    );
}

#[test]
fn tampered_frame_is_dropped_and_session_kept() {
    let mut server = ServerSessions::new();
    let mut client = handshake(&mut server, 13);
    let mut ping = client.seal_ping().unwrap();
    ping[0] ^= 0x80;
    assert_eq!(
        server.receive_encrypted(13, &ping),
        Err(SessionError::DecryptFailure)
    );
    let ch = server.session(13).unwrap().channel.as_ref().unwrap();
    assert_eq!(value(&ch.recv_nonce), 0);
}

#[test]
fn expired_or_foreign_token_is_rejected() {
    let mut server = ServerSessions::new();
    assert_eq!(
        server.client_connected(&token(1), 1_000),
        Err(SessionError::AuthenticationFailure)
    );
    let mut foreign = token(1);
    foreign.protocol_id = PROTOCOL_ID + 1;
    assert_eq!(
        server.client_connected(&foreign, 10),
        Err(SessionError::AuthenticationFailure)
    );
    assert_eq!(server.len(), 0);
    assert!(authenticate(&token(1), 999).is_ok());
}

#[test]
fn token_without_metadata_is_anon() {
    let mut t = token(2);
    t.user_data = None;
    assert_eq!(authenticate(&t, 0).unwrap(), UserData::from_str("Anon"));
    t.user_data = Some(vec![b'q'; 300]);
    assert_eq!(authenticate(&t, 0).unwrap().0, [b'q'; 256]);
}

#[test]
fn disconnect_removes_all_secret_material() {
    let mut server = ServerSessions::new();
    let _client = handshake(&mut server, 21);
    server.client_connected(&token(22), 10).unwrap();
    server.client_disconnected(21);
    server.client_disconnected(22);
    assert!(server.session(21).is_none());
    assert!(server.session(22).is_none());
    assert_eq!(server.len(), 0);
}

#[test]
fn reconnect_starts_a_fresh_handshake() {
    let mut server = ServerSessions::new();
    let mut client = handshake(&mut server, 30);
    let old_key = client.channel.as_ref().unwrap().key;
    server.client_disconnected(30);
    client.disconnect();
    assert!(!client.is_established());
    server.client_connected(&token(30), 10).unwrap();
    let s = server.session(30).unwrap();
    assert_eq!(s.state, PeerState::AwaitingCiphertext);
    assert!(s.channel.is_none());
    let client = handshake(&mut server, 30);
    assert_ne!(client.channel.as_ref().unwrap().key, old_key);
}

#[test]
fn peers_are_isolated() {
    let mut server = ServerSessions::new();
    let mut a = handshake(&mut server, 40);
    let _b = handshake(&mut server, 41);
    let ping = a.seal_ping().unwrap();
    assert_eq!(
        server.receive_encrypted(41, &ping),
        Err(SessionError::DecryptFailure)
    );
    assert!(server.receive_encrypted(40, &ping).is_ok());
}

#[test]
fn decaps_failure_drops_the_peer() {
    let mut server = ServerSessions::new();
    server.client_connected(&token(50), 10).unwrap();
    assert_eq!(server.complete_handshake(50, None), Err(SessionError::HandshakeFailure));
    assert!(server.session(50).is_none());
}

#[test]
fn malformed_encapsulation_key_fails_the_client_handshake() {
    let mut client = ClientSession::new();
    let bad = ServerMessage::KEMEncapsKey([0xff; 800]).encode();
    assert_eq!(
        client.receive_handshake(&bad),
        Err(SessionError::HandshakeFailure)
    );
    assert!(!client.is_established());
}

#[test]
fn stale_handshake_is_dropped() {
    let mut server = ServerSessions::new();
    server.client_connected(&token(60), 100).unwrap();
    assert!(!server.drop_if_stale(60, 109));
    assert!(server.session(60).is_some());
    assert!(server.drop_if_stale(60, 110));
    assert!(server.session(60).is_none());
    let _client = handshake(&mut server, 61);
    assert!(!server.drop_if_stale(61, 10_000));
    assert!(!server.drop_if_stale(62, 10_000));
}

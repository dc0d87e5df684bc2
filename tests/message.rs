use kem_session::error::SessionError;
use kem_session::message::{ClientMessage, ServerMessage};

#[test]
fn messages_encode_as_variant_byte_then_payload() {
    assert_eq!(ClientMessage::Ping.encode(), vec![0]);
    assert_eq!(ServerMessage::Pong.encode(), vec![0]);
    let ct = ClientMessage::KEMCipherText([4u8; 768]).encode();
    assert_eq!(ct.len(), 769);
    assert_eq!(ct[0], 1);
    assert!(ct[1..].iter().all(|b| *b == 4));
    let ek = ServerMessage::KEMEncapsKey([5u8; 800]).encode();
    assert_eq!(ek.len(), 801);
    assert_eq!(ek[0], 1);
}

#[test]
fn messages_decode_what_they_encode() {
    let mut ct = [0u8; 768];
    ct[767] = 9;
    let m = ClientMessage::KEMCipherText(ct);
    assert_eq!(ClientMessage::decode(&m.encode()), Ok(m));
    assert_eq!(ClientMessage::decode(&[0]), Ok(ClientMessage::Ping));
    let k = ServerMessage::KEMEncapsKey([1u8; 800]);
    assert_eq!(ServerMessage::decode(&k.encode()), Ok(k));
    assert_eq!(ServerMessage::decode(&[0]), Ok(ServerMessage::Pong));
}

#[test]
fn malformed_bytes_are_an_encoding_failure() {
    assert_eq!(ClientMessage::decode(&[]), Err(SessionError::EncodingFailure));
    assert_eq!(ClientMessage::decode(&[2]), Err(SessionError::EncodingFailure));
    assert_eq!(ClientMessage::decode(&[0, 0]), Err(SessionError::EncodingFailure));
    assert_eq!(ClientMessage::decode(&[1; 768]), Err(SessionError::EncodingFailure));
    assert_eq!(ServerMessage::decode(&[1; 800]), Err(SessionError::EncodingFailure));
}

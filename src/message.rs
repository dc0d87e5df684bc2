//! The protocol messages and their byte layout: a variant byte, then the
//! variant's fixed-size payload, if any.

use crate::crypto::{CIPHERTEXT_LEN, ENCAPS_KEY_LEN};
use crate::error::SessionError;
use vstd::prelude::*;

verus! {

/// The transport channel of the key exchange: reliable and ordered, and
/// carrying its two messages unencrypted.
pub const HANDSHAKE_CHANNEL: u8 = 3;

/// The transport channel of the encrypted frames: reliable and ordered, as
/// the counter nonces require.
pub const SECURE_CHANNEL: u8 = 2;

/// A message sent by a client.
#[derive(Debug, Clone, Copy, PartialEq, Eq)]
pub enum ClientMessage {
    /// Application liveness probe; answered by `Pong`.
    Ping,
    /// The ML-KEM ciphertext answering the server's encapsulation key.
    KEMCipherText([u8; CIPHERTEXT_LEN]),
}

/// A message sent by the server.
#[derive(Debug, Clone, Copy, PartialEq, Eq)]
pub enum ServerMessage {
    /// Answer to `Ping`.
    Pong,
    /// The server's fresh ML-KEM encapsulation key for this client.
    KEMEncapsKey([u8; ENCAPS_KEY_LEN]),
}

/// The bytes that encode a client message.
pub open spec fn client_message_bytes(m: ClientMessage) -> Seq<u8> {
    match m {
        ClientMessage::Ping => seq![0u8],
        ClientMessage::KEMCipherText(ct) => seq![1u8] + ct@,
    }
}

/// The bytes that encode a server message.
pub open spec fn server_message_bytes(m: ServerMessage) -> Seq<u8> {
    match m {
        ServerMessage::Pong => seq![0u8],
        ServerMessage::KEMEncapsKey(ek) => seq![1u8] + ek@,
    }
}

/// Whether `b` is the encoding of some client message.
pub open spec fn is_client_message(b: Seq<u8>) -> bool {
    ||| b == seq![0u8]
    ||| (b.len() == 1 + CIPHERTEXT_LEN && b[0] == 1u8)
}

/// Whether `b` is the encoding of some server message.
pub open spec fn is_server_message(b: Seq<u8>) -> bool {
    ||| b == seq![0u8]
    ||| (b.len() == 1 + ENCAPS_KEY_LEN && b[0] == 1u8)
}

/// Copies `len` bytes of `b`, from index 1, into a fresh vector.
fn payload(b: &[u8], len: usize) -> (r: Vec<u8>)
    requires
        b@.len() == 1 + len,
    ensures
        r@ == b@.subrange(1, b@.len() as int),
{
    let mut r: Vec<u8> = Vec::new();
    let mut i: usize = 1;
    while i < b.len()
        invariant
            1 <= i <= b@.len(),
            b@.len() == 1 + len,
            r@ == b@.subrange(1, i as int),
        decreases b@.len() - i,
    {
        r.push(b[i]);
        i = i + 1;
        assert(r@ =~= b@.subrange(1, i as int));
    }
    r
}

/// Writes the variant byte and then the payload.
fn frame_with_payload(variant: u8, body: &[u8]) -> (r: Vec<u8>)
    ensures
        r@ == seq![variant] + body@,
{
    let mut r: Vec<u8> = Vec::new();
    r.push(variant);
    let mut i: usize = 0;
    while i < body.len()
        invariant
            0 <= i <= body@.len(),
            r@ == seq![variant] + body@.subrange(0, i as int),
        decreases body@.len() - i,
    {
        r.push(body[i]);
        i = i + 1;
        assert(r@ =~= seq![variant] + body@.subrange(0, i as int));
    }
    assert(body@.subrange(0, body@.len() as int) =~= body@);
    r
}

impl ClientMessage {
    /// The bytes of this message.
    pub fn encode(&self) -> (r: Vec<u8>)
        ensures
            r@ == client_message_bytes(*self),
    {
        match self {
            ClientMessage::Ping => frame_with_payload(0, &[]),
            ClientMessage::KEMCipherText(ct) => frame_with_payload(1, ct),
        }
    }

    /// Reads a message from its bytes; any other byte string is an
    /// encoding failure.
    pub fn decode(b: &[u8]) -> (r: Result<ClientMessage, SessionError>)
        ensures
            match r {
                Ok(m) => client_message_bytes(m) == b@,
                Err(e) => e == SessionError::EncodingFailure && !is_client_message(b@),
            },
    {
        if b.len() == 1 && b[0] == 0 {
            assert(b@ =~= seq![0u8]);
            return Ok(ClientMessage::Ping);
        }
        if b.len() == 1 + CIPHERTEXT_LEN && b[0] == 1 {
            let body = payload(b, CIPHERTEXT_LEN);
            let mut ct = [0u8; CIPHERTEXT_LEN];
            let mut i: usize = 0;
            while i < CIPHERTEXT_LEN
                invariant
                    0 <= i <= CIPHERTEXT_LEN,
                    body@.len() == CIPHERTEXT_LEN,
                    forall|j: int| 0 <= j < i ==> ct@[j] == body@[j],
                decreases CIPHERTEXT_LEN - i,
            {
                ct[i] = body[i];
                i = i + 1;
            }
            assert(seq![1u8] + ct@ =~= b@);
            return Ok(ClientMessage::KEMCipherText(ct));
        }
        Err(SessionError::EncodingFailure)
    }
}

impl ServerMessage {
    /// The bytes of this message.
    pub fn encode(&self) -> (r: Vec<u8>)
        ensures
            r@ == server_message_bytes(*self),
    {
        match self {
            ServerMessage::Pong => frame_with_payload(0, &[]),
            ServerMessage::KEMEncapsKey(ek) => frame_with_payload(1, ek),
        }
    }

    /// Reads a message from its bytes; any other byte string is an
    /// encoding failure.
    pub fn decode(b: &[u8]) -> (r: Result<ServerMessage, SessionError>)
        ensures
            match r {
                Ok(m) => server_message_bytes(m) == b@,
                Err(e) => e == SessionError::EncodingFailure && !is_server_message(b@),
            },
    {
        if b.len() == 1 && b[0] == 0 {
            assert(b@ =~= seq![0u8]);
            return Ok(ServerMessage::Pong);
        }
        if b.len() == 1 + ENCAPS_KEY_LEN && b[0] == 1 {
            let body = payload(b, ENCAPS_KEY_LEN);
            let mut ek = [0u8; ENCAPS_KEY_LEN];
            let mut i: usize = 0;
            while i < ENCAPS_KEY_LEN
                invariant
                    0 <= i <= ENCAPS_KEY_LEN,
                    body@.len() == ENCAPS_KEY_LEN,
                    forall|j: int| 0 <= j < i ==> ek@[j] == body@[j],
                decreases ENCAPS_KEY_LEN - i,
            {
                ek[i] = body[i];
                i = i + 1;
            }
            assert(seq![1u8] + ek@ =~= b@);
            return Ok(ServerMessage::KEMEncapsKey(ek));
        }
        Err(SessionError::EncodingFailure)
    }
}

/// Decoding undoes encoding: the bytes of a client message are read back as
/// that same message, and no two client messages share their bytes.
pub proof fn lemma_client_message_round_trip(m: ClientMessage, n: ClientMessage)
    ensures
        is_client_message(client_message_bytes(m)),
        client_message_bytes(m) == client_message_bytes(n) ==> m == n,
{
    if client_message_bytes(m) == client_message_bytes(n) {
        match (m, n) {
            (ClientMessage::KEMCipherText(a), ClientMessage::KEMCipherText(c)) => {
                assert(a@ =~= client_message_bytes(m).subrange(1, 1 + CIPHERTEXT_LEN));
                assert(c@ =~= client_message_bytes(n).subrange(1, 1 + CIPHERTEXT_LEN));
                assert(a@ =~= c@);
                assert(a == c);
            },
            (ClientMessage::Ping, ClientMessage::KEMCipherText(c)) => {
                assert(client_message_bytes(m).len() != client_message_bytes(n).len());
            },
            (ClientMessage::KEMCipherText(a), ClientMessage::Ping) => {
                assert(client_message_bytes(m).len() != client_message_bytes(n).len());
            },
            _ => {},
        }
    }
}

/// Decoding undoes encoding: the bytes of a server message are read back as
/// that same message, and no two server messages share their bytes.
pub proof fn lemma_server_message_round_trip(m: ServerMessage, n: ServerMessage)
    ensures
        is_server_message(server_message_bytes(m)),
        server_message_bytes(m) == server_message_bytes(n) ==> m == n,
{
    if server_message_bytes(m) == server_message_bytes(n) {
        match (m, n) {
            (ServerMessage::KEMEncapsKey(a), ServerMessage::KEMEncapsKey(c)) => {
                assert(a@ =~= server_message_bytes(m).subrange(1, 1 + ENCAPS_KEY_LEN));
                assert(c@ =~= server_message_bytes(n).subrange(1, 1 + ENCAPS_KEY_LEN));
                assert(a@ =~= c@);
                assert(a == c);
            },
            (ServerMessage::Pong, ServerMessage::KEMEncapsKey(c)) => {
                assert(server_message_bytes(m).len() != server_message_bytes(n).len());
            },
            (ServerMessage::KEMEncapsKey(a), ServerMessage::Pong) => {
                assert(server_message_bytes(m).len() != server_message_bytes(n).len());
            },
            _ => {},
        }
    }
}

} // verus!

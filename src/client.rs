//! The client's end of the session: it answers the server's encapsulation
//! key, then encrypts its messages and decrypts the server's.

use crate::channel::{decrypt_outcome, is_peer_end, send_step, recv_step, SecureChannel};
use crate::crypto::{aead_seal, kem_encaps, CIPHERTEXT_LEN, KEY_LEN};
use crate::error::SessionError;
use crate::message::{
    client_message_bytes, is_server_message, server_message_bytes, ClientMessage, ServerMessage,
};
use crate::nonce::{is_last_nonce, nonce_value};
use vstd::prelude::*;

verus! {

/// The client's session with the server.
pub struct ClientSession {
    /// The secure channel, once the client has answered the encapsulation key.
    pub channel: Option<SecureChannel>,
}

/// Whether `ch` is a channel just opened with shared secret `key`.
pub open spec fn is_fresh_channel(ch: SecureChannel, key: Seq<u8>) -> bool {
    &&& ch.key@ == key
    &&& nonce_value(ch.send_nonce) == 0
    &&& nonce_value(ch.recv_nonce) == 0
}

impl ClientSession {
    /// A session that awaits the server's encapsulation key.
    pub fn new() -> (r: ClientSession)
        ensures
            r.channel is None,
    {
        ClientSession { channel: None }
    }

    /// Whether the shared secret is held.
    pub fn is_established(&self) -> (r: bool)
        ensures
            r == self.channel is Some,
    {
        self.channel.is_some()
    }

    /// Stores the shared secret of a completed encapsulation, both counters
    /// at zero, and returns the message that carries the ciphertext to the
    /// server.
    pub fn accept_encapsulation(&mut self, secret: [u8; KEY_LEN], ciphertext: [u8; CIPHERTEXT_LEN]) -> (r:
        Vec<u8>)
        requires
            old(self).channel is None,
        ensures
            final(self).channel is Some,
            is_fresh_channel(final(self).channel->Some_0, secret@),
            r@ == client_message_bytes(ClientMessage::KEMCipherText(ciphertext)),
    {
        self.channel = Some(SecureChannel::new(secret));
        ClientMessage::KEMCipherText(ciphertext).encode()
    }

    /// Handles a message of the unencrypted handshake channel. Only the
    /// server's encapsulation key is accepted there, and only before the
    /// secret is held: the client encapsulates a fresh secret to it, keeps
    /// the secret and returns the ciphertext message for sending.
    pub fn receive_handshake(&mut self, bytes: &[u8]) -> (r: Result<Vec<u8>, SessionError>)
        ensures
            !is_server_message(bytes@) ==> {
                &&& r == Err::<Vec<u8>, SessionError>(SessionError::EncodingFailure)
                &&& final(self).channel == old(self).channel
            },
            is_server_message(bytes@) && (bytes@ == server_message_bytes(ServerMessage::Pong)
                || old(self).channel is Some) ==> {
                &&& r == Err::<Vec<u8>, SessionError>(SessionError::ProtocolStateViolation)
                &&& final(self).channel == old(self).channel
            },
            match r {
                Ok(m) => {
                    &&& old(self).channel is None
                    &&& is_server_message(bytes@)
                    &&& bytes@ != server_message_bytes(ServerMessage::Pong)
                    &&& final(self).channel is Some
                    &&& exists|secret: [u8; KEY_LEN], ct: [u8; CIPHERTEXT_LEN]|
                        {
                            &&& is_fresh_channel(final(self).channel->Some_0, secret@)
                            &&& m@ == client_message_bytes(ClientMessage::KEMCipherText(ct))
                        }
                },
                Err(e) => final(self).channel == old(self).channel,
            },
            is_server_message(bytes@) && bytes@ != server_message_bytes(ServerMessage::Pong)
                && old(self).channel is None ==> (r is Ok || r == Err::<Vec<u8>, SessionError>(
                SessionError::HandshakeFailure,
            )),
    {
        let msg = match ServerMessage::decode(bytes) {
            Ok(m) => m,
            Err(e) => return Err(e),
        };
        proof {
            crate::message::lemma_server_message_round_trip(msg, ServerMessage::Pong);
        }
        match msg {
            ServerMessage::Pong => Err(SessionError::ProtocolStateViolation),
            ServerMessage::KEMEncapsKey(ek) => {
                if self.channel.is_some() {
                    return Err(SessionError::ProtocolStateViolation);
                }
                match kem_encaps(&ek) {
                    Some((secret, ct)) => Ok(self.accept_encapsulation(secret, ct)),
                    None => Err(SessionError::HandshakeFailure),
                }
            },
        }
    }

    /// Encrypts a `Ping` for the server under the send counter.
    pub fn seal_ping(&mut self) -> (r: Result<Vec<u8>, SessionError>)
        ensures
            old(self).channel is None ==> {
                &&& r == Err::<Vec<u8>, SessionError>(SessionError::ProtocolStateViolation)
                &&& final(self).channel == old(self).channel
            },
            old(self).channel is Some ==> {
                let ch = old(self).channel->Some_0;
                let p = client_message_bytes(ClientMessage::Ping);
                &&& final(self).channel is Some
                &&& is_last_nonce(ch.send_nonce) ==> {
                    &&& r == Err::<Vec<u8>, SessionError>(SessionError::NonceExhausted)
                    &&& final(self).channel == old(self).channel
                }
                &&& !is_last_nonce(ch.send_nonce) ==> {
                    &&& r is Ok
                    &&& r->Ok_0@ == aead_seal(ch.key@, ch.send_nonce@, p)
                    &&& send_step(ch, final(self).channel->Some_0)
                    &&& forall|rx: SecureChannel|
                        is_peer_end(ch, rx) ==> #[trigger] decrypt_outcome(rx, r->Ok_0@) == Ok::<
                            Seq<u8>,
                            SessionError,
                        >(p)
                }
            },
    {
        match self.channel {
            Some(ref mut ch) => {
                let ping = ClientMessage::Ping.encode();
                ch.encrypt(ping.as_slice())
            },
            None => Err(SessionError::ProtocolStateViolation),
        }
    }

    /// Decrypts a frame from the server under the receive counter. Before the
    /// secret is held every frame is refused undecrypted; a frame that fails
    /// is dropped, the channel unchanged. Only `Pong` is expected encrypted.
    pub fn receive_encrypted(&mut self, frame: &[u8]) -> (r: Result<ServerMessage, SessionError>)
        ensures
            old(self).channel is None ==> {
                &&& r == Err::<ServerMessage, SessionError>(SessionError::ProtocolStateViolation)
                &&& final(self).channel == old(self).channel
            },
            old(self).channel is Some ==> {
                let ch = old(self).channel->Some_0;
                match decrypt_outcome(ch, frame@) {
                    Err(e) => {
                        &&& r == Err::<ServerMessage, SessionError>(e)
                        &&& final(self).channel == old(self).channel
                    },
                    Ok(p) => {
                        &&& final(self).channel is Some
                        &&& recv_step(ch, final(self).channel->Some_0)
                        &&& p == server_message_bytes(ServerMessage::Pong) ==> r
                            == Ok::<ServerMessage, SessionError>(ServerMessage::Pong)
                        &&& p != server_message_bytes(ServerMessage::Pong) && is_server_message(p)
                            ==> r == Err::<ServerMessage, SessionError>(
                            SessionError::ProtocolStateViolation,
                        )
                        &&& !is_server_message(p) ==> r == Err::<ServerMessage, SessionError>(
                            SessionError::EncodingFailure,
                        )
                    },
                }
            },
    {
        let mut ch = match self.channel.take() {
            Some(ch) => ch,
            None => return Err(SessionError::ProtocolStateViolation),
        };
        let result = ch.decrypt(frame);
        self.channel = Some(ch);
        let plain = match result {
            Ok(p) => p,
            Err(e) => return Err(e),
        };
        let msg = match ServerMessage::decode(plain.as_slice()) {
            Ok(m) => m,
            Err(e) => return Err(e),
        };
        proof {
            crate::message::lemma_server_message_round_trip(msg, ServerMessage::Pong);
        }
        match msg {
            ServerMessage::Pong => Ok(ServerMessage::Pong),
            ServerMessage::KEMEncapsKey(_) => Err(SessionError::ProtocolStateViolation),
        }
    }

    /// Wipes the shared secret and counters and returns to awaiting a key.
    pub fn disconnect(&mut self)
        ensures
            final(self).channel is None,
    {
        if let Some(ch) = self.channel.take() {
            let mut ch = ch;
            ch.erase();
        }
        self.channel = None;
    }
}

} // verus!

//! The server's sessions: one record per connected peer, from the key
//! exchange through the secure channel to teardown.

use std::collections::HashMap;

use crate::auth::{authenticate, session_metadata, token_accepted, ConnectToken};
use crate::channel::{decrypt_outcome, is_peer_end, SecureChannel};
use crate::crypto::{
    aead_seal, kem_decaps, kem_decapsulate, kem_keygen, wipe, CIPHERTEXT_LEN, DECAPS_KEY_LEN,
    ENCAPS_KEY_LEN, KEY_LEN,
};
use crate::error::SessionError;
use crate::message::{
    client_message_bytes, is_client_message, server_message_bytes, ClientMessage, ServerMessage,
};
use crate::nonce::{is_last_nonce, nonce_value};
use crate::user::UserData;
use vstd::prelude::*;

verus! {

broadcast use vstd::std_specs::hash::group_hash_axioms;

/// Seconds a peer may take to answer its encapsulation key.
pub const HANDSHAKE_TIMEOUT_SECS: u64 = 10;

/// Whether a session has waited for its ciphertext beyond the timeout at `now`.
pub open spec fn handshake_stale(s: PeerSession, now: u64) -> bool {
    s.state == PeerState::AwaitingCiphertext && now as int - s.started_at as int
        >= HANDSHAKE_TIMEOUT_SECS as int
}

/// Where a peer stands in the session lifecycle.
#[derive(Debug, Clone, Copy, PartialEq, Eq, Structural)]
pub enum PeerState {
    /// The transport is setting up the connection.
    Connecting,
    /// The connection token was accepted.
    Authenticated,
    /// The encapsulation key was sent; the ciphertext is awaited.
    AwaitingCiphertext,
    /// Both ends hold the shared secret; application messages flow encrypted.
    SecureChannelEstablished,
    /// The peer left; nothing of it is kept.
    Disconnected,
    /// The peer broke the protocol; nothing of it is kept.
    Failed,
}

/// What the server holds for one connected peer.
pub struct PeerSession {
    /// The peer's identifier.
    pub peer_id: u64,
    /// The lifecycle state.
    pub state: PeerState,
    /// The metadata of the peer's connection token.
    pub user: UserData,
    /// When the encapsulation key was sent, in seconds since the Unix epoch.
    pub started_at: u64,
    /// The secret half of the key pair, while the ciphertext is awaited.
    pub decaps_key: Option<[u8; DECAPS_KEY_LEN]>,
    /// The secure channel, once the handshake is complete.
    pub channel: Option<SecureChannel>,
}

impl PeerSession {
    /// A stored session holds the decapsulation key exactly while it awaits
    /// the ciphertext, and a shared secret exactly once it is established.
    pub open spec fn wf(&self) -> bool {
        &&& (self.state == PeerState::AwaitingCiphertext || self.state
            == PeerState::SecureChannelEstablished)
        &&& (self.decaps_key is Some <==> self.state == PeerState::AwaitingCiphertext)
        &&& (self.channel is Some <==> self.state == PeerState::SecureChannelEstablished)
    }
}

/// The session of a peer that was just sent its encapsulation key.
pub open spec fn fresh_session(
    peer_id: u64,
    user: UserData,
    started_at: u64,
    dk: [u8; DECAPS_KEY_LEN],
) -> PeerSession {
    PeerSession {
        peer_id,
        state: PeerState::AwaitingCiphertext,
        user,
        started_at,
        decaps_key: Some(dk),
        channel: None,
    }
}

/// `t` is session `s` once the handshake completed with shared secret `key`:
/// the decapsulation key is gone and both counters start at zero.
pub open spec fn established_from(s: PeerSession, t: PeerSession, key: Seq<u8>) -> bool {
    &&& t.peer_id == s.peer_id
    &&& t.user == s.user
    &&& t.started_at == s.started_at
    &&& t.state == PeerState::SecureChannelEstablished
    &&& t.decaps_key is None
    &&& t.channel is Some
    &&& t.channel->Some_0.key@ == key
    &&& nonce_value(t.channel->Some_0.send_nonce) == 0
    &&& nonce_value(t.channel->Some_0.recv_nonce) == 0
}

/// `t` is established session `s` after one frame was decrypted, and, when
/// `replied`, one frame encrypted.
pub open spec fn advanced_from(s: PeerSession, t: PeerSession, replied: bool) -> bool {
    let a = s.channel->Some_0;
    let b = t.channel->Some_0;
    &&& t.peer_id == s.peer_id
    &&& t.user == s.user
    &&& t.started_at == s.started_at
    &&& t.state == s.state
    &&& t.decaps_key == s.decaps_key
    &&& t.channel is Some
    &&& b.key == a.key
    &&& nonce_value(b.recv_nonce) == nonce_value(a.recv_nonce) + 1
    &&& if replied {
        nonce_value(b.send_nonce) == nonce_value(a.send_nonce) + 1
    } else {
        b.send_nonce == a.send_nonce
    }
}

/// The sessions of all connected peers, keyed by peer identifier.
pub struct ServerSessions {
    sessions: HashMap<u64, PeerSession>,
}

impl View for ServerSessions {
    type V = Map<u64, PeerSession>;

    closed spec fn view(&self) -> Map<u64, PeerSession> {
        self.sessions@
    }
}

/// Wipes the secret material of a session that is being dropped.
fn erase_session(s: PeerSession) {
    if let Some(dk) = s.decaps_key {
        let mut dk = dk;
        wipe(&mut dk);
    }
    if let Some(ch) = s.channel {
        let mut ch = ch;
        ch.erase();
    }
}

impl ServerSessions {
    /// Each stored session is well formed and filed under its own peer.
    pub open spec fn wf(&self) -> bool {
        forall|k: u64| #[trigger]
            self@.contains_key(k) ==> self@[k].peer_id == k && self@[k].wf()
    }

    /// No sessions.
    pub fn new() -> (r: ServerSessions)
        ensures
            r@ == Map::<u64, PeerSession>::empty(),
            r.wf(),
    {
        ServerSessions { sessions: HashMap::new() }
    }

    /// The session of a peer, if it has one.
    pub fn session(&self, peer_id: u64) -> (r: Option<&PeerSession>)
        ensures
            match r {
                Some(s) => self@.contains_key(peer_id) && *s == self@[peer_id],
                None => !self@.contains_key(peer_id),
            },
    {
        self.sessions.get(&peer_id)
    }

    /// The number of peers with a session.
    pub fn len(&self) -> (r: usize)
        ensures
            r == self@.len(),
    {
        self.sessions.len()
    }

    /// Removes the peer's session, if any, and wipes its secret material.
    pub fn client_disconnected(&mut self, peer_id: u64)
        requires
            old(self).wf(),
        ensures
            final(self).wf(),
            final(self)@ == old(self)@.remove(peer_id),
    {
        match self.sessions.remove(&peer_id) {
            Some(s) => erase_session(s),
            None => {},
        }
        assert(self@ =~= old(self)@.remove(peer_id));
    }

    /// Starts the key exchange with a peer from a fresh key pair: any earlier
    /// session of the peer is wiped, the secret half is stored, and the
    /// message carrying the public half is returned for sending.
    pub fn begin_handshake(
        &mut self,
        peer_id: u64,
        user: UserData,
        now: u64,
        encaps_key: [u8; ENCAPS_KEY_LEN],
        decaps_key: [u8; DECAPS_KEY_LEN],
    ) -> (r: Vec<u8>)
        requires
            old(self).wf(),
        ensures
            final(self).wf(),
            final(self)@ == old(self)@.insert(peer_id, fresh_session(peer_id, user, now, decaps_key)),
            r@ == server_message_bytes(ServerMessage::KEMEncapsKey(encaps_key)),
    {
        self.client_disconnected(peer_id);
        let s = PeerSession {
            peer_id,
            state: PeerState::AwaitingCiphertext,
            user,
            started_at: now,
            decaps_key: Some(decaps_key),
            channel: None,
        };
        self.sessions.insert(peer_id, s);
        assert(self@ =~= old(self)@.insert(peer_id, fresh_session(peer_id, user, now, decaps_key)));
        ServerMessage::KEMEncapsKey(encaps_key).encode()
    }

    /// Handles a new connection whose token the transport has already
    /// checked: draws a fresh key pair at time `now` and starts the key
    /// exchange. A failed key generation leaves the peer without a session.
    pub fn client_authenticated(&mut self, peer_id: u64, user: UserData, now: u64) -> (r: Result<
        Vec<u8>,
        SessionError,
    >)
        requires
            old(self).wf(),
        ensures
            final(self).wf(),
            match r {
                Ok(m) => exists|ek: [u8; ENCAPS_KEY_LEN], dk: [u8; DECAPS_KEY_LEN]|
                    {
                        &&& final(self)@ == old(self)@.insert(
                            peer_id,
                            fresh_session(peer_id, user, now, dk),
                        )
                        &&& m@ == server_message_bytes(ServerMessage::KEMEncapsKey(ek))
                    },
                Err(e) => e == SessionError::HandshakeFailure && final(self)@ == old(
                    self,
                )@.remove(peer_id),
            },
    {
        match kem_keygen() {
            Some((ek, dk)) => Ok(self.begin_handshake(peer_id, user, now, ek, dk)),
            None => {
                self.client_disconnected(peer_id);
                Err(SessionError::HandshakeFailure)
            },
        }
    }

    /// Handles a new connection from its token fields: checks the token at
    /// time `now`, then starts the key exchange as `client_authenticated`
    /// does. A refused token creates no session and changes nothing.
    pub fn client_connected(&mut self, token: &ConnectToken, now: u64) -> (r: Result<
        Vec<u8>,
        SessionError,
    >)
        requires
            old(self).wf(),
        ensures
            final(self).wf(),
            !token_accepted(*token, now) ==> {
                &&& r == Err::<Vec<u8>, SessionError>(SessionError::AuthenticationFailure)
                &&& final(self)@ == old(self)@
            },
            token_accepted(*token, now) ==> match r {
                Ok(m) => exists|ek: [u8; ENCAPS_KEY_LEN], dk: [u8; DECAPS_KEY_LEN], user: UserData|
                    {
                        &&& user.0@ == session_metadata(*token)
                        &&& final(self)@ == old(self)@.insert(
                            token.peer_id,
                            fresh_session(token.peer_id, user, now, dk),
                        )
                        &&& m@ == server_message_bytes(ServerMessage::KEMEncapsKey(ek))
                    },
                Err(e) => e == SessionError::HandshakeFailure && final(self)@ == old(
                    self,
                )@.remove(token.peer_id),
            },
    {
        let user = match authenticate(token, now) {
            Ok(u) => u,
            Err(e) => return Err(e),
        };
        self.client_authenticated(token.peer_id, user, now)
    }

    /// Completes the key exchange of a peer that awaits its ciphertext, from
    /// the result of decapsulation: with a shared secret the decapsulation key
    /// is wiped and the secure channel opens with both counters at zero;
    /// without one the session is dropped.
    pub fn complete_handshake(&mut self, peer_id: u64, secret: Option<[u8; KEY_LEN]>) -> (r: Result<
        (),
        SessionError,
    >)
        requires
            old(self).wf(),
            old(self)@.contains_key(peer_id),
            old(self)@[peer_id].state == PeerState::AwaitingCiphertext,
        ensures
            final(self).wf(),
            match secret {
                Some(s) => {
                    &&& r is Ok
                    &&& final(self)@.contains_key(peer_id)
                    &&& final(self)@.remove(peer_id) == old(self)@.remove(peer_id)
                    &&& established_from(old(self)@[peer_id], final(self)@[peer_id], s@)
                },
                None => {
                    &&& r == Err::<(), SessionError>(SessionError::HandshakeFailure)
                    &&& final(self)@ == old(self)@.remove(peer_id)
                },
            },
    {
        let removed = self.sessions.remove(&peer_id);
        let s = match removed {
            Some(s) => s,
            None => {
                return Err(SessionError::UnknownPeer);
            },
        };
        match secret {
            Some(key) => {
                let PeerSession { peer_id: id, state: _, user, started_at, decaps_key, channel: _ } = s;
                if let Some(dk) = decaps_key {
                    let mut dk = dk;
                    wipe(&mut dk);
                }
                let t = PeerSession {
                    peer_id: id,
                    state: PeerState::SecureChannelEstablished,
                    user,
                    started_at,
                    decaps_key: None,
                    channel: Some(SecureChannel::new(key)),
                };
                self.sessions.insert(peer_id, t);
                assert(self@.remove(peer_id) =~= old(self)@.remove(peer_id));
                Ok(())
            },
            None => {
                erase_session(s);
                assert(self@ =~= old(self)@.remove(peer_id));
                Err(SessionError::HandshakeFailure)
            },
        }
    }

    /// Drops the session of a peer that has awaited its ciphertext beyond the
    /// timeout at time `now`, wiping its decapsulation key; returns whether it
    /// did. The caller disconnects a dropped peer.
    pub fn drop_if_stale(&mut self, peer_id: u64, now: u64) -> (r: bool)
        requires
            old(self).wf(),
        ensures
            final(self).wf(),
            r == (old(self)@.contains_key(peer_id) && handshake_stale(old(self)@[peer_id], now)),
            r ==> final(self)@ == old(self)@.remove(peer_id),
            !r ==> final(self)@ == old(self)@,
    {
        let stale = match self.sessions.get(&peer_id) {
            Some(s) => s.state == PeerState::AwaitingCiphertext && now >= s.started_at && now
                - s.started_at >= HANDSHAKE_TIMEOUT_SECS,
            None => false,
        };
        if stale {
            self.client_disconnected(peer_id);
        }
        stale
    }

    /// Handles a message of the unencrypted handshake channel. Only the
    /// ciphertext is accepted there, and only from a peer that awaits it; it is
    /// decapsulated with the stored key and the handshake completes from the
    /// result. Anything else is dropped and leaves the sessions unchanged.
    pub fn receive_handshake(&mut self, peer_id: u64, bytes: &[u8]) -> (r: Result<(), SessionError>)
        requires
            old(self).wf(),
        ensures
            final(self).wf(),
            !old(self)@.contains_key(peer_id) ==> {
                &&& r == Err::<(), SessionError>(SessionError::UnknownPeer)
                &&& final(self)@ == old(self)@
            },
            old(self)@.contains_key(peer_id) && !is_client_message(bytes@) ==> {
                &&& r == Err::<(), SessionError>(SessionError::EncodingFailure)
                &&& final(self)@ == old(self)@
            },
            old(self)@.contains_key(peer_id) && is_client_message(bytes@) && (bytes@
                == client_message_bytes(ClientMessage::Ping) || old(self)@[peer_id].state
                != PeerState::AwaitingCiphertext) ==> {
                &&& r == Err::<(), SessionError>(SessionError::ProtocolStateViolation)
                &&& final(self)@ == old(self)@
            },
            old(self)@.contains_key(peer_id) && is_client_message(bytes@) && bytes@
                != client_message_bytes(ClientMessage::Ping) && old(self)@[peer_id].state
                == PeerState::AwaitingCiphertext ==> match kem_decaps(
                old(self)@[peer_id].decaps_key->Some_0@,
                bytes@.subrange(1, 1 + CIPHERTEXT_LEN),
            ) {
                Some(key) => {
                    &&& r is Ok
                    &&& final(self)@.contains_key(peer_id)
                    &&& final(self)@.remove(peer_id) == old(self)@.remove(peer_id)
                    &&& established_from(old(self)@[peer_id], final(self)@[peer_id], key)
                },
                None => {
                    &&& r == Err::<(), SessionError>(SessionError::HandshakeFailure)
                    &&& final(self)@ == old(self)@.remove(peer_id)
                },
            },
    {
        let state = match self.sessions.get(&peer_id) {
            Some(s) => s.state,
            None => return Err(SessionError::UnknownPeer),
        };
        let msg = match ClientMessage::decode(bytes) {
            Ok(m) => m,
            Err(e) => return Err(e),
        };
        proof {
            crate::message::lemma_client_message_round_trip(msg, ClientMessage::Ping);
        }
        match msg {
            ClientMessage::Ping => Err(SessionError::ProtocolStateViolation),
            ClientMessage::KEMCipherText(ct) => {
                if state != PeerState::AwaitingCiphertext {
                    return Err(SessionError::ProtocolStateViolation);
                }
                assert(ct@ =~= bytes@.subrange(1, 1 + CIPHERTEXT_LEN));
                let secret = match self.sessions.get(&peer_id) {
                    Some(s) => match &s.decaps_key {
                        Some(dk) => kem_decapsulate(dk, &ct),
                        None => None,
                    },
                    None => None,
                };
                self.complete_handshake(peer_id, secret)
            },
        }
    }

    /// Handles an encrypted frame. A peer whose channel is not established
    /// has the frame refused before any decryption. Otherwise the frame is
    /// decrypted with the peer's receive counter; a frame that fails is
    /// dropped, the session unchanged. A decrypted `Ping` is answered with
    /// `Pong`, encrypted under the send counter: that reply is returned.
    pub fn receive_encrypted(&mut self, peer_id: u64, frame: &[u8]) -> (r: Result<Vec<u8>, SessionError>)
        requires
            old(self).wf(),
        ensures
            final(self).wf(),
            !old(self)@.contains_key(peer_id) ==> {
                &&& r == Err::<Vec<u8>, SessionError>(SessionError::UnknownPeer)
                &&& final(self)@ == old(self)@
            },
            old(self)@.contains_key(peer_id) && old(self)@[peer_id].state
                != PeerState::SecureChannelEstablished ==> {
                &&& r == Err::<Vec<u8>, SessionError>(SessionError::ProtocolStateViolation)
                &&& final(self)@ == old(self)@
            },
            old(self)@.contains_key(peer_id) && old(self)@[peer_id].state
                == PeerState::SecureChannelEstablished ==> {
                let s = old(self)@[peer_id];
                let ch = s.channel->Some_0;
                match decrypt_outcome(ch, frame@) {
                    Err(e) => {
                        &&& r == Err::<Vec<u8>, SessionError>(e)
                        &&& final(self)@ == old(self)@
                    },
                    Ok(p) => {
                        let replied = p == client_message_bytes(ClientMessage::Ping)
                            && !is_last_nonce(ch.send_nonce);
                        &&& final(self)@.contains_key(peer_id)
                        &&& final(self)@.remove(peer_id) == old(self)@.remove(peer_id)
                        &&& advanced_from(s, final(self)@[peer_id], replied)
                        &&& p == client_message_bytes(ClientMessage::Ping) ==> if is_last_nonce(
                            ch.send_nonce,
                        ) {
                            r == Err::<Vec<u8>, SessionError>(SessionError::NonceExhausted)
                        } else {
                            &&& r is Ok
                            &&& r->Ok_0@ == aead_seal(
                                ch.key@,
                                ch.send_nonce@,
                                server_message_bytes(ServerMessage::Pong),
                            )
                            &&& forall|rx: SecureChannel|
                                rx.key == ch.key && rx.recv_nonce == ch.send_nonce
                                    ==> #[trigger] decrypt_outcome(rx, r->Ok_0@) == Ok::<
                                    Seq<u8>,
                                    SessionError,
                                >(server_message_bytes(ServerMessage::Pong))
                        }
                        &&& p != client_message_bytes(ClientMessage::Ping) && is_client_message(p)
                            ==> r == Err::<Vec<u8>, SessionError>(
                            SessionError::ProtocolStateViolation,
                        )
                        &&& !is_client_message(p) ==> r == Err::<Vec<u8>, SessionError>(
                            SessionError::EncodingFailure,
                        )
                    },
                }
            },
    {
        let removed = self.sessions.remove(&peer_id);
        let s = match removed {
            Some(s) => s,
            None => {
                assert(self@ =~= old(self)@);
                return Err(SessionError::UnknownPeer);
            },
        };
        if s.state != PeerState::SecureChannelEstablished {
            self.sessions.insert(peer_id, s);
            assert(self@ =~= old(self)@);
            return Err(SessionError::ProtocolStateViolation);
        }
        let PeerSession { peer_id: id, state, user, started_at, decaps_key, channel } = s;
        let mut ch = match channel {
            Some(ch) => ch,
            None => {
                return Err(SessionError::ProtocolStateViolation);
            },
        };
        let ghost ch0 = ch;
        let plain = match ch.decrypt(frame) {
            Ok(p) => p,
            Err(e) => {
                let t = PeerSession { peer_id: id, state, user, started_at, decaps_key, channel: Some(ch) };
                self.sessions.insert(peer_id, t);
                assert(self@ =~= old(self)@);
                return Err(e);
            },
        };
        let ghost ch1 = ch;
        let result = match ClientMessage::decode(plain.as_slice()) {
            Ok(ClientMessage::Ping) => {
                let pong = ServerMessage::Pong.encode();
                let sealed = ch.encrypt(pong.as_slice());
                proof {
                    if !is_last_nonce(ch0.send_nonce) {
                        assert forall|rx: SecureChannel|
                            rx.key == ch0.key && rx.recv_nonce == ch0.send_nonce implies #[trigger] decrypt_outcome(
                            rx,
                            sealed->Ok_0@,
                        ) == Ok::<Seq<u8>, SessionError>(server_message_bytes(ServerMessage::Pong)) by {
                            assert(is_peer_end(ch1, rx));
                        }
                    }
                }
                sealed
            },
            Ok(ClientMessage::KEMCipherText(_)) => Err(SessionError::ProtocolStateViolation),
            Err(e) => Err(e),
        };
        proof {
            crate::message::lemma_client_message_round_trip(ClientMessage::Ping, ClientMessage::Ping);
        }
        let t = PeerSession { peer_id: id, state, user, started_at, decaps_key, channel: Some(ch) };
        self.sessions.insert(peer_id, t);
        assert(self@.remove(peer_id) =~= old(self)@.remove(peer_id));
        result
    }
}

/// After a peer disconnects, nothing of its session is reachable: no
/// decapsulation key, no shared secret, no counters. When the same identifier
/// connects again, its session starts afresh: awaiting a new ciphertext, with
/// no channel, and the other peers' sessions untouched.
pub proof fn lemma_reconnect_starts_fresh(
    sessions: Map<u64, PeerSession>,
    peer_id: u64,
    user: UserData,
    now: u64,
    dk: [u8; DECAPS_KEY_LEN],
)
    ensures
        !sessions.remove(peer_id).contains_key(peer_id),
        ({
            let again = sessions.remove(peer_id).insert(peer_id, fresh_session(peer_id, user, now, dk));
            &&& again[peer_id].state == PeerState::AwaitingCiphertext
            &&& again[peer_id].channel is None
            &&& again[peer_id].decaps_key == Some(dk)
            &&& again.remove(peer_id) == sessions.remove(peer_id)
        }),
{
    let again = sessions.remove(peer_id).insert(peer_id, fresh_session(peer_id, user, now, dk));
    assert(again.remove(peer_id) =~= sessions.remove(peer_id));
}

} // verus!

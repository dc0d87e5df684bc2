//! The secure channel of one peer: AEAD framing under the shared secret, with
//! an independent counter nonce for each direction.

use crate::crypto::{aead_open, aead_seal, chacha_open, chacha_seal, wipe, KEY_LEN, TAG_LEN};
use crate::error::SessionError;
use crate::nonce::{
    be_value, byte_pow, increment_nonce, is_last_nonce, lemma_be_value_all_ff, lemma_be_value_all_zero,
    lemma_be_value_bound, nonce_value, zero_nonce, NONCE_LEN,
};
use vstd::prelude::*;

verus! {

/// The shared secret and the two nonce counters of one end of a channel.
pub struct SecureChannel {
    /// The 256-bit key, the shared secret of the handshake.
    pub key: [u8; KEY_LEN],
    /// The nonce of the next frame this end encrypts.
    pub send_nonce: [u8; NONCE_LEN],
    /// The nonce of the next frame this end decrypts.
    pub recv_nonce: [u8; NONCE_LEN],
}

/// What decrypting `frame` yields at a channel whose key is `key` and whose
/// receive nonce is `nonce`: the plaintext, or `None` for a frame shorter than
/// a tag or one whose tag does not match.
pub open spec fn open_frame(key: Seq<u8>, nonce: Seq<u8>, frame: Seq<u8>) -> Option<Seq<u8>> {
    if frame.len() < TAG_LEN {
        None
    } else {
        aead_open(key, nonce, frame)
    }
}

/// The result of decrypting `frame` at channel `ch`: the plaintext, or why it
/// is refused. A channel whose receive nonce is the last one refuses every frame.
pub open spec fn decrypt_outcome(ch: SecureChannel, frame: Seq<u8>) -> Result<Seq<u8>, SessionError> {
    if is_last_nonce(ch.recv_nonce) {
        Err(SessionError::NonceExhausted)
    } else {
        match open_frame(ch.key@, ch.recv_nonce@, frame) {
            Some(p) => Ok(p),
            None => Err(SessionError::DecryptFailure),
        }
    }
}

/// One successful encryption took the channel from `a` to `b`: same key, same
/// receive counter, send counter one higher.
pub open spec fn send_step(a: SecureChannel, b: SecureChannel) -> bool {
    &&& b.key == a.key
    &&& b.recv_nonce == a.recv_nonce
    &&& nonce_value(b.send_nonce) == nonce_value(a.send_nonce) + 1
}

/// One successful decryption took the channel from `a` to `b`: same key, same
/// send counter, receive counter one higher.
pub open spec fn recv_step(a: SecureChannel, b: SecureChannel) -> bool {
    &&& b.key == a.key
    &&& b.send_nonce == a.send_nonce
    &&& nonce_value(b.recv_nonce) == nonce_value(a.recv_nonce) + 1
}

/// Whether `rx` is the end that receives what `tx` sends next: the same key,
/// and its receive counter at `tx`'s send counter.
pub open spec fn is_peer_end(tx: SecureChannel, rx: SecureChannel) -> bool {
    rx.key == tx.key && rx.recv_nonce == tx.send_nonce
}

impl SecureChannel {
    /// A channel keyed by a fresh shared secret, both counters at zero.
    pub fn new(key: [u8; KEY_LEN]) -> (r: SecureChannel)
        ensures
            r.key == key,
            nonce_value(r.send_nonce) == 0,
            nonce_value(r.recv_nonce) == 0,
    {
        SecureChannel { key, send_nonce: zero_nonce(), recv_nonce: zero_nonce() }
    }

    /// Encrypts `plaintext` under the send nonce and appends the tag, then
    /// advances the send nonce by one. When the send nonce is the last one the
    /// channel refuses, unchanged, since advancing would reuse a nonce. The
    /// frame decrypts to `plaintext` at the matching end.
    pub fn encrypt(&mut self, plaintext: &[u8]) -> (r: Result<Vec<u8>, SessionError>)
        ensures
            is_last_nonce(old(self).send_nonce) ==> {
                &&& r == Err::<Vec<u8>, SessionError>(SessionError::NonceExhausted)
                &&& *final(self) == *old(self)
            },
            !is_last_nonce(old(self).send_nonce) ==> {
                &&& r is Ok
                &&& r->Ok_0@ == aead_seal(old(self).key@, old(self).send_nonce@, plaintext@)
                &&& r->Ok_0@.len() == plaintext@.len() + TAG_LEN
                &&& send_step(*old(self), *final(self))
                &&& forall|rx: SecureChannel|
                    is_peer_end(*old(self), rx) ==> #[trigger] decrypt_outcome(rx, r->Ok_0@)
                        == Ok::<Seq<u8>, SessionError>(plaintext@)
            },
    {
        if self.send_nonce_is_last() {
            return Err(SessionError::NonceExhausted);
        }
        let frame = chacha_seal(&self.key, &self.send_nonce, plaintext);
        increment_nonce(&mut self.send_nonce);
        Ok(frame)
    }

    /// Checks the tag of `frame` and decrypts it under the receive nonce, then
    /// advances the receive nonce by one. A frame that fails is dropped and
    /// leaves the channel unchanged.
    pub fn decrypt(&mut self, frame: &[u8]) -> (r: Result<Vec<u8>, SessionError>)
        ensures
            match decrypt_outcome(*old(self), frame@) {
                Ok(p) => {
                    &&& r is Ok
                    &&& r->Ok_0@ == p
                    &&& recv_step(*old(self), *final(self))
                },
                Err(e) => {
                    &&& r == Err::<Vec<u8>, SessionError>(e)
                    &&& *final(self) == *old(self)
                },
            },
    {
        if self.recv_nonce_is_last() {
            return Err(SessionError::NonceExhausted);
        }
        if frame.len() < TAG_LEN {
            return Err(SessionError::DecryptFailure);
        }
        let split = frame.len() - TAG_LEN;
        let body = &frame[0..split];
        let tag = &frame[split..frame.len()];
        assert(body@ + tag@ =~= frame@);
        match chacha_open(&self.key, &self.recv_nonce, body, tag) {
            Some(p) => {
                increment_nonce(&mut self.recv_nonce);
                Ok(p)
            },
            None => Err(SessionError::DecryptFailure),
        }
    }

    /// Whether the send nonce has reached its last value.
    pub fn send_nonce_is_last(&self) -> (r: bool)
        ensures
            r == is_last_nonce(self.send_nonce),
    {
        all_ff(&self.send_nonce)
    }

    /// Whether the receive nonce has reached its last value.
    pub fn recv_nonce_is_last(&self) -> (r: bool)
        ensures
            r == is_last_nonce(self.recv_nonce),
    {
        all_ff(&self.recv_nonce)
    }

    /// Overwrites the key and both counters with zeros.
    pub fn erase(&mut self)
        ensures
            forall|i: int| 0 <= i < KEY_LEN ==> #[trigger] final(self).key@[i] == 0u8,
            nonce_value(final(self).send_nonce) == 0,
            nonce_value(final(self).recv_nonce) == 0,
    {
        wipe(&mut self.key);
        wipe(&mut self.send_nonce);
        wipe(&mut self.recv_nonce);
        proof {
            lemma_be_value_all_zero(self.send_nonce@);
            lemma_be_value_all_zero(self.recv_nonce@);
        }
    }
}

/// Whether every byte of the nonce is `0xff`, that is, whether it is the last one.
fn all_ff(n: &[u8; NONCE_LEN]) -> (r: bool)
    ensures
        r == is_last_nonce(*n),
{
    let mut i: usize = 0;
    while i < NONCE_LEN
        invariant
            0 <= i <= NONCE_LEN,
            forall|j: int| 0 <= j < i ==> n@[j] == 0xffu8,
        decreases NONCE_LEN - i,
    {
        if n[i] != 0xff {
            proof {
                lemma_not_all_ff_below_max(n@, i as int);
            }
            return false;
        }
        i = i + 1;
    }
    proof {
        lemma_be_value_all_ff(n@);
    }
    true
}

/// A byte string with a byte other than `0xff` denotes less than `256^n - 1`.
proof fn lemma_not_all_ff_below_max(s: Seq<u8>, k: int)
    requires
        0 <= k < s.len(),
        s[k] != 0xffu8,
    ensures
        be_value(s) + 1 < byte_pow(s.len()),
    decreases s.len(),
{
    let init = s.drop_last();
    let a = be_value(init);
    let b = byte_pow(init.len());
    let l = s.last() as nat;
    lemma_be_value_bound(init);
    if k == s.len() - 1 {
        assert(a * 256 + l + 1 < b * 256) by (nonlinear_arith)
            requires
                a < b,
                l < 255,
        ;
    } else {
        lemma_not_all_ff_below_max(init, k);
        assert(a * 256 + l + 1 < b * 256) by (nonlinear_arith)
            requires
                a + 1 < b,
                l < 256,
        ;
    }
}

/// After a run of successful encryptions on one channel, the send counter is
/// its first value plus the number of encryptions, and no two encryptions of
/// the run used the same nonce.
pub proof fn lemma_send_nonces_never_repeat(states: Seq<SecureChannel>)
    requires
        states.len() >= 1,
        forall|i: int| 0 <= i < states.len() - 1 ==> send_step(#[trigger] states[i], states[i + 1]),
    ensures
        nonce_value(states.last().send_nonce) == nonce_value(states[0].send_nonce) + (states.len()
            - 1),
        forall|i: int, j: int|
            0 <= i < j < states.len() ==> #[trigger] states[i].send_nonce != #[trigger] states[j].send_nonce,
{
    lemma_send_counts(states);
}

/// Each state of a run of encryptions has counted its position in the run.
proof fn lemma_send_counts(states: Seq<SecureChannel>)
    requires
        states.len() >= 1,
        forall|i: int| 0 <= i < states.len() - 1 ==> send_step(#[trigger] states[i], states[i + 1]),
    ensures
        forall|i: int|
            0 <= i < states.len() ==> nonce_value(#[trigger] states[i].send_nonce) == nonce_value(
                states[0].send_nonce,
            ) + i,
    decreases states.len(),
{
    if states.len() > 1 {
        let init = states.drop_last();
        assert forall|i: int| 0 <= i < init.len() - 1 implies send_step(#[trigger] init[i], init[i + 1]) by {
            assert(send_step(states[i], states[i + 1]));
        }
        lemma_send_counts(init);
        assert forall|i: int| 0 <= i < states.len() implies nonce_value(#[trigger] states[i].send_nonce)
            == nonce_value(states[0].send_nonce) + i by {
            if i < states.len() - 1 {
                assert(init[i] == states[i]);
            } else {
                assert(send_step(states[i - 1], states[i]));
                assert(init[i - 1] == states[i - 1]);
            }
        }
    }
}

} // verus!

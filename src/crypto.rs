//! The cryptographic primitives, taken from outside crates: ML-KEM-512 from
//! `fips203`, ChaCha20-Poly1305 from `cryptoxide`, and erasure from `zeroize`.

use cryptoxide::chacha20poly1305::ChaCha20Poly1305;
use fips203::ml_kem_512;
use fips203::traits::{Decaps, Encaps, KeyGen, SerDes};
use vstd::prelude::*;
use zeroize::Zeroize;

verus! {

/// Bytes of a symmetric key (the shared secret).
pub const KEY_LEN: usize = 32;

/// Bytes of an AEAD tag.
pub const TAG_LEN: usize = 16;

/// Bytes of an ML-KEM-512 encapsulation key.
pub const ENCAPS_KEY_LEN: usize = 800;

/// Bytes of an ML-KEM-512 decapsulation key.
pub const DECAPS_KEY_LEN: usize = 1632;

/// Bytes of an ML-KEM-512 ciphertext.
pub const CIPHERTEXT_LEN: usize = 768;

/// What ChaCha20-Poly1305 (empty associated data) makes of a plaintext under a
/// key and nonce: the ciphertext followed by the tag.
pub uninterp spec fn aead_seal(key: Seq<u8>, nonce: Seq<u8>, plaintext: Seq<u8>) -> Seq<u8>;

/// What ChaCha20-Poly1305 (empty associated data) recovers from a ciphertext
/// followed by its tag: `None` when the tag does not match.
pub uninterp spec fn aead_open(key: Seq<u8>, nonce: Seq<u8>, frame: Seq<u8>) -> Option<Seq<u8>>;

/// The shared secret that ML-KEM-512 decapsulation derives from a
/// decapsulation key and a ciphertext: `None` when either is rejected.
pub uninterp spec fn kem_decaps(dk: Seq<u8>, ct: Seq<u8>) -> Option<Seq<u8>>;

/// Relies on `cryptoxide::chacha20poly1305::ChaCha20Poly1305::encrypt` with
/// empty associated data: the ciphertext is as long as the plaintext, the tag
/// is appended after it, and decryption under the same key and nonce gives the
/// plaintext back.
#[verifier::external_body]
pub(crate) fn chacha_seal(key: &[u8; KEY_LEN], nonce: &[u8; 12], plaintext: &[u8]) -> (r: Vec<u8>)
    ensures
        r@ == aead_seal(key@, nonce@, plaintext@),
        r@.len() == plaintext@.len() + TAG_LEN,
        aead_open(key@, nonce@, r@) == Some(plaintext@),
{
    let mut cipher = ChaCha20Poly1305::new(key, nonce, &[]);
    let mut out = vec![0u8; plaintext.len()];
    let mut tag = [0u8; TAG_LEN];
    cipher.encrypt(plaintext, &mut out, &mut tag);
    out.extend_from_slice(&tag);
    out
}

/// Relies on `cryptoxide::chacha20poly1305::ChaCha20Poly1305::decrypt` with
/// empty associated data: it reports whether the tag matches, and the output
/// is as long as the ciphertext.
#[verifier::external_body]
pub(crate) fn chacha_open(key: &[u8; KEY_LEN], nonce: &[u8; 12], body: &[u8], tag: &[u8]) -> (r:
    Option<Vec<u8>>)
    requires
        tag@.len() == TAG_LEN,
    ensures
        match r {
            Some(p) => aead_open(key@, nonce@, body@ + tag@) == Some(p@) && p@.len() == body@.len(),
            None => aead_open(key@, nonce@, body@ + tag@) is None,
        },
{
    let mut cipher = ChaCha20Poly1305::new(key, nonce, &[]);
    let mut out = vec![0u8; body.len()];
    match cipher.decrypt(body, &mut out, tag) {
        true => Some(out),
        false => None,
    }
}

/// Relies on `fips203::ml_kem_512::KG::try_keygen`: a fresh key pair drawn
/// from the operating system's generator, as bytes (`None` when it fails).
#[verifier::external_body]
pub(crate) fn kem_keygen() -> (r: Option<([u8; ENCAPS_KEY_LEN], [u8; DECAPS_KEY_LEN])>) {
    match ml_kem_512::KG::try_keygen() {
        Ok((ek, dk)) => Some((ek.into_bytes(), dk.into_bytes())),
        Err(_) => None,
    }
}

/// Relies on `fips203::ml_kem_512::EncapsKey::try_from_bytes` and `try_encaps`:
/// a fresh shared secret and the ciphertext that carries it, or `None` when
/// the key bytes are rejected or the generator fails.
#[verifier::external_body]
pub(crate) fn kem_encaps(ek: &[u8; ENCAPS_KEY_LEN]) -> (r: Option<([u8; KEY_LEN], [u8; CIPHERTEXT_LEN])>) {
    match ml_kem_512::EncapsKey::try_from_bytes(*ek) {
        Ok(key) => match key.try_encaps() {
            Ok((ssk, ct)) => Some((ssk.into_bytes(), ct.into_bytes())),
            Err(_) => None,
        },
        Err(_) => None,
    }
}

/// Relies on `fips203::ml_kem_512::DecapsKey::try_from_bytes`,
/// `CipherText::try_from_bytes` and `try_decaps`: deterministic in its two
/// arguments.
#[verifier::external_body]
pub(crate) fn kem_decapsulate(dk: &[u8; DECAPS_KEY_LEN], ct: &[u8; CIPHERTEXT_LEN]) -> (r: Option<[u8; KEY_LEN]>)
    ensures
        match r {
            Some(s) => kem_decaps(dk@, ct@) == Some(s@),
            None => kem_decaps(dk@, ct@) is None,
        },
{
    let key = match ml_kem_512::DecapsKey::try_from_bytes(*dk) {
        Ok(key) => key,
        Err(_) => return None,
    };
    let cipher = match ml_kem_512::CipherText::try_from_bytes(*ct) {
        Ok(cipher) => cipher,
        Err(_) => return None,
    };
    match key.try_decaps(&cipher) {
        Ok(ssk) => Some(ssk.into_bytes()),
        Err(_) => None,
    }
}

/// Relies on `zeroize::Zeroize` for byte arrays: every byte is overwritten
/// with zero, in a way the compiler does not remove.
#[verifier::external_body]
pub(crate) fn wipe<const N: usize>(bytes: &mut [u8; N])
    ensures
        forall|i: int| 0 <= i < N ==> #[trigger] final(bytes)@[i] == 0u8,
{
    bytes.zeroize();
}

} // verus!

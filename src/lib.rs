//! A secure session layer for a client/server game: connection-token checks,
//! an ML-KEM-512 key exchange per peer, and ChaCha20-Poly1305 framing of the
//! application messages with a counter nonce per direction.

pub mod error;
pub mod nonce;
pub mod crypto;
pub mod channel;
pub mod message;
pub mod user;
pub mod key_text;
pub mod auth;
pub mod server;
pub mod client;

//! The connection authenticator: the checks on the fields of a connection
//! token that the transport has opened, and the metadata it yields.

use crate::error::SessionError;
use crate::user::{fixed_field, UserData, USER_DATA_LEN};
use vstd::prelude::*;
use vstd::string::StringSliceAdditionalSpecFns;

verus! {

/// The fingerprint of this application's protocol version.
pub const PROTOCOL_ID: u64 = 69;

/// The name given to a peer whose token carries no metadata.
pub open spec fn anon_name() -> Seq<u8> {
    seq![65u8, 110u8, 111u8, 110u8]
}

/// The fields of a connection token, as the transport opened them after it
/// checked the seal.
pub struct ConnectToken {
    /// The protocol fingerprint the token was issued for.
    pub protocol_id: u64,
    /// The identifier assigned to the peer.
    pub peer_id: u64,
    /// The time, in seconds since the Unix epoch, at which the token expires.
    pub expire_timestamp: u64,
    /// The metadata the client attached, if any.
    pub user_data: Option<Vec<u8>>,
}

/// Whether a token is accepted at time `now`: it names this protocol and has
/// not yet expired.
pub open spec fn token_accepted(token: ConnectToken, now: u64) -> bool {
    token.protocol_id == PROTOCOL_ID && now < token.expire_timestamp
}

/// The metadata a session gets from a token: what it carries, cut to 256
/// bytes and padded with zeros, or the name `Anon` when it carries none.
pub open spec fn session_metadata(token: ConnectToken) -> Seq<u8> {
    match token.user_data {
        Some(b) => fixed_field(b@),
        None => fixed_field(anon_name()),
    }
}

/// Packs bytes into the 256-byte field: cut at 256, padded with zeros.
pub fn metadata_field(b: &[u8]) -> (r: UserData)
    ensures
        r.0@ == fixed_field(b@),
{
    let len: usize = if b.len() < USER_DATA_LEN {
        b.len()
    } else {
        USER_DATA_LEN
    };
    let mut fixed = [0u8; USER_DATA_LEN];
    let mut i: usize = 0;
    while i < len
        invariant
            0 <= i <= len,
            len <= USER_DATA_LEN,
            len <= b@.len(),
            len == USER_DATA_LEN || len == b@.len(),
            forall|j: int| 0 <= j < i ==> fixed@[j] == b@[j],
            forall|j: int| i <= j < USER_DATA_LEN ==> fixed@[j] == 0u8,
        decreases len - i,
    {
        fixed[i] = b[i];
        i = i + 1;
    }
    assert(fixed@ =~= fixed_field(b@));
    UserData(fixed)
}

/// Checks a token at time `now` (seconds since the Unix epoch). A token for
/// another protocol, or one whose expiry is not after `now`, is refused
/// outright; otherwise the peer's metadata is returned.
pub fn authenticate(token: &ConnectToken, now: u64) -> (r: Result<UserData, SessionError>)
    ensures
        token_accepted(*token, now) ==> r is Ok && r->Ok_0.0@ == session_metadata(*token),
        !token_accepted(*token, now) ==> r == Err::<UserData, SessionError>(
            SessionError::AuthenticationFailure,
        ),
{
    if token.protocol_id != PROTOCOL_ID || now >= token.expire_timestamp {
        return Err(SessionError::AuthenticationFailure);
    }
    match &token.user_data {
        Some(b) => Ok(peer_metadata(Some(b.as_slice()))),
        None => Ok(peer_metadata(None)),
    }
}

/// The metadata of a peer from what its token carried: cut to 256 bytes and
/// padded with zeros, or the name `Anon` when it carried none.
pub fn peer_metadata(user_data: Option<&[u8]>) -> (r: UserData)
    ensures
        match user_data {
            Some(b) => r.0@ == fixed_field(b@),
            None => r.0@ == fixed_field(anon_name()),
        },
{
    match user_data {
        Some(b) => metadata_field(b),
        None => {
            let anon = UserData::from_str("Anon");
            proof {
                reveal_strlit("Anon");
                assert(vstd::string::is_ascii("Anon"));
                vstd::string::is_ascii_spec_bytes("Anon");
                assert("Anon".spec_bytes() =~= anon_name());
            }
            anon
        },
    }
}

} // verus!

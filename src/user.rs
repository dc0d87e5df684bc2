//! The user metadata that a connection token carries: a display name in a
//! fixed field of 256 bytes, NUL-padded.

use crate::auth::anon_name;
use vstd::prelude::*;
use vstd::string::StringSliceAdditionalSpecFns;
use vstd::utf8::{decode_utf8, valid_utf8};

verus! {

/// Bytes of the user metadata field.
pub const USER_DATA_LEN: usize = 256;

/// The 256-byte field that holds `b`: its first 256 bytes, then zeros.
pub open spec fn fixed_field(b: Seq<u8>) -> Seq<u8> {
    Seq::new(USER_DATA_LEN as nat, |i: int| if i < b.len() { b[i] } else { 0u8 })
}

/// The index of the first zero byte of `b`, or its length when it has none.
pub open spec fn nul_index(b: Seq<u8>) -> nat
    decreases b.len(),
{
    if b.len() == 0 {
        0
    } else if b[0] == 0u8 {
        0
    } else {
        1 + nul_index(b.drop_first())
    }
}

/// The bytes of `b` before its first zero byte.
pub open spec fn before_nul(b: Seq<u8>) -> Seq<u8> {
    b.subrange(0, nul_index(b) as int)
}

/// The text that `String::from_utf8_lossy` makes of a byte string.
pub uninterp spec fn lossy_text(b: Seq<u8>) -> Seq<char>;

/// Relies on `std::str::from_utf8`: it succeeds exactly on valid UTF-8, and
/// the text is then what the bytes encode.
#[verifier::external_body]
fn utf8_str(b: &[u8]) -> (r: Option<&str>)
    ensures
        match r {
            Some(s) => valid_utf8(b@) && s@ == decode_utf8(b@),
            None => !valid_utf8(b@),
        },
{
    std::str::from_utf8(b).ok()
}

/// Relies on `String::from_utf8_lossy`: valid UTF-8 is decoded as it stands;
/// each invalid sequence becomes U+FFFD.
#[verifier::external_body]
fn utf8_lossy(b: &[u8]) -> (r: String)
    ensures
        r@ == lossy_text(b@),
        valid_utf8(b@) ==> r@ == decode_utf8(b@),
{
    String::from_utf8_lossy(b).into_owned()
}

/// The index of the first zero byte is the first index that holds zero.
proof fn lemma_nul_index(b: Seq<u8>, k: int)
    requires
        0 <= k <= b.len(),
        forall|j: int| 0 <= j < k ==> b[j] != 0u8,
        k == b.len() || b[k] == 0u8,
    ensures
        nul_index(b) == k,
    decreases k,
{
    if k > 0 {
        let rest = b.drop_first();
        assert forall|j: int| 0 <= j < k - 1 implies rest[j] != 0u8 by {
            assert(rest[j] == b[j + 1]);
        }
        lemma_nul_index(rest, k - 1);
    }
}

/// Packs the UTF-8 bytes of `s` into a 256-byte field: longer text is cut
/// at 256 bytes, shorter text is followed by zeros.
pub fn string_to_fixed_bytes(s: &str) -> (r: [u8; USER_DATA_LEN])
    ensures
        r@ == fixed_field(s.spec_bytes()),
{
    let bytes = s.as_bytes();
    let len: usize = if bytes.len() < USER_DATA_LEN {
        bytes.len()
    } else {
        USER_DATA_LEN
    };
    let mut fixed = [0u8; USER_DATA_LEN];
    let mut i: usize = 0;
    while i < len
        invariant
            0 <= i <= len,
            len <= USER_DATA_LEN,
            len <= bytes@.len(),
            len == USER_DATA_LEN || len == bytes@.len(),
            forall|j: int| 0 <= j < i ==> fixed@[j] == bytes@[j],
            forall|j: int| i <= j < USER_DATA_LEN ==> fixed@[j] == 0u8,
        decreases len - i,
    {
        fixed[i] = bytes[i];
        i = i + 1;
    }
    assert(fixed@ =~= fixed_field(bytes@));
    fixed
}

/// The text of a 256-byte field: the bytes before the first zero byte,
/// decoded as UTF-8 with invalid sequences replaced.
pub fn fixed_bytes_to_string(bytes: &[u8; USER_DATA_LEN]) -> (r: String)
    ensures
        r@ == lossy_text(before_nul(bytes@)),
        valid_utf8(before_nul(bytes@)) ==> r@ == decode_utf8(before_nul(bytes@)),
{
    let b = bytes.as_slice();
    let mut k: usize = 0;
    while k < b.len() && b[k] != 0
        invariant
            0 <= k <= b@.len(),
            b@ == bytes@,
            forall|j: int| 0 <= j < k ==> b@[j] != 0u8,
        decreases b@.len() - k,
    {
        k = k + 1;
    }
    proof {
        lemma_nul_index(b@, k as int);
    }
    let text = &b[0..k];
    utf8_lossy(text)
}

/// The user metadata of a connection: a display name in a fixed field.
#[derive(Debug, PartialEq, Eq, Clone, Copy)]
pub struct UserData(pub [u8; USER_DATA_LEN]);

impl UserData {
    /// The field read as UTF-8 text, zero padding included; `"Null"` when
    /// the field is not valid UTF-8.
    pub fn to_username(&self) -> (r: &str)
        ensures
            valid_utf8(self.0@) ==> r@ == decode_utf8(self.0@),
            !valid_utf8(self.0@) ==> r@ == "Null"@,
    {
        match utf8_str(self.0.as_slice()) {
            Some(s) => s,
            None => "Null",
        }
    }

    /// The metadata that holds `str`: its UTF-8 bytes cut at 256 and padded
    /// with zeros.
    pub fn from_str(str: &str) -> (r: UserData)
        ensures
            r.0@ == fixed_field(str.spec_bytes()),
    {
        UserData(string_to_fixed_bytes(str))
    }
}

/// The client's login state, which decides the metadata its connection
/// token carries.
#[derive(Debug, Clone, Copy, PartialEq, Eq)]
pub enum UserLogin {
    /// Logged in under this metadata.
    LoggedIn(UserData),
    /// Not logged in: the client connects as `Anon`.
    NotLoggedIn,
}

impl UserLogin {
    /// The metadata to attach to the connection token: the logged-in user's,
    /// or the name `Anon`.
    pub fn token_metadata(&self) -> (r: UserData)
        ensures
            match *self {
                UserLogin::LoggedIn(d) => r == d,
                UserLogin::NotLoggedIn => r.0@ == fixed_field(anon_name()),
            },
    {
        match self {
            UserLogin::LoggedIn(d) => *d,
            UserLogin::NotLoggedIn => {
                let anon = UserData::from_str("Anon");
                proof {
                    reveal_strlit("Anon");
                    assert(vstd::string::is_ascii("Anon"));
                    vstd::string::is_ascii_spec_bytes("Anon");
                    assert("Anon".spec_bytes() =~= anon_name());
                }
                anon
            },
        }
    }
}

} // verus!

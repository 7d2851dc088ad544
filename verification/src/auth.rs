//! Identity resolution at the connection boundary.
//!
//! A connection names its identity in one of three ways: a bearer token whose
//! verified claims carry an email, a plain display name, or nothing — in
//! which case a guest name is generated from a caller-supplied suffix (the
//! server draws it from the clock). Verifying the token itself is the auth
//! collaborator's job; this module decides what identity the connection gets
//! once the token's fate is known.

use vstd::prelude::*;

use crate::codec::{chars_to_string, enc_u64, push_lit, push_u64};

verus! {

/// The claims carried by a verified bearer token.
#[derive(Debug, Clone)]
pub struct Claims {
    /// Subject: the user record's key.
    pub sub: String,
    /// The user record's key, repeated for convenience.
    pub user_id: String,
    /// The user's email: the identity the room subsystem keys on.
    pub email: String,
    /// Whether the user may administrate.
    pub is_admin: bool,
    /// Expiry, as seconds since the epoch.
    pub exp: usize,
}

/// Why a connection's credential was refused.
#[derive(Debug, Clone, Copy, PartialEq, Eq, Structural)]
pub enum AuthError {
    /// No token came with a request that needs one.
    MissingToken,
    /// A token came but did not verify.
    InvalidToken,
    /// The token verified but does not grant this action.
    Unauthorized,
}

/// The query parameters a client may pass when opening a room connection.
#[derive(Debug)]
pub struct EnterRoomRequest {
    /// A plain display name, used when no token is given.
    pub user: Option<String>,
    /// A bearer token, which outranks the display name.
    pub token: Option<String>,
}

/// The generated guest identity for `n`: `Guest_` and up to four digits.
pub open spec fn guest_name(n: u64) -> Seq<char> {
    "Guest_"@ + enc_u64(n % 10000)
}

/// Builds the guest identity for `n`.
pub fn make_guest_name(n: u64) -> (r: String)
    ensures
        r@ == guest_name(n),
{
    let mut out: Vec<char> = Vec::new();
    push_lit(&mut out, "Guest_");
    push_u64(&mut out, n % 10000);
    chars_to_string(&out)
}

/// Decides a connection's identity. `claims` is what the auth collaborator
/// made of `req.token`: `None` when the token did not verify. A token that
/// verifies names its email; a token that fails rejects the connection; with
/// no token the display name is used, and failing that a generated guest
/// name.
pub fn resolve_identity(req: &EnterRoomRequest, claims: Option<Claims>, guest_suffix: u64) -> (r:
    Result<String, AuthError>)
    ensures
        req.token is Some ==> (match claims {
            Some(c) => r matches Ok(name) && name@ == c.email@,
            None => r == Err::<String, AuthError>(AuthError::InvalidToken),
        }),
        req.token is None ==> (match req.user {
            Some(u) => r matches Ok(name) && name@ == u@,
            None => r matches Ok(name) && name@ == guest_name(guest_suffix),
        }),
{
    if req.token.is_some() {
        match claims {
            Some(c) => Ok(c.email),
            None => Err(AuthError::InvalidToken),
        }
    } else {
        match &req.user {
            Some(u) => Ok(u.clone()),
            None => Ok(make_guest_name(guest_suffix)),
        }
    }
}

} // verus!

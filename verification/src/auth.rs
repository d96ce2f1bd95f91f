//! The bearer-token authentication decision.
//!
//! When the server holds no token, authentication is disabled and every
//! request passes; otherwise a request passes exactly when it carries a
//! bearer token equal to the server's.

use vstd::prelude::*;

verus! {

/// Whether a request passes the bearer check: true iff the server has no
/// configured token, or the request carries one equal to it.
pub open spec fn authorized(server_token: Option<Seq<char>>, bearer: Option<Seq<char>>) -> bool {
    match server_token {
        None => true,
        Some(t) => bearer == Some(t),
    }
}

/// The character sequence of an optional token.
pub open spec fn token_view(t: Option<String>) -> Option<Seq<char>> {
    match t {
        Some(s) => Some(s@),
        None => None,
    }
}

/// Decides whether a request may proceed. `server_token` is the token the
/// server was configured with, if any; `bearer` is the token presented by the
/// request, if any.
pub fn auth_decision(server_token: &Option<String>, bearer: &Option<String>) -> (r: bool)
    ensures
        r == authorized(token_view(*server_token), token_view(*bearer)),
{
    match server_token {
        None => true,
        Some(t) => match bearer {
            None => false,
            Some(b) => *t == *b,
        },
    }
}

/// The status code of the authentication gate: 401 exactly when the request
/// fails the bearer check.
pub fn auth_status(server_token: &Option<String>, bearer: &Option<String>) -> (r: Option<u16>)
    ensures
        r is Some <==> !authorized(token_view(*server_token), token_view(*bearer)),
        r is Some ==> r.unwrap() == crate::errors::STATUS_UNAUTHORIZED,
{
    if auth_decision(server_token, bearer) {
        None
    } else {
        Some(crate::errors::STATUS_UNAUTHORIZED)
    }
}

} // verus!

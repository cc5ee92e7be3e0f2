//! The claims that a bearer token carries.

use vstd::prelude::*;

verus! {

/// Seconds a token lives where no lifetime is asked for.
pub const DEFAULT_LIFETIME: u64 = 3600;

/// The claims of a token: the player it is issued to, and the second, counted
/// from the epoch, at which it expires.
#[derive(Debug)]
pub struct Claims {
    pub sub: String,
    pub exp: usize,
}

/// The lifetime of a token in seconds: the one asked for, or an hour.
pub open spec fn spec_lifetime(exp: Option<u64>) -> u64 {
    match exp {
        Some(seconds) => seconds,
        None => DEFAULT_LIFETIME,
    }
}

impl Claims {
    /// The claims of a token issued to `username` at second `now`, to live
    /// `exp` seconds, or an hour where none is given.
    pub fn issue(username: &str, now: u64, exp: Option<u64>) -> (claims: Claims)
        requires
            now + spec_lifetime(exp) <= usize::MAX,
        ensures
            claims.sub@ == username@,
            claims.exp == now + spec_lifetime(exp),
    {
        let lifetime = match exp {
            Some(seconds) => seconds,
            None => DEFAULT_LIFETIME,
        };
        Claims { sub: username.to_owned(), exp: (now + lifetime) as usize }
    }
}

} // verus!

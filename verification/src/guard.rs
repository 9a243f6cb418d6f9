//! The request guard: from the value of the `Authorization` header to the
//! caller's claims. It reads nothing but the header and the clock; the role
//! it reports is the one that the token states.

use crate::jwt::{
    altered_token_is_refused, inspected, tag_of, verified, Claims, TokenService,
};
use crate::response::AuthError;
use crate::text::{chars_of, head_of, same_chars, string_of, tail_of};
use vstd::prelude::*;

verus! {

/// The token that a header value carries: what follows `"Bearer "`.
pub open spec fn bearer_token(header: Seq<char>) -> Option<Seq<char>> {
    let scheme = "Bearer "@;
    if header.len() >= scheme.len() && header.take(scheme.len() as int) == scheme {
        Some(header.skip(scheme.len() as int))
    } else {
        None
    }
}

/// The claims that a request is let in with, at the time `now`, by a guard
/// whose service signs with `key`: none without a header, none where the
/// header carries no bearer token, and else what the service finds of the
/// token.
pub open spec fn admitted(key: Seq<u8>, header: Option<Seq<char>>, now: u64) -> Result<
    Claims,
    AuthError,
> {
    match header {
        None => Err(AuthError::InvalidCredentials),
        Some(value) => match bearer_token(value) {
            None => Err(AuthError::InvalidCredentials),
            Some(token) => verified(key, token, now),
        },
    }
}

/// A request that presents an accepted token with one character changed is
/// refused: where `altered` differs from a token that the service accepts
/// at exactly the position `at`, the header that carries `altered` admits
/// no claims. As for the token itself, a change in the signed part is
/// caught by the tag, unless the changed text has the very tag of the text
/// it was made from.
pub proof fn request_with_altered_token_is_refused(
    key: Seq<u8>,
    token: Seq<char>,
    altered: Seq<char>,
    at: int,
    now: u64,
)
    requires
        inspected(key, token, now) is Ok,
        altered.len() == token.len(),
        0 <= at < token.len(),
        altered[at] != token[at],
        forall|j: int| 0 <= j < token.len() && j != at ==> altered[j] == token[j],
        at < token.len() - 65 ==> tag_of(key, altered.take(token.len() - 65)) != tag_of(
            key,
            token.take(token.len() - 65),
        ),
    ensures
        admitted(key, Some("Bearer "@ + altered), now) == Err::<Claims, AuthError>(
            AuthError::InvalidCredentials,
        ),
{
    altered_token_is_refused(key, token, altered, at, now);
    let scheme = "Bearer "@;
    let header = scheme + altered;
    assert(header.take(scheme.len() as int) == scheme);
    assert(header.skip(scheme.len() as int) == altered);
}

/// The token that a header value carries, where it carries one.
pub fn extract_bearer(header: &str) -> (token: Option<String>)
    ensures
        match token {
            Some(t) => bearer_token(header@) == Some(t@),
            None => bearer_token(header@) is None,
        },
{
    let scheme = chars_of("Bearer ");
    let value = chars_of(header);
    if value.len() < scheme.len() {
        return None;
    }
    let front = head_of(&value, scheme.len());
    if !same_chars(&front, &scheme) {
        return None;
    }
    let rest = tail_of(&value, scheme.len());
    Some(string_of(&rest))
}

/// Resolves the `Authorization` header of a request into the caller's
/// claims, or refuses the request.
pub fn authorize(service: &TokenService, header: Option<&str>, now: u64) -> (r: Result<
    Claims,
    AuthError,
>)
    ensures
        r == admitted(
            service.key(),
            match header {
                Some(value) => Some(value@),
                None => None,
            },
            now,
        ),
{
    match header {
        None => Err(AuthError::InvalidCredentials),
        Some(value) => match extract_bearer(value) {
            None => Err(AuthError::InvalidCredentials),
            Some(token) => service.verify(token.as_str(), now),
        },
    }
}

} // verus!

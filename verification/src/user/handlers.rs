//! What signup and login decide.
//!
//! As with words, a handler says what to ask of the record store and is
//! handed back the reply. The password of a request goes no further than
//! the hashing; what is stored, and what is compared at login, is the
//! stored hash.

use crate::jwt::{token_text, Claims, TokenService, TOKEN_LIFETIME};
use crate::password_manager::{
    hash_password, hashed, hashing_ends, verifies, verify_password, PasswordError,
};
use crate::text::is_b64_text;
use crate::response::ApiError;
use crate::user::models::{LoginView, NewUser, User, UserView};
use vstd::prelude::*;

verus! {

/// What a handler asks of the record store about one user.
#[derive(Debug, Clone, PartialEq, Eq)]
pub enum UserQuery {
    /// Add the user, and answer with the new record.
    Insert(NewUser),
    /// Answer with the record of the user with this e-mail address.
    FindByEmail(String),
}

/// What the record store answers about one user.
#[derive(Debug, Clone, PartialEq, Eq)]
pub enum UserReply {
    /// The record asked for or added.
    Row(User),
    /// There is no such record.
    Missing,
    /// The store could not do what was asked.
    Failed,
}

/// Signup: what is asked of the store once the password was hashed, or how
/// the request ends where it could not be.
pub open spec fn signup_asks(new_user: NewUser, hashed: Result<String, PasswordError>) -> Result<
    UserQuery,
    ApiError,
> {
    match hashed {
        Ok(stored) => Ok(UserQuery::Insert(NewUser { email: new_user.email, password: stored })),
        Err(_) => Err(ApiError::Validation),
    }
}

/// Signup: how the request ends.
pub open spec fn signup_ends(reply: UserReply) -> Result<UserView, ApiError> {
    match reply {
        UserReply::Row(user) => Ok(user.public()),
        _ => Err(ApiError::Validation),
    }
}

/// The claims of the token that a login at `now` issues to `user`.
pub open spec fn login_claims(user: User, now: u64) -> Claims {
    Claims { id: user.id, is_admin: user.is_admin, iat: now, exp: (now + TOKEN_LIFETIME) as u64 }
}

/// Whether a login succeeds: the store has the user, the password is the
/// one of the stored hash, and the token's expiry can be written.
pub open spec fn login_succeeds(password: Seq<char>, reply: UserReply, now: u64) -> bool {
    &&& reply matches UserReply::Row(user)
    &&& verifies(user.password@, password)
    &&& now + TOKEN_LIFETIME <= u64::MAX
}

/// Signup, once the password was hashed: the user is stored with the stored
/// hash in place of the password. Where hashing failed the input is not
/// valid, and the store is asked nothing.
pub fn signup_with_hash(new_user: NewUser, hashed: Result<String, PasswordError>) -> (r: Result<
    UserQuery,
    ApiError,
>)
    ensures
        r == signup_asks(new_user, hashed),
{
    match hashed {
        Ok(stored) => Ok(UserQuery::Insert(NewUser { email: new_user.email, password: stored })),
        Err(_) => Err(ApiError::Validation),
    }
}

/// Signup: hashes the password under a fresh salt and asks the store to add
/// the user. Whatever salt was drawn, what is handed to the store keeps the
/// e-mail address and holds the stored hash of the password under that
/// salt, which verifies against the password. The request ends as not valid
/// only where Argon2 derives no digest from the password under the salt
/// drawn.
pub fn signup(new_user: NewUser) -> (r: Result<UserQuery, ApiError>)
    ensures
        match r {
            Ok(UserQuery::Insert(user)) => {
                &&& user.email == new_user.email
                &&& verifies(user.password@, new_user.password@)
                &&& exists|salt: Seq<char>|
                    is_b64_text(salt) && salt.len() == 22 && #[trigger] hashed(
                        new_user.password@,
                        salt,
                    ) == Some(user.password@)
            },
            Ok(UserQuery::FindByEmail(_)) => false,
            Err(e) => {
                &&& e == ApiError::Validation
                &&& exists|salt: Seq<char>|
                    is_b64_text(salt) && salt.len() == 22 && #[trigger] hashed(
                        new_user.password@,
                        salt,
                    ) is None
            },
        },
{
    let outcome = hash_password(new_user.password.as_str());
    proof {
        let salt = choose|salt: Seq<char>|
            is_b64_text(salt) && salt.len() == 22 && #[trigger] hashing_ends(
                new_user.password@,
                salt,
                outcome,
            );
        assert(hashing_ends(new_user.password@, salt, outcome));
        assert(outcome is Err ==> hashed(new_user.password@, salt) is None);
        assert(outcome matches Ok(stored) ==> hashed(new_user.password@, salt) == Some(stored@));
    }
    signup_with_hash(new_user, outcome)
}

/// Signup: the end, on the store's reply to the insertion. The answer shows
/// the user without the stored hash.
pub fn signup_done(reply: UserReply) -> (r: Result<UserView, ApiError>)
    ensures
        r == signup_ends(reply),
{
    match reply {
        UserReply::Row(user) => Ok(user.into_view()),
        _ => Err(ApiError::Validation),
    }
}

/// The words that answer a signup that ends with `error`. Input that is not
/// valid is told apart by where the signup ended: before the store was
/// asked, the password could not be hashed; after, the store did not add
/// the user.
pub open spec fn signup_words(error: ApiError, store_was_asked: bool) -> Seq<char> {
    match error {
        ApiError::Validation => if store_was_asked {
            "could not create new user"@
        } else {
            "bad password"@
        },
        _ => error.words(),
    }
}

/// How a signup that ends with `error` is answered: the status and the
/// words. `store_was_asked` says whether the signup ended on the store's
/// reply or before the store was asked.
pub fn signup_refusal(error: &ApiError, store_was_asked: bool) -> (answer: (u16, &'static str))
    ensures
        answer.0 == error.status(),
        answer.1@ == signup_words(*error, store_was_asked),
{
    match error {
        ApiError::Validation => {
            if store_was_asked {
                (error.status_code(), "could not create new user")
            } else {
                (error.status_code(), "bad password")
            }
        },
        _ => (error.status_code(), error.reason()),
    }
}

/// The status that answers a login that ends with `error`: a login that
/// is refused for its credentials is answered as not found.
pub open spec fn login_status(error: ApiError) -> u16 {
    match error {
        ApiError::InvalidCredentials => 404,
        _ => error.status(),
    }
}

/// The words that answer a login that ends with `error`. A login that is
/// refused for its credentials is told the same words whether the address
/// or the password was wrong.
pub open spec fn login_words(error: ApiError) -> Seq<char> {
    match error {
        ApiError::InvalidCredentials => "invalid  email or password"@,
        _ => error.words(),
    }
}

/// How a login that ends with `error` is answered: the status and the
/// words.
pub fn login_refusal(error: &ApiError) -> (answer: (u16, &'static str))
    ensures
        answer.0 == login_status(*error),
        answer.1@ == login_words(*error),
{
    match error {
        ApiError::InvalidCredentials => (404, "invalid  email or password"),
        _ => (error.status_code(), error.reason()),
    }
}

/// Login: the user is looked up by e-mail address.
pub fn login(email: String) -> (query: UserQuery)
    ensures
        query == UserQuery::FindByEmail(email),
{
    UserQuery::FindByEmail(email)
}

/// Login: the end, on the store's reply to the lookup. Where the user
/// exists and the password is the one of the stored hash, the answer is a
/// token issued at `now` and the user without the stored hash. Every
/// failure is the same `InvalidCredentials`: an unknown address is not told
/// from a wrong password.
pub fn login_found(service: &TokenService, password: &str, reply: UserReply, now: u64) -> (r:
    Result<LoginView, ApiError>)
    ensures
        match r {
            Ok(view) => {
                &&& login_succeeds(password@, reply, now)
                &&& reply matches UserReply::Row(user)
                &&& view.user == user.public()
                &&& view.token@ == token_text(service.key(), login_claims(user, now))
            },
            Err(e) => !login_succeeds(password@, reply, now) && e == ApiError::InvalidCredentials,
        },
{
    match reply {
        UserReply::Row(user) => {
            if !verify_password(user.password.as_str(), password) {
                return Err(ApiError::InvalidCredentials);
            }
            match service.issue(user.id, user.is_admin, now) {
                Some(token) => Ok(LoginView { token, user: user.into_view() }),
                None => Err(ApiError::InvalidCredentials),
            }
        },
        _ => Err(ApiError::InvalidCredentials),
    }
}

} // verus!

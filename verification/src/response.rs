//! What a request can be refused with, and the status each refusal is
//! answered with.

use vstd::prelude::*;

verus! {

/// A refusal on grounds of identity or rights.
#[derive(Clone, Copy, Debug, PartialEq, Eq, Structural)]
pub enum AuthError {
    /// The credentials presented are not accepted: the e-mail address or the
    /// password is wrong, or the token is missing, malformed, forged or
    /// expired. Which of these it was is not told.
    InvalidCredentials,
    /// The caller is who they claim to be, and may not do what they ask.
    Forbidden,
}

/// Every way in which a request can end without success.
#[derive(Clone, Copy, Debug, PartialEq, Eq, Structural)]
pub enum ApiError {
    /// The input cannot be used as it is.
    Validation,
    /// The credentials presented are not accepted.
    InvalidCredentials,
    /// The caller lacks the role or the ownership that the request needs.
    Forbidden,
    /// The record asked for does not exist.
    NotFound,
    /// The record store failed.
    Internal,
}

impl ApiError {
    /// The refusal that an `AuthError` stands for.
    pub open spec fn of(e: AuthError) -> ApiError {
        match e {
            AuthError::InvalidCredentials => ApiError::InvalidCredentials,
            AuthError::Forbidden => ApiError::Forbidden,
        }
    }

    /// The HTTP status that answers the refusal.
    pub open spec fn status(self) -> u16 {
        match self {
            ApiError::Validation => 400,
            ApiError::InvalidCredentials => 401,
            ApiError::Forbidden => 401,
            ApiError::NotFound => 404,
            ApiError::Internal => 500,
        }
    }

    /// The words that answer the refusal. They say which kind of refusal it
    /// is and nothing of its cause.
    pub open spec fn words(self) -> Seq<char> {
        match self {
            ApiError::Validation => "invalid input"@,
            ApiError::InvalidCredentials => "invalid credentials"@,
            ApiError::Forbidden => "not allowed"@,
            ApiError::NotFound => "not found"@,
            ApiError::Internal => "internal error"@,
        }
    }

    /// The refusal that an `AuthError` stands for.
    pub fn from_auth(e: AuthError) -> (r: ApiError)
        ensures
            r == ApiError::of(e),
    {
        match e {
            AuthError::InvalidCredentials => ApiError::InvalidCredentials,
            AuthError::Forbidden => ApiError::Forbidden,
        }
    }

    /// The HTTP status that answers the refusal.
    pub fn status_code(&self) -> (code: u16)
        ensures
            code == self.status(),
    {
        match self {
            ApiError::Validation => 400,
            ApiError::InvalidCredentials => 401,
            ApiError::Forbidden => 401,
            ApiError::NotFound => 404,
            ApiError::Internal => 500,
        }
    }

    /// The words that answer the refusal.
    pub fn reason(&self) -> (text: &'static str)
        ensures
            text@ == self.words(),
    {
        match self {
            ApiError::Validation => "invalid input",
            ApiError::InvalidCredentials => "invalid credentials",
            ApiError::Forbidden => "not allowed",
            ApiError::NotFound => "not found",
            ApiError::Internal => "internal error",
        }
    }
}

} // verus!

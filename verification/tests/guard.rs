use dictionary::guard::{authorize, extract_bearer};
use dictionary::jwt::{Claims, TokenService, TOKEN_LIFETIME};
use dictionary::response::{ApiError, AuthError};

#[test]
fn missing_header_is_refused() {
    let s = TokenService::new(b"k".to_vec());
    assert_eq!(authorize(&s, None, 10), Err(AuthError::InvalidCredentials));
}

#[test]
fn bearer_token_is_admitted() {
    let s = TokenService::new(b"k".to_vec());
    let token = s.issue(9, true, 10).unwrap();
    let header = format!("Bearer {}", token);
    assert_eq!(
        authorize(&s, Some(&header), 11),
        Ok(Claims { id: 9, is_admin: true, iat: 10, exp: 10 + TOKEN_LIFETIME })
    );
}

#[test]
fn expired_or_forged_bearer_token_is_refused() {
    let s = TokenService::new(b"k".to_vec());
    let token = s.issue(9, true, 10).unwrap();
    let header = format!("Bearer {}", token);
    assert_eq!(
        authorize(&s, Some(&header), 10 + TOKEN_LIFETIME),
        Err(AuthError::InvalidCredentials)
    );
    let forged = format!("Bearer {}0", token);
    assert_eq!(authorize(&s, Some(&forged), 11), Err(AuthError::InvalidCredentials));
}

#[test]
fn other_schemes_are_refused() {
    let s = TokenService::new(b"k".to_vec());
    let token = s.issue(9, true, 10).unwrap();
    for header in [
        token.clone(),
        format!("bearer {}", token),
        format!("Basic {}", token),
        format!("Bearer{}", token),
        format!(" Bearer {}", token),
        format!("Bearer  {}", token),
        String::new(),
        "Bearer".to_string(),
        "Bearer ".to_string(),
    ] {
        assert_eq!(
            authorize(&s, Some(&header), 11),
            Err(AuthError::InvalidCredentials),
            "{:?}",
            header
        );
    }
}

#[test]
fn extract_bearer_takes_what_follows_the_scheme() {
    assert_eq!(extract_bearer("Bearer abc.def"), Some("abc.def".to_string()));
    assert_eq!(extract_bearer("Bearer "), Some(String::new()));
    assert_eq!(extract_bearer("Bearer  x"), Some(" x".to_string()));
    assert_eq!(extract_bearer("Bearer"), None);
    assert_eq!(extract_bearer("Token abc"), None);
    assert_eq!(extract_bearer("Bearer \u{e9}t\u{e9}"), Some("\u{e9}t\u{e9}".to_string()));
}

#[test]
fn status_of_each_refusal() {
    assert_eq!(ApiError::Validation.status_code(), 400);
    assert_eq!(ApiError::InvalidCredentials.status_code(), 401);
    assert_eq!(ApiError::Forbidden.status_code(), 401);
    assert_eq!(ApiError::NotFound.status_code(), 404);
    assert_eq!(ApiError::Internal.status_code(), 500);
    assert_eq!(ApiError::from_auth(AuthError::InvalidCredentials), ApiError::InvalidCredentials);
    assert_eq!(ApiError::from_auth(AuthError::Forbidden), ApiError::Forbidden);
}

#[test]
fn words_of_each_refusal() {
    assert_eq!(ApiError::Validation.reason(), "invalid input");
    assert_eq!(ApiError::InvalidCredentials.reason(), "invalid credentials");
    assert_eq!(ApiError::Forbidden.reason(), "not allowed");
    assert_eq!(ApiError::NotFound.reason(), "not found");
    assert_eq!(ApiError::Internal.reason(), "internal error");
}

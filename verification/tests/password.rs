use argon2::password_hash::{PasswordHash, PasswordHasher, PasswordVerifier, SaltString};
use argon2::Argon2;
use dictionary::password_manager::{
    hash_password, hash_password_with_salt, verify_password, PasswordError, StoredHash,
    DEFAULT_ITERATIONS, DEFAULT_LANES, DEFAULT_MEMORY_KIB,
};

const SALT: &str = "c29tZXNhbHRzb21lc2FsdA";

#[test]
fn hashed_password_verifies() {
    let stored = hash_password("tr0ub4dor").unwrap();
    assert!(verify_password(&stored, "tr0ub4dor"));
}

#[test]
fn other_password_does_not_verify() {
    let stored = hash_password_with_salt("tr0ub4dor", SALT).unwrap();
    assert!(!verify_password(&stored, "tr0ub4dor3"));
    assert!(!verify_password(&stored, ""));
}

#[test]
fn two_hashes_of_one_password_differ_and_both_verify() {
    let first = hash_password("correct horse").unwrap();
    let second = hash_password("correct horse").unwrap();
    assert_ne!(first, second);
    assert!(verify_password(&first, "correct horse"));
    assert!(verify_password(&second, "correct horse"));
}

#[test]
fn stored_hash_states_its_parameters() {
    let stored = hash_password_with_salt("tr0ub4dor", SALT).unwrap();
    let prefix = format!("$argon2id$v=19$m=19456,t=2,p=1${}$", SALT);
    assert!(stored.starts_with(&prefix));
    let parsed = StoredHash::parse(&stored).unwrap();
    assert_eq!(parsed.memory_kib, DEFAULT_MEMORY_KIB);
    assert_eq!(parsed.iterations, DEFAULT_ITERATIONS);
    assert_eq!(parsed.lanes, DEFAULT_LANES);
    assert_eq!(parsed.salt, SALT);
    assert_eq!(parsed.digest.len(), 43);
    assert_eq!(parsed.encode(), stored);
}

#[test]
fn stored_hash_is_what_argon2_writes() {
    let stored = hash_password_with_salt("tr0ub4dor", SALT).unwrap();
    let salt = SaltString::from_b64(SALT).unwrap();
    let theirs = Argon2::default().hash_password(b"tr0ub4dor", &salt).unwrap().to_string();
    assert_eq!(stored, theirs);
}

#[test]
fn argon2_accepts_the_stored_hash() {
    let stored = hash_password_with_salt("tr0ub4dor", SALT).unwrap();
    let parsed = PasswordHash::new(&stored).unwrap();
    assert!(Argon2::default().verify_password(b"tr0ub4dor", &parsed).is_ok());
    assert!(Argon2::default().verify_password(b"tr0ub4dor3", &parsed).is_err());
}

#[test]
fn known_digest() {
    let stored = hash_password_with_salt("password", SALT).unwrap();
    let salt = SaltString::from_b64(SALT).unwrap();
    let theirs = Argon2::default().hash_password(b"password", &salt).unwrap();
    let digest = theirs.hash.unwrap().to_string();
    assert_eq!(
        stored,
        format!("$argon2id$v=19$m=19456,t=2,p=1${}${}", SALT, digest)
    );
}

#[test]
fn verification_uses_the_stored_parameters() {
    let salt = SaltString::from_b64(SALT).unwrap();
    let params = argon2::Params::new(64, 3, 2, None).unwrap();
    let hasher = Argon2::new(argon2::Algorithm::Argon2id, argon2::Version::V0x13, params);
    let stored = hasher.hash_password(b"tr0ub4dor", &salt).unwrap().to_string();
    assert!(stored.starts_with("$argon2id$v=19$m=64,t=3,p=2$"));
    assert!(verify_password(&stored, "tr0ub4dor"));
    assert!(!verify_password(&stored, "tr0ub4dor3"));
    let reparametrized = stored.replace("m=64,t=3,p=2", "m=64,t=2,p=2");
    assert!(!verify_password(&reparametrized, "tr0ub4dor"));
}

#[test]
fn stored_hash_without_parameters_never_verifies() {
    let stored = hash_password_with_salt("tr0ub4dor", SALT).unwrap();
    let stripped = stored.replace("$m=19456,t=2,p=1", "");
    assert!(StoredHash::parse(&stripped).is_none());
    assert!(!verify_password(&stripped, "tr0ub4dor"));
    let no_version = stored.replace("$v=19", "");
    assert!(!verify_password(&no_version, "tr0ub4dor"));
    let partial = stored.replace("m=19456,t=2,p=1", "m=19456,t=2");
    assert!(!verify_password(&partial, "tr0ub4dor"));
}

#[test]
fn malformed_stored_hash_does_not_verify() {
    assert!(!verify_password("", "tr0ub4dor"));
    assert!(!verify_password("not a hash", "tr0ub4dor"));
    assert!(!verify_password("abc.def", "tr0ub4dor"));
    assert!(!verify_password("$argon2id$v=19$m=19456,t=2,p=1$$", "tr0ub4dor"));
    assert!(!verify_password("$argon2id$v=19$m=019456,t=2,p=1$c29tZXNhbHQ$aGFzaA", "tr0ub4dor"));
    assert!(!verify_password("$argon2id$v=19$m=19456,t=2,p=4294967296$c29tZXNhbHQ$aGFzaA", "tr0ub4dor"));
    assert!(!verify_password("$argon2id$v=19$m=19456,t=2,p=4294967295$c29tZXNhbHQ$aGFzaA", "tr0ub4dor"));
    assert!(!verify_password("$argon2i$v=19$m=19456,t=2,p=1$c29tZXNhbHQ$aGFzaA", "tr0ub4dor"));
}

#[test]
fn parse_reads_every_field() {
    let parsed = StoredHash::parse("$argon2id$v=19$m=8,t=1,p=0$c2FsdA$ZGlnZXN0").unwrap();
    assert_eq!(parsed.memory_kib, 8);
    assert_eq!(parsed.iterations, 1);
    assert_eq!(parsed.lanes, 0);
    assert_eq!(parsed.salt, "c2FsdA");
    assert_eq!(parsed.digest, "ZGlnZXN0");
    assert!(StoredHash::parse("$argon2id$v=19$t=1,m=8,p=1$c2FsdA$ZGlnZXN0").is_none());
    assert!(StoredHash::parse("$argon2id$v=19$m=8,t=1,p=1$c2Fs.A$ZGlnZXN0").is_none());
    assert!(StoredHash::parse("x$argon2id$v=19$m=8,t=1,p=1$c2FsdA$ZGlnZXN0").is_none());
    assert!(StoredHash::parse("$argon2id$v=19$m=8,t=1,p=1$c2FsdA$ZGlnZXN0$").is_none());
}

#[test]
fn encode_writes_every_field() {
    let hash = StoredHash {
        memory_kib: 4294967295,
        iterations: 10,
        lanes: 0,
        salt: "abc+/".to_string(),
        digest: "XYZ".to_string(),
    };
    assert_eq!(hash.encode(), "$argon2id$v=19$m=4294967295,t=10,p=0$abc+/$XYZ");
}

#[test]
fn salt_outside_the_alphabet_is_invalid() {
    assert_eq!(hash_password_with_salt("tr0ub4dor", ""), Err(PasswordError::InvalidSalt));
    assert_eq!(hash_password_with_salt("tr0ub4dor", "c29tZXNhbHQ$"), Err(PasswordError::InvalidSalt));
    assert_eq!(hash_password_with_salt("tr0ub4dor", "salt.salt"), Err(PasswordError::InvalidSalt));
}

#[test]
fn salt_that_argon2_refuses() {
    assert_eq!(hash_password_with_salt("tr0ub4dor", "abc"), Err(PasswordError::Refused));
}

#[test]
fn fresh_salt_is_twenty_two_characters_of_the_alphabet() {
    let stored = hash_password("tr0ub4dor").unwrap();
    let parsed = StoredHash::parse(&stored).unwrap();
    assert_eq!(parsed.salt.chars().count(), 22);
    assert!(parsed
        .salt
        .chars()
        .all(|c| c.is_ascii_alphanumeric() || c == '+' || c == '/'));
}

#[test]
fn hashing_under_a_fresh_salt_succeeds() {
    for password in ["", "a", "correct horse battery staple"] {
        let stored = hash_password(password);
        assert!(stored.is_ok());
        assert_ne!(stored, Err(PasswordError::InvalidSalt));
    }
}

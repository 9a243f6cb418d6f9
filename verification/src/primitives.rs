//! The operations that this library takes from other crates. Nothing in this
//! file is proved: each function states what the crate it calls is relied on
//! to do, and the rest of the library is verified against those statements.

use crate::text::is_b64_text;
use argon2::{Algorithm, Argon2, Params, Version};
use hmac::{Hmac, Mac};
use password_hash::rand_core::OsRng;
use password_hash::{PasswordHasher, Salt, SaltString};
use sha2::Sha256;
use subtle::ConstantTimeEq;
use vstd::prelude::*;

verus! {

/// The digest that Argon2id, version 19, derives from a password, a salt and
/// three cost parameters, in the text form in which a password hash string
/// carries it; `None` where Argon2 refuses the salt or the parameters.
pub uninterp spec fn argon2id_digest(
    password: Seq<char>,
    salt: Seq<char>,
    memory_kib: u32,
    iterations: u32,
    lanes: u32,
) -> Option<Seq<char>>;

/// The HMAC-SHA-256 tag of a message under a key.
pub uninterp spec fn hmac_sha256(key: Seq<u8>, message: Seq<char>) -> Seq<u8>;

/// Calls `SaltString::generate` of `password_hash` on the operating system's
/// random number generator and hands back the salt's text. `generate` draws
/// 16 bytes and writes them in Base64 without padding: the claim is that the
/// text is 22 characters long, each a letter, a digit, `+` or `/`. Which
/// characters they are is chance, and nothing is claimed of it. Where the
/// operating system cannot supply randomness the call does not return.
#[verifier::external_body]
pub(crate) fn fresh_salt() -> (salt: String)
    ensures
        is_b64_text(salt@),
        salt@.len() == 22,
{
    SaltString::generate(&mut OsRng).as_str().to_string()
}

/// Calls `Argon2::hash_password` of `argon2` on an Argon2id, version 19
/// hasher built by `Argon2::new` from `Params::new(memory_kib, iterations,
/// lanes, None)`, with the salt read by `Salt::from_b64`, and hands back the
/// text of the digest. The claim is that the outcome depends on the five
/// arguments alone. `Params::new` multiplies `lanes` by eight in `u32`,
/// hence the bound on `lanes`.
#[verifier::external_body]
pub(crate) fn derive_digest(
    password: &str,
    salt: &str,
    memory_kib: u32,
    iterations: u32,
    lanes: u32,
) -> (digest: Option<String>)
    requires
        lanes * 8 <= u32::MAX,
    ensures
        match digest {
            Some(d) => argon2id_digest(password@, salt@, memory_kib, iterations, lanes) == Some(
                d@,
            ),
            None => argon2id_digest(password@, salt@, memory_kib, iterations, lanes) is None,
        },
{
    let params = Params::new(memory_kib, iterations, lanes, None).ok()?;
    let hasher = Argon2::new(Algorithm::Argon2id, Version::V0x13, params);
    let salt = Salt::from_b64(salt).ok()?;
    let hash = hasher.hash_password(password.as_bytes(), salt).ok()?;
    hash.hash.map(|digest| digest.to_string())
}

/// Calls `Mac::update` and `Mac::finalize` of `hmac` on an `Hmac<Sha256>`
/// made by `Mac::new_from_slice`, and hands back the tag's bytes. The claim
/// is that the tag depends on the key and the message alone and is 32 bytes
/// long. `new_from_slice` takes a key of any length.
#[verifier::external_body]
pub(crate) fn authentication_tag(key: &[u8], message: &str) -> (tag: Vec<u8>)
    ensures
        tag@ == hmac_sha256(key@, message@),
        tag@.len() == 32,
{
    let mut mac = <Hmac<Sha256> as Mac>::new_from_slice(key).expect("a key of any length");
    mac.update(message.as_bytes());
    mac.finalize().into_bytes().to_vec()
}

/// Calls `ConstantTimeEq::ct_eq` of `subtle` on the bytes of two texts: the
/// answer is whether the texts are equal, found in a time that depends on
/// their lengths only.
#[verifier::external_body]
pub(crate) fn constant_time_eq(a: &str, b: &str) -> (same: bool)
    ensures
        same == (a@ == b@),
{
    a.as_bytes().ct_eq(b.as_bytes()).into()
}

} // verus!

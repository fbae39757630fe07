//! Credential hasher: one-way, randomly salted password digests.
//!
//! Hashing and verification are delegated to argon2. A digest is a PHC
//! string: it always begins with `'$'`, so it is never the plaintext it was
//! derived from (for plaintexts that do not themselves begin with `'$'`),
//! and the plaintext it was derived from verifies against it.

use vstd::prelude::*;

use argon2::password_hash::rand_core::OsRng;
use argon2::password_hash::{PasswordHash, PasswordHasher, PasswordVerifier, SaltString};
use argon2::Argon2;

verus! {

/// Whether a plaintext verifies against a salted digest; a function of the
/// two alone.
pub uninterp spec fn digest_matches(plaintext: Seq<char>, digest: Seq<char>) -> bool;

/// Relies on `argon2::Argon2::hash_password` with a freshly generated random
/// salt: the digest is rendered in PHC string form, which begins with `'$'`,
/// and `verify_password` accepts the hashed plaintext against it. Hashing
/// fails only on resource exhaustion inside argon2.
#[verifier::external_body]
pub fn hash_password(plaintext: &str) -> (r: Option<String>)
    ensures
        match r {
            Some(d) => {
                &&& digest_matches(plaintext@, d@)
                &&& d@.len() > 0
                &&& d@[0] == '$'
            },
            None => true,
        },
{
    let salt = SaltString::generate(&mut OsRng);
    match Argon2::default().hash_password(plaintext.as_bytes(), &salt) {
        Ok(h) => Some(h.to_string()),
        Err(_) => None,
    }
}

/// Relies on `argon2::Argon2::verify_password` and `PasswordHash::new`:
/// returns exactly whether the digest, read as a PHC string, matches the
/// plaintext; a malformed digest verifies as false and never panics. The
/// comparison inside argon2 is constant-time.
#[verifier::external_body]
pub fn verify_password(plaintext: &str, digest: &str) -> (r: bool)
    ensures
        r == digest_matches(plaintext@, digest@),
{
    match PasswordHash::new(digest) {
        Ok(parsed) => Argon2::default().verify_password(plaintext.as_bytes(), &parsed).is_ok(),
        Err(_) => false,
    }
}

} // verus!

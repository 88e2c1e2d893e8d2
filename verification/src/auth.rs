use vstd::prelude::*;
use argon2::password_hash::{PasswordHash, PasswordHasher, PasswordVerifier, SaltString};
use argon2::Argon2;
use rand::rngs::OsRng;

verus! {

/// Token claims as carried by the transport layer. Issuing and validating
/// tokens is outside this core; the claims only ferry the authenticated
/// identity into it.
#[derive(Debug)]
pub struct Claims {
    pub sub: String,
    pub email: String,
    pub username: String,
    pub exp: usize,
}

#[derive(Debug)]
pub struct RegisterRequest {
    pub email: String,
    pub username: String,
    pub password: String,
}

#[derive(Debug)]
pub struct LoginRequest {
    pub email: String,
    pub password: String,
}

#[derive(Debug)]
pub struct UserResponse {
    pub id: String,
    pub email: String,
    pub username: String,
}

#[derive(Debug)]
pub struct AuthResponse {
    pub token: String,
    pub user: UserResponse,
}

/// Whether argon2 verifies `password` against the PHC-format hash string
/// `hash`: a function of the two strings alone.
pub uninterp spec fn argon2_matches(password: Seq<char>, hash: Seq<char>) -> bool;

/// Relies on argon2's `hash_password` with a salt drawn from the OS
/// generator, and on the PHC string format: the returned hash carries the
/// algorithm, parameters and salt, so verification recomputes the same
/// hash and accepts the password that produced it. The hash itself varies
/// with the salt, so nothing more is promised of it.
#[verifier::external_body]
pub fn hash_password(password: &str) -> (r: Result<String, String>)
    ensures
        r matches Ok(h) ==> argon2_matches(password@, h@),
{
    let salt = SaltString::generate(&mut OsRng);
    let argon2 = Argon2::default();
    argon2.hash_password(password.as_bytes(), &salt).map(|h| h.to_string()).map_err(
        |e| format!("Failed to hash password: {}", e),
    )
}

/// Relies on argon2's `verify_password`: deterministic in the password and
/// hash strings; a hash that does not parse never verifies.
#[verifier::external_body]
pub fn verify_password(password: &str, hash: &str) -> (r: bool)
    ensures
        r == argon2_matches(password@, hash@),
{
    let parsed_hash = match PasswordHash::new(hash) {
        Ok(h) => h,
        Err(_) => return false,
    };
    Argon2::default().verify_password(password.as_bytes(), &parsed_hash).is_ok()
}

} // verus!

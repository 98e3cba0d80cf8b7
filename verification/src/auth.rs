//! The authentication collaborator's data shapes and the small decisions
//! the engine makes on them: extracting the user id from a session's
//! claims, and validating registration and email inputs. Token signing and
//! verification themselves belong to the surrounding application.

use vstd::prelude::*;

use crate::errors::AppError;
use crate::text::{
    all_whitespace, contains_char, parse_digits_u64, spec_all_whitespace, spec_contains_char,
    spec_parse_digits,
};

verus! {

/// The claims of an authenticated session token.
#[derive(Debug)]
pub struct Claims {
    pub sub: String,
    pub email: String,
    pub exp: usize,
}

/// Reads the authenticated user's id from the session claims: the `sub`
/// claim as a decimal number. Anything else is an authorization failure.
pub fn extract_user_id(claims: &Claims) -> (r: Result<i32, AppError>)
    ensures
        match spec_parse_digits(claims.sub@) {
            Some(v) => if v <= i32::MAX {
                r matches Ok(u) && u == v
            } else {
                r matches Err(AppError::Unauthorized(m)) && m@ == "Unauthorized"@
            },
            None => r matches Err(AppError::Unauthorized(m)) && m@ == "Unauthorized"@,
        },
{
    match parse_digits_u64(claims.sub.as_str(), 2_147_483_647u64) {
        Some(v) => Ok(v as i32),
        None => Err(AppError::Unauthorized("Unauthorized".to_owned())),
    }
}

#[derive(Debug)]
pub struct RegisterRequest {
    pub email: String,
    pub name: String,
    pub password: String,
}

#[derive(Debug)]
pub struct LoginRequest {
    pub email: String,
    pub password: String,
}

#[derive(Debug)]
pub struct AuthResponse {
    pub token: String,
}

#[derive(Debug)]
pub struct GoogleAuthRequest {
    pub id_token: String,
}

#[derive(Debug)]
pub struct UserAddress {
    pub city: String,
    pub address: String,
    pub details: String,
}

#[derive(Debug)]
pub struct SendVerificationCodeRequest {
    pub email: String,
}

#[derive(Debug)]
pub struct VerifyCodeRequest {
    pub email: String,
    pub code: i32,
}

/// Whether a string passes the syntactic email check: non-empty and
/// holding an `@`.
pub open spec fn spec_email_ok(s: Seq<char>) -> bool {
    s.len() > 0 && spec_contains_char(s, '@')
}

/// Validates a registration request: a syntactically plausible email, a
/// name that is more than blanks (spaces, tabs and line breaks), and a
/// password of at least eight characters — characters, not bytes, the one
/// length the engine's text model measures. The first violation found is
/// the one reported.
pub fn validate_registration(payload: &RegisterRequest) -> (r: Result<(), AppError>)
    ensures
        match r {
            Ok(_) => spec_email_ok(payload.email@) && !spec_all_whitespace(payload.name@)
                && payload.password@.len() >= 8,
            Err(e) => e matches AppError::BadRequest(m) && (
                if !spec_email_ok(payload.email@) {
                    m@ == "Invalid email address"@
                } else if spec_all_whitespace(payload.name@) {
                    m@ == "Name cannot be empty"@
                } else {
                    payload.password@.len() < 8 && m@
                        == "Password must be at least 8 characters"@
                }),
        },
{
    if payload.email.as_str().is_empty() || !contains_char(payload.email.as_str(), '@') {
        return Err(AppError::BadRequest("Invalid email address".to_owned()));
    }
    if all_whitespace(payload.name.as_str()) {
        return Err(AppError::BadRequest("Name cannot be empty".to_owned()));
    }
    if payload.password.as_str().unicode_len() < 8 {
        return Err(AppError::BadRequest("Password must be at least 8 characters".to_owned()));
    }
    Ok(())
}

/// Validates an email address for the verification-code flow: non-empty
/// and holding an `@`.
pub fn validate_email(email: &str) -> (r: Result<(), AppError>)
    ensures
        match r {
            Ok(_) => spec_email_ok(email@),
            Err(e) => !spec_email_ok(email@) && e is BadRequest,
        },
{
    if email.is_empty() || !contains_char(email, '@') {
        return Err(AppError::BadRequest("Invalid email address".to_owned()));
    }
    Ok(())
}

} // verus!

//! The account subsystem's boundary shapes, and the two pieces of its
//! plumbing that are pure computation.
//!
//! Registration, credential checking, token issuance and the mail flows are
//! external collaborators: the engine only consumes a verified caller
//! identity. The request and response shapes live here so the surrounding
//! application and the engine agree on them; the engine itself never reads
//! them.

use vstd::prelude::*;
use vstd::string::StrSliceExecFns;

use crate::clock::now_micros;

verus! {

/// The verified caller identity a bearer token carries: who the caller is,
/// and the window in which the token is valid (seconds since the Unix epoch).
#[derive(Debug, Clone, PartialEq, Eq)]
pub struct Claims {
    pub user_id: String,
    pub email: String,
    pub exp: i64,
    pub iat: i64,
}

impl Claims {
    /// Claims issued now and valid for `expiration_seconds`, saturating at
    /// the largest representable instant rather than wrapping.
    pub fn new(user_id: String, email: String, expiration_seconds: i64) -> (r: Claims)
        ensures
            r.user_id == user_id,
            r.email == email,
            i64::MIN <= r.iat + expiration_seconds <= i64::MAX ==> r.exp == r.iat
                + expiration_seconds,
            !(i64::MIN <= r.iat + expiration_seconds <= i64::MAX) ==> r.exp == i64::MAX,
    {
        let iat = now_micros() / 1000000;
        let exp = match iat.checked_add(expiration_seconds) {
            Some(v) => v,
            None => i64::MAX,
        };
        Claims { user_id, email, exp, iat }
    }
}

/// The token text of an authorization header, where the header is ASCII and
/// carries the bearer scheme; `None` otherwise.
pub fn extract_token(header: &str) -> (r: Option<String>)
    ensures
        match r {
            Some(t) => header@.len() >= 7 && header@.subrange(0, 7) == "Bearer "@ && t@
                == header@.subrange(7, header@.len() as int),
            None => !(vstd::string::is_ascii(header) && header@.len() >= 7 && header@.subrange(
                0,
                7,
            ) == "Bearer "@),
        },
{
    proof {
        reveal_strlit("Bearer ");
    }
    if !header.is_ascii() {
        return None;
    }
    let n = header.unicode_len();
    if n < 7 {
        return None;
    }
    let scheme_ok = header.get_char(0) == 'B' && header.get_char(1) == 'e' && header.get_char(2)
        == 'a' && header.get_char(3) == 'r' && header.get_char(4) == 'e' && header.get_char(5)
        == 'r' && header.get_char(6) == ' ';
    if scheme_ok {
        proof {
            assert(header@.subrange(0, 7) =~= "Bearer "@);
        }
        Some(header.substring_ascii(7, n).to_owned())
    } else {
        proof {
            assert(header@.subrange(0, 7)[0] == header@[0]);
            assert(header@.subrange(0, 7)[1] == header@[1]);
            assert(header@.subrange(0, 7)[2] == header@[2]);
            assert(header@.subrange(0, 7)[3] == header@[3]);
            assert(header@.subrange(0, 7)[4] == header@[4]);
            assert(header@.subrange(0, 7)[5] == header@[5]);
            assert(header@.subrange(0, 7)[6] == header@[6]);
        }
        None
    }
}

/// A request to open an account.
#[derive(Debug, Clone, PartialEq, Eq)]
pub struct RegisterRequest {
    pub username: String,
    pub email: String,
    pub password: String,
}

/// A request to confirm an address with an emailed code.
#[derive(Debug, Clone, PartialEq, Eq)]
pub struct VerifyEmailRequest {
    pub email: String,
    pub code: String,
}

/// A request to have the confirmation code sent again.
#[derive(Debug, Clone, PartialEq, Eq)]
pub struct ResendCodeRequest {
    pub email: String,
}

/// A request to begin password recovery.
#[derive(Debug, Clone, PartialEq, Eq)]
pub struct ForgotPasswordRequest {
    pub email: String,
}

/// A request to check a recovery code before resetting.
#[derive(Debug, Clone, PartialEq, Eq)]
pub struct VerifyResetCodeRequest {
    pub email: String,
    pub code: String,
}

/// A request to set a new password with a recovery token.
#[derive(Debug, Clone, PartialEq, Eq)]
pub struct ResetPasswordRequest {
    pub email: String,
    pub reset_token: String,
    pub new_password: String,
    pub confirm_password: String,
}

/// A request to sign in.
#[derive(Debug, Clone, PartialEq, Eq)]
pub struct LoginRequest {
    pub email: String,
    pub password: String,
}

/// What registration answers: where the confirmation code went.
#[derive(Debug, Clone, PartialEq, Eq)]
pub struct RegisterResponse {
    pub email: String,
    pub requires_verification: bool,
}

/// What password recovery answers.
#[derive(Debug, Clone, PartialEq, Eq)]
pub struct ForgotPasswordResponse {
    pub email: String,
}

/// What a checked recovery code answers: the token that authorizes the reset.
#[derive(Debug, Clone, PartialEq, Eq)]
pub struct VerifyResetCodeResponse {
    pub reset_token: String,
}

/// A request to change the display name.
#[derive(Debug, Clone, PartialEq, Eq)]
pub struct UpdateUsernameRequest {
    pub username: String,
}

/// What a changed display name answers.
#[derive(Debug, Clone, PartialEq, Eq)]
pub struct UpdateUsernameResponse {
    pub username: String,
}

/// A request to change the account address, re-authenticated by password.
#[derive(Debug, Clone, PartialEq, Eq)]
pub struct UpdateEmailRequest {
    pub email: String,
    pub password: String,
}

/// What a changed address answers: the fresh token carrying it.
#[derive(Debug, Clone, PartialEq, Eq)]
pub struct UpdateEmailResponse {
    pub email: String,
    pub token: String,
}

/// A request to change the password.
#[derive(Debug, Clone, PartialEq, Eq)]
pub struct UpdatePasswordRequest {
    pub current_password: String,
    pub new_password: String,
    pub confirm_password: String,
}

} // verus!

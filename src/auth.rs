//! Login: a name and a secret in, a profile and a signed token out.
use vstd::prelude::*;

use crate::clock::now_seconds;
use crate::token::{encode_at, expiry, service_secret, token_text, ClaimsView, SigningKey, LOGIN_TTL};
use crate::user::{profile_of, ProfileView, UserInDB, UserInDBView, UserProfile};
use crate::utils::{bcrypt_verdict, valid};

verus! {

/// What a client sends to log in.
#[derive(Debug)]
pub struct Authentication {
    pub name: String,
    pub password: String,
}

/// What a successful login returns.
#[derive(Debug)]
pub struct AuthenticationResponse {
    pub profile: UserProfile,
    pub token: String,
}

/// Why a login failed.
#[derive(Debug, Clone, Copy, PartialEq, Eq, Structural)]
pub enum AuthError {
    /// No user has that name.
    UnknownPrincipal,
    /// The secret does not match the stored hash.
    BadSecret,
    /// Hashing or signing failed.
    Internal,
}

pub open spec fn record_view(found: Option<UserInDB>) -> Option<UserInDBView> {
    match found {
        Some(rec) => Some(rec@),
        None => None,
    }
}

/// What logging in with `secret` gives, where the store found `found` under
/// the name, at time `now`: the profile and the token.
pub open spec fn login_spec(found: Option<UserInDBView>, secret: Seq<char>, key: Seq<u8>, now: i64) -> Result<
    (ProfileView, Seq<char>),
    AuthError,
> {
    match found {
        None => Err(AuthError::UnknownPrincipal),
        Some(rec) => match bcrypt_verdict(secret, rec.password) {
            None => Err(AuthError::Internal),
            Some(false) => Err(AuthError::BadSecret),
            Some(true) => Ok(
                (
                    profile_of(rec),
                    token_text(
                        (ClaimsView { profile: profile_of(rec), exp: expiry(now, LOGIN_TTL) }),
                        key,
                    ),
                ),
            ),
        },
    }
}

pub open spec fn login_outcome(r: Result<AuthenticationResponse, AuthError>) -> Result<
    (ProfileView, Seq<char>),
    AuthError,
> {
    match r {
        Ok(resp) => Ok((resp.profile@, resp.token@)),
        Err(e) => Err(e),
    }
}

/// Logs in at time `now`, signing with `key`. `found` is what the store
/// holds under `payload.name`.
pub fn authenticate_at(
    found: Option<UserInDB>,
    payload: &Authentication,
    key: &SigningKey,
    now: i64,
) -> (r: Result<AuthenticationResponse, AuthError>)
    ensures
        login_outcome(r) == login_spec(record_view(found), payload.password@, key@, now),
{
    let user_in_db = match found {
        Some(u) => u,
        None => {
            return Err(AuthError::UnknownPrincipal);
        },
    };
    match valid(payload.password.as_str(), user_in_db.password.as_str()) {
        Ok(true) => {},
        Ok(false) => {
            return Err(AuthError::BadSecret);
        },
        Err(_) => {
            return Err(AuthError::Internal);
        },
    }
    let user_profile = UserProfile::from(user_in_db);
    let jwt = match encode_at(&user_profile, now, LOGIN_TTL, key) {
        Ok(t) => t,
        Err(_) => {
            return Err(AuthError::Internal);
        },
    };
    Ok(AuthenticationResponse { profile: user_profile, token: jwt })
}

/// Logs in now, signing with the service key. `found` is what the store
/// holds under `payload.name`.
pub fn authenticate(found: Option<UserInDB>, payload: &Authentication) -> (r: Result<
    AuthenticationResponse,
    AuthError,
>)
    ensures
        exists|now: i64|
            login_outcome(r) == #[trigger] login_spec(
                record_view(found),
                payload.password@,
                service_secret(),
                now,
            ),
{
    let key = SigningKey::service();
    let now = now_seconds();
    authenticate_at(found, payload, &key, now)
}

} // verus!

//! User directory core: secret hashing, signed identity tokens, login and
//! the permission gate that every protected operation passes first.
pub mod auth;
pub mod clock;
pub mod config;
pub mod text;
pub mod token;
pub mod user;
pub mod user_config;
pub mod utils;

use vstd::prelude::*;

use crate::clock::now_seconds;
use crate::token::{
    decode_at, decode_spec, expiry, lemma_token_round_trip, service_secret,
    token_text, well_signed, ClaimsView, DecodeError, SigningKey,
};
use crate::user::{ProfileView, UserProfile};

verus! {

/// One use of a protected operation: who invoked what, on what, when.
#[derive(Debug)]
pub struct AuditRecord {
    pub principal: String,
    pub operation: String,
    pub argument: String,
    pub at: i64,
}

pub struct AuditView {
    pub principal: Seq<char>,
    pub operation: Seq<char>,
    pub argument: Seq<char>,
    pub at: i64,
}

impl View for AuditRecord {
    type V = AuditView;

    open spec fn view(&self) -> AuditView {
        AuditView {
            principal: self.principal@,
            operation: self.operation@,
            argument: self.argument@,
            at: self.at,
        }
    }
}

/// Why the permission check turned a request away.
#[derive(Debug, Clone, Copy, PartialEq, Eq, Structural)]
pub enum GateError {
    /// The request carries no token.
    MissingCredential,
    /// The token was refused, for the reason given.
    InvalidToken(DecodeError),
}

pub open spec fn carrier_view(carrier: Option<&str>) -> Option<Seq<char>> {
    match carrier {
        Some(t) => Some(t@),
        None => None,
    }
}

/// What the permission check answers for a request carrying `carrier`, at time `now`.
pub open spec fn gate_spec(carrier: Option<Seq<char>>, key: Seq<u8>, now: i64) -> Result<ProfileView, GateError> {
    match carrier {
        None => Err(GateError::MissingCredential),
        Some(t) => match decode_spec(t, key, now) {
            Ok(p) => Ok(p),
            Err(e) => Err(GateError::InvalidToken(e)),
        },
    }
}

pub open spec fn gate_outcome(r: Result<UserProfile, GateError>) -> Result<ProfileView, GateError> {
    match r {
        Ok(p) => Ok(p@),
        Err(e) => Err(e),
    }
}

/// The audit log grew by exactly `rec` on a success and is untouched on a
/// refusal.
pub open spec fn audited(
    r: Result<UserProfile, GateError>,
    before: Seq<AuditRecord>,
    after: Seq<AuditRecord>,
    fn_name: Seq<char>,
    arg: Seq<char>,
    now: i64,
) -> bool {
    match r {
        Ok(p) => {
            &&& after.len() == before.len() + 1
            &&& after.drop_last() == before
            &&& after.last()@ == (AuditView {
                principal: p@.base.name,
                operation: fn_name,
                argument: arg,
                at: now,
            })
        },
        Err(_) => after == before,
    }
}

/// Checks the token a request carries before operation `fn_name` on `arg`
/// runs, at time `now`; on success appends one record to `audit`.
pub fn permission_check_at(
    carrier: Option<&str>,
    fn_name: &str,
    arg: &str,
    key: &SigningKey,
    now: i64,
    audit: &mut Vec<AuditRecord>,
) -> (r: Result<UserProfile, GateError>)
    ensures
        gate_outcome(r) == gate_spec(carrier_view(carrier), key@, now),
        audited(r, old(audit)@, final(audit)@, fn_name@, arg@, now),
{
    let token = match carrier {
        Some(t) => t,
        None => {
            return Err(GateError::MissingCredential);
        },
    };
    match decode_at(token, key, now) {
        Ok(p) => {
            let rec = AuditRecord {
                principal: p.user_base.name.clone(),
                operation: String::from_str(fn_name),
                argument: String::from_str(arg),
                at: now,
            };
            audit.push(rec);
            proof {
                assert(final(audit)@.drop_last() == old(audit)@);
            }
            Ok(p)
        },
        Err(e) => Err(GateError::InvalidToken(e)),
    }
}

/// Checks the token a request carries, now and with the service key, before
/// operation `fn_name` on `arg` runs; on success appends one record to `audit`.
pub fn permission_check(
    carrier: Option<&str>,
    fn_name: &str,
    arg: &str,
    audit: &mut Vec<AuditRecord>,
) -> (r: Result<UserProfile, GateError>)
    ensures
        carrier is None ==> r == Err::<UserProfile, GateError>(GateError::MissingCredential),
        exists|now: i64|
            {
                &&& gate_outcome(r) == #[trigger] gate_spec(carrier_view(carrier), service_secret(), now)
                &&& audited(r, old(audit)@, final(audit)@, fn_name@, arg@, now)
            },
{
    let key = SigningKey::service();
    let now = now_seconds();
    permission_check_at(carrier, fn_name, arg, &key, now, audit)
}

/// A request without a token is turned away; one carrying a token made
/// with the same key that has not expired yet is let through as the
/// profile the token carries.
pub proof fn lemma_gate(p: ProfileView, made: i64, ttl: i64, key: Seq<u8>, now: i64)
    requires
        ttl > 0,
        now < expiry(made, ttl),
        well_signed(ClaimsView { profile: p, exp: expiry(made, ttl) }, key),
    ensures
        gate_spec(None, key, now) == Err::<ProfileView, GateError>(GateError::MissingCredential),
        gate_spec(
            Some(token_text((ClaimsView { profile: p, exp: expiry(made, ttl) }), key)),
            key,
            now,
        ) == Ok::<ProfileView, GateError>(p),
{
    lemma_token_round_trip(p, made, ttl, key, now);
}

} // verus!

//! One-way hashing of secrets.
use vstd::prelude::*;

verus! {

#[verifier::external_type_specification]
#[verifier::external_body]
pub struct ExBcryptError(bcrypt::BcryptError);

/// What `bcrypt::verify` answers for a password and a stored hash: `Some`
/// with whether they match, `None` where it fails on the hash.
pub uninterp spec fn bcrypt_verdict(password: Seq<char>, hash: Seq<char>) -> Option<bool>;

/// A character of bcrypt's base64 alphabet: `.`, `/`, ASCII letters and digits.
pub open spec fn bcrypt_b64_char(c: char) -> bool {
    c == '.' || c == '/' || ('0' <= c && c <= '9') || ('a' <= c && c <= 'z') || ('A' <= c
        && c <= 'Z')
}

/// The modular-crypt form that bcrypt writes at cost 12: `$2b$12$`, then a
/// 22-character salt and a 31-character digest in bcrypt's base64 alphabet.
pub open spec fn bcrypt_form(h: Seq<char>) -> bool {
    &&& h.len() == 60
    &&& h.subrange(0, 7) == "$2b$12$"@
    &&& forall|i: int| 7 <= i < 60 ==> bcrypt_b64_char(#[trigger] h[i])
}

/// Relies on `bcrypt::hash` at the default cost (12): it draws a random salt
/// and writes `$2b$12$`, the salt and the digest in bcrypt's base64; and
/// `bcrypt::verify` accepts the password against every hash it returns (it
/// parses back the cost and salt it wrote and recomputes the same digest).
#[verifier::external_body]
fn bcrypt_hash(password: &str) -> (r: Result<String, bcrypt::BcryptError>)
    ensures
        r matches Ok(h) ==> bcrypt_verdict(password@, h@) == Some(true),
        r matches Ok(h) ==> bcrypt_form(h@),
{
    bcrypt::hash(password, bcrypt::DEFAULT_COST)
}

/// Relies on `bcrypt::verify`: its answer depends on the password and the hash
/// alone.
#[verifier::external_body]
fn bcrypt_verify(password: &str, hash: &str) -> (r: Result<bool, bcrypt::BcryptError>)
    ensures
        r matches Ok(b) ==> bcrypt_verdict(password@, hash@) == Some(b),
        r is Err ==> bcrypt_verdict(password@, hash@) is None,
{
    bcrypt::verify(password, hash)
}

/// The hashing primitive failed: no randomness, or a stored hash it cannot read.
#[derive(Debug, PartialEq, Eq, Structural)]
pub struct HashingError;

/// `hash` is a hash of `password`: checking the password against it succeeds.
pub open spec fn hashes_to(password: Seq<char>, hash: Seq<char>) -> bool {
    bcrypt_verdict(password, hash) == Some(true)
}

/// What checking `password` against `hash` gives.
pub open spec fn check_outcome(password: Seq<char>, hash: Seq<char>) -> Result<bool, HashingError> {
    match bcrypt_verdict(password, hash) {
        Some(b) => Ok(b),
        None => Err(HashingError),
    }
}

/// A salted, slow, one-way hash of `pwd`, at cost 12.
pub fn encrypt(pwd: &str) -> (r: Result<String, HashingError>)
    ensures
        r matches Ok(h) ==> hashes_to(pwd@, h@),
        r matches Ok(h) ==> bcrypt_form(h@),
{
    match bcrypt_hash(pwd) {
        Ok(h) => Ok(h),
        Err(_) => Err(HashingError),
    }
}

/// Whether `pwd` is the secret that `encrypted` was made from.
pub fn valid(pwd: &str, encrypted: &str) -> (r: Result<bool, HashingError>)
    ensures
        r == check_outcome(pwd@, encrypted@),
{
    match bcrypt_verify(pwd, encrypted) {
        Ok(b) => Ok(b),
        Err(_) => Err(HashingError),
    }
}

/// Every hash that `encrypt` makes of a secret is accepted by `valid` for
/// that same secret.
pub proof fn lemma_own_hash_accepted(password: Seq<char>, hash: Seq<char>)
    requires
        hashes_to(password, hash),
    ensures
        check_outcome(password, hash) == Ok::<bool, HashingError>(true),
{
}

} // verus!

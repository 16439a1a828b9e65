//! Signed, time-bounded identity tokens.
//!
//! A token is three dot-separated segments: a fixed header, the claims
//! (a profile and an expiry instant) in a URL-safe text form, and the
//! HMAC-SHA256 of the first two segments under the signing key.
use vstd::prelude::*;
use vstd::slice::{slice_subrange, slice_to_vec};

use crate::clock::now_seconds;
use crate::text::{
    chars_of, cut, cut_at, escape, hex_fixed, hex_number, lacks, lemma_cut_concat,
    lemma_escape_lacks, lemma_find_bound, lemma_hex_fixed_chars, lemma_hex_round_trip, escaped_char, is_plain, lemma_pow16_sixteen,
    lemma_unescape_escape, push_escaped, push_hex, push_str, read_escaped, read_hex, same_chars,
    string_of, unescape,
};
use crate::user::{texts, ProfileView, UserBase, UserProfile};

use jsonwebtoken::errors::Error as JwtError;

verus! {

#[verifier::external_type_specification]
#[verifier::external_body]
pub struct ExJwtError(jsonwebtoken::errors::Error);

/// What `jsonwebtoken::crypto::sign` returns for HS256: the unpadded URL-safe
/// base64 form of the HMAC-SHA256 of `message` under `key`.
pub uninterp spec fn hs256_signature(key: Seq<u8>, message: Seq<char>) -> Seq<char>;

/// A character of the URL-safe base64 alphabet: ASCII letters, digits, `-`, `_`.
pub open spec fn b64url_char(c: char) -> bool {
    is_plain(c) || c == '-' || c == '_'
}

/// 43 characters of URL-safe base64: the unpadded form of 32 bytes.
pub open spec fn signature_form(s: Seq<char>) -> bool {
    &&& s.len() == 43
    &&& forall|i: int| 0 <= i < s.len() ==> b64url_char(#[trigger] s[i])
}

/// Relies on `jsonwebtoken::crypto::sign` with `Algorithm::HS256` and a key
/// from `EncodingKey::from_secret`: for the HMAC algorithms it returns `Ok`
/// in every case, with the 32-byte MAC in unpadded URL-safe base64.
#[verifier::external_body]
fn hs256_sign(key: &[u8], message: &str) -> (r: Result<String, JwtError>)
    ensures
        r is Ok,
        r matches Ok(s) ==> s@ == hs256_signature(key@, message@),
        r matches Ok(s) ==> signature_form(s@),
{
    jsonwebtoken::crypto::sign(
        message.as_bytes(),
        &jsonwebtoken::EncodingKey::from_secret(key),
        jsonwebtoken::Algorithm::HS256,
    )
}

/// Relies on `jsonwebtoken::crypto::verify` with `Algorithm::HS256` and a key
/// from `DecodingKey::from_secret`: it signs `message` again with the same
/// secret, which cannot fail, and compares the result with `signature` in
/// constant time.
#[verifier::external_body]
fn hs256_verify(signature: &str, key: &[u8], message: &str) -> (r: Result<bool, JwtError>)
    ensures
        r is Ok,
        r matches Ok(b) ==> b == (signature@ == hs256_signature(key@, message@)),
{
    jsonwebtoken::crypto::verify(
        signature,
        message.as_bytes(),
        &jsonwebtoken::DecodingKey::from_secret(key),
        jsonwebtoken::Algorithm::HS256,
    )
}

/// The header segment: `{"alg":"HS256"}` in unpadded URL-safe base64.
pub const TOKEN_HEADER: &'static str = "eyJhbGciOiJIUzI1NiJ9";

/// How long a login token lasts, in seconds (four hours).
pub const LOGIN_TTL: i64 = 14400;

/// The secret that encoding and decoding share.
pub struct SigningKey {
    secret: Vec<u8>,
}

impl View for SigningKey {
    type V = Seq<u8>;

    closed spec fn view(&self) -> Seq<u8> {
        self.secret@
    }
}

/// The bytes of `secret`, the key the service signs with.
pub open spec fn service_secret() -> Seq<u8> {
    seq![115u8, 101u8, 99u8, 114u8, 101u8, 116u8]
}

impl SigningKey {
    pub fn from_secret(secret: &[u8]) -> (r: SigningKey)
        ensures
            r@ == secret@,
    {
        SigningKey { secret: slice_to_vec(secret) }
    }

    /// The key the service signs its tokens with.
    pub fn service() -> (r: SigningKey)
        ensures
            r@ == service_secret(),
    {
        let mut secret: Vec<u8> = Vec::new();
        secret.push(115u8);
        secret.push(101u8);
        secret.push(99u8);
        secret.push(114u8);
        secret.push(101u8);
        secret.push(116u8);
        proof {
            assert(secret@ =~= service_secret());
        }
        SigningKey { secret }
    }

    fn secret(&self) -> (r: &[u8])
        ensures
            r@ == self@,
    {
        self.secret.as_slice()
    }
}

/// Why a token was refused.
#[derive(Debug, Clone, Copy, PartialEq, Eq, Structural)]
pub enum DecodeError {
    /// Not a token of this form.
    Malformed,
    /// The signature does not match the rest of the token.
    BadSignature,
    /// The token was genuine but its time is up.
    Expired,
}

/// A token could not be signed.
#[derive(Debug, Clone, Copy, PartialEq, Eq, Structural)]
pub enum EncodeError {
    Signing,
}

/// What a token carries: a profile and the instant it expires.
#[derive(Debug)]
pub struct UserProfileEx {
    pub profile: UserProfile,
    pub exp: i64,
}

pub struct ClaimsView {
    pub profile: ProfileView,
    pub exp: i64,
}

impl View for UserProfileEx {
    type V = ClaimsView;

    open spec fn view(&self) -> ClaimsView {
        ClaimsView { profile: self.profile@, exp: self.exp }
    }
}

/// `now + ttl`, held to the range of `i64`.
pub open spec fn expiry(now: i64, ttl: i64) -> i64 {
    if now + ttl > i64::MAX {
        i64::MAX
    } else if now + ttl < i64::MIN {
        i64::MIN
    } else {
        (now + ttl) as i64
    }
}

fn expiry_of(now: i64, ttl: i64) -> (r: i64)
    ensures
        r == expiry(now, ttl),
{
    match now.checked_add(ttl) {
        Some(e) => e,
        None => if ttl > 0 {
            i64::MAX
        } else {
            i64::MIN
        },
    }
}

impl UserProfileEx {
    /// The claims of a token made at `now` that lasts `expire_in` seconds.
    pub fn from_profile_at(user_profile: UserProfile, now: i64, expire_in: i64) -> (r: Self)
        ensures
            r@ == (ClaimsView { profile: user_profile@, exp: expiry(now, expire_in) }),
    {
        UserProfileEx { profile: user_profile, exp: expiry_of(now, expire_in) }
    }

    /// The claims of a token made now that lasts `expire_in` seconds.
    pub fn from_profile(user_profile: UserProfile, expire_in: i64) -> (r: Self)
        ensures
            r.profile@ == user_profile@,
            exists|now: i64| r.exp == expiry(now, expire_in),
    {
        Self::from_profile_at(user_profile, now_seconds(), expire_in)
    }

    pub fn to_profile(&self) -> (r: UserProfile)
        ensures
            r@ == self.profile@,
    {
        self.profile.clone()
    }
}

// ---- the claims segment ----

/// An integer as sixteen hexadecimal digits of its two's complement bits.
pub open spec fn i64_text(x: i64) -> Seq<char> {
    hex_fixed(x as u64 as nat, 16)
}

/// The integer that sixteen hexadecimal digits write.
pub open spec fn i64_of(t: Seq<char>) -> Option<i64> {
    if t.len() == 16 {
        match hex_number(t) {
            Some(v) => Some(v as u64 as i64),
            None => None,
        }
    } else {
        None
    }
}

/// A list of strings, each escaped and closed by `-`.
pub open spec fn list_text(v: Seq<Seq<char>>) -> Seq<char>
    decreases v.len(),
{
    if v.len() == 0 {
        seq![]
    } else {
        escape(v[0]) + seq!['-'] + list_text(v.drop_first())
    }
}

/// The list of strings that text written by `list_text` stands for.
pub open spec fn list_of(t: Seq<char>) -> Option<Seq<Seq<char>>>
    decreases t.len(),
    via list_of_decreases
{
    if t.len() == 0 {
        Some(seq![])
    } else {
        match cut(t, '-') {
            Some((a, b)) => match (unescape(a), list_of(b)) {
                (Some(x), Some(xs)) => Some(seq![x] + xs),
                _ => None,
            },
            None => None,
        }
    }
}

#[via_fn]
proof fn list_of_decreases(t: Seq<char>) {
    lemma_find_bound(t, '-');
}

/// Fields joined by `_`.
pub open spec fn join_fields(fs: Seq<Seq<char>>) -> Seq<char>
    decreases fs.len(),
{
    if fs.len() == 0 {
        seq![]
    } else if fs.len() == 1 {
        fs[0]
    } else {
        fs[0] + seq!['_'] + join_fields(fs.drop_first())
    }
}

/// `t` cut at its first `n` underscores: `n + 1` fields.
pub open spec fn fields(t: Seq<char>, n: nat) -> Option<Seq<Seq<char>>>
    decreases n,
{
    if n == 0 {
        Some(seq![t])
    } else {
        match cut(t, '_') {
            Some((a, b)) => match fields(b, (n - 1) as nat) {
                Some(fs) => Some(seq![a] + fs),
                None => None,
            },
            None => None,
        }
    }
}

/// The fields of the claims segment, in order.
pub open spec fn claims_fields(c: ClaimsView) -> Seq<Seq<char>> {
    seq![
        i64_text(c.exp),
        i64_text(c.profile.create_at),
        escape(c.profile.id),
        escape(c.profile.base.name),
        escape(c.profile.base.phone),
        list_text(c.profile.base.roles),
        list_text(c.profile.base.permissions),
    ]
}

/// The claims segment of a token.
pub open spec fn claims_text(c: ClaimsView) -> Seq<char> {
    join_fields(claims_fields(c))
}

/// The claims that a claims segment stands for, if it is well formed.
pub open spec fn claims_of(t: Seq<char>) -> Option<ClaimsView> {
    match fields(t, 6) {
        Some(f) => match (
            i64_of(f[0]),
            i64_of(f[1]),
            unescape(f[2]),
            unescape(f[3]),
            unescape(f[4]),
            list_of(f[5]),
            list_of(f[6]),
        ) {
            (Some(exp), Some(at), Some(id), Some(name), Some(phone), Some(roles), Some(perms)) => {
                Some(
                    ClaimsView {
                        profile: ProfileView {
                            id,
                            create_at: at,
                            base: crate::user::UserBaseView {
                                name,
                                phone,
                                roles,
                                permissions: perms,
                            },
                        },
                        exp,
                    },
                )
            },
            _ => None,
        },
        None => None,
    }
}

// ---- the token ----

pub open spec fn header_text() -> Seq<char> {
    TOKEN_HEADER@
}

/// What the signature covers: header, `.`, claims segment.
pub open spec fn signing_input(payload: Seq<char>) -> Seq<char> {
    header_text() + seq!['.'] + payload
}

/// The token that carries `c`, signed with `key`.
pub open spec fn token_text(c: ClaimsView, key: Seq<u8>) -> Seq<char> {
    let msg = signing_input(claims_text(c));
    msg + seq!['.'] + hs256_signature(key, msg)
}

/// What decoding `token` with `key` at time `now` gives: the frame (the
/// header and exactly three segments) is read first, then the signature is checked, then the claims, then the expiry.
pub open spec fn decode_spec(token: Seq<char>, key: Seq<u8>, now: i64) -> Result<ProfileView, DecodeError> {
    match cut(token, '.') {
        None => Err(DecodeError::Malformed),
        Some((h, rest)) => match cut(rest, '.') {
            None => Err(DecodeError::Malformed),
            Some((p, s)) => if h != header_text() || !lacks(s, '.') {
                Err(DecodeError::Malformed)
            } else if s != hs256_signature(key, signing_input(p)) {
                Err(DecodeError::BadSignature)
            } else {
                match claims_of(p) {
                    None => Err(DecodeError::Malformed),
                    Some(c) => if now < c.exp {
                        Ok(c.profile)
                    } else {
                        Err(DecodeError::Expired)
                    },
                }
            },
        },
    }
}

/// The view of a decoding result.
pub open spec fn profile_outcome(r: Result<UserProfile, DecodeError>) -> Result<ProfileView, DecodeError> {
    match r {
        Ok(p) => Ok(p@),
        Err(e) => Err(e),
    }
}


// ---- reading back what was written ----

pub proof fn lemma_i64_round_trip(x: i64)
    ensures
        i64_of(i64_text(x)) == Some(x),
        forall|c: char| !is_plain(c) ==> lacks(i64_text(x), c),
{
    lemma_pow16_sixteen();
    lemma_hex_round_trip(x as u64 as nat, 16);
    lemma_hex_fixed_chars(x as u64 as nat, 16);
    assert((x as u64) as i64 == x) by (bit_vector);
}

pub proof fn lemma_list_round_trip(v: Seq<Seq<char>>)
    ensures
        list_of(list_text(v)) == Some(v),
        forall|c: char| !escaped_char(c) && c != '-' ==> lacks(list_text(v), c),
    decreases v.len(),
{
    if v.len() > 0 {
        let e = escape(v[0]);
        let rest = list_text(v.drop_first());
        lemma_list_round_trip(v.drop_first());
        lemma_escape_lacks(v[0], '-');
        lemma_cut_concat(e, rest, '-');
        lemma_unescape_escape(v[0]);
        assert(seq![v[0]] + v.drop_first() == v);
        assert forall|c: char| !escaped_char(c) && c != '-' implies lacks(list_text(v), c) by {
            lemma_escape_lacks(v[0], c);
            let t = list_text(v);
            assert forall|j: int| 0 <= j < t.len() implies t[j] != c by {
                if j < e.len() {
                    assert(t[j] == e[j]);
                } else if j > e.len() {
                    assert(t[j] == rest[j - e.len() - 1]);
                }
            }
        }
    }
}

pub proof fn lemma_fields_join(fs: Seq<Seq<char>>, n: nat)
    requires
        fs.len() == n + 1,
        forall|i: int| 0 <= i < n ==> lacks(#[trigger] fs[i], '_'),
    ensures
        fields(join_fields(fs), n) == Some(fs),
    decreases n,
{
    if n > 0 {
        let tail = fs.drop_first();
        assert forall|i: int| 0 <= i < n - 1 implies lacks(#[trigger] tail[i], '_') by {
            assert(tail[i] == fs[i + 1]);
        }
        lemma_fields_join(tail, (n - 1) as nat);
        lemma_cut_concat(fs[0], join_fields(tail), '_');
        assert(seq![fs[0]] + tail == fs);
    } else {
        assert(seq![fs[0]] == fs);
    }
}

pub proof fn lemma_join_fields_lacks(fs: Seq<Seq<char>>, c: char)
    requires
        c != '_',
        forall|i: int| 0 <= i < fs.len() ==> lacks(#[trigger] fs[i], c),
    ensures
        lacks(join_fields(fs), c),
    decreases fs.len(),
{
    if fs.len() > 1 {
        let tail = fs.drop_first();
        assert forall|i: int| 0 <= i < tail.len() implies lacks(#[trigger] tail[i], c) by {
            assert(tail[i] == fs[i + 1]);
        }
        lemma_join_fields_lacks(tail, c);
        let a = fs[0];
        let b = join_fields(tail);
        let t = join_fields(fs);
        assert(lacks(a, c));
        assert forall|j: int| 0 <= j < t.len() implies t[j] != c by {
            if j < a.len() {
                assert(t[j] == a[j]);
            } else if j > a.len() {
                assert(t[j] == b[j - a.len() - 1]);
            }
        }
    } else if fs.len() == 1 {
        assert(lacks(fs[0], c));
    }
}

/// The claims segment reads back as the claims it was written from, and
/// holds no `.`.
pub proof fn lemma_claims_round_trip(c: ClaimsView)
    ensures
        claims_of(claims_text(c)) == Some(c),
        lacks(claims_text(c), '.'),
{
    let fs = claims_fields(c);
    let p = c.profile;
    lemma_i64_round_trip(c.exp);
    lemma_i64_round_trip(p.create_at);
    lemma_unescape_escape(p.id);
    lemma_unescape_escape(p.base.name);
    lemma_unescape_escape(p.base.phone);
    lemma_list_round_trip(p.base.roles);
    lemma_list_round_trip(p.base.permissions);
    assert(!is_plain('_') && !escaped_char('_'));
    assert(!is_plain('.') && !escaped_char('.'));
    lemma_escape_lacks(p.id, '_');
    lemma_escape_lacks(p.base.name, '_');
    lemma_escape_lacks(p.base.phone, '_');
    lemma_escape_lacks(p.id, '.');
    lemma_escape_lacks(p.base.name, '.');
    lemma_escape_lacks(p.base.phone, '.');
    assert(forall|i: int| 0 <= i < 6 ==> lacks(#[trigger] fs[i], '_'));
    assert(forall|i: int| 0 <= i < 7 ==> lacks(#[trigger] fs[i], '.'));
    lemma_fields_join(fs, 6);
    lemma_join_fields_lacks(fs, '.');
}

pub proof fn lemma_header_lacks_dot()
    ensures
        lacks(header_text(), '.'),
{
    reveal_strlit("eyJhbGciOiJIUzI1NiJ9");
}


/// Decoding a token whose header and claims were written by this module:
/// only the signature and the clock decide.
proof fn lemma_decode_signed(c: ClaimsView, key: Seq<u8>, sig: Seq<char>, now: i64)
    ensures
        decode_spec(signing_input(claims_text(c)) + seq!['.'] + sig, key, now) == (if !lacks(
            sig,
            '.',
        ) {
            Err(DecodeError::Malformed)
        } else if sig != hs256_signature(key, signing_input(claims_text(c))) {
            Err(DecodeError::BadSignature)
        } else if now < c.exp {
            Ok(c.profile)
        } else {
            Err(DecodeError::Expired)
        }),
{
    let p = claims_text(c);
    let token = signing_input(p) + seq!['.'] + sig;
    lemma_header_lacks_dot();
    lemma_claims_round_trip(c);
    assert(token == header_text() + seq!['.'] + (p + seq!['.'] + sig));
    lemma_cut_concat(header_text(), p + seq!['.'] + sig, '.');
    lemma_cut_concat(p, sig, '.');
}

/// The signature of the claims `c` under `key` has the form that
/// `jsonwebtoken` gives every HS256 signature; `encode_at` ensures it of
/// every token it makes.
pub open spec fn well_signed(c: ClaimsView, key: Seq<u8>) -> bool {
    signature_form(hs256_signature(key, signing_input(claims_text(c))))
}

proof fn lemma_signature_lacks_dot(s: Seq<char>)
    requires
        signature_form(s),
    ensures
        lacks(s, '.'),
{
    assert forall|j: int| 0 <= j < s.len() implies s[j] != '.' by {
        assert(b64url_char(s[j]));
    }
}

/// A token made at `made` that lasts `ttl > 0` seconds, decoded with the
/// same key before it expires, gives back the profile it was made from.
pub proof fn lemma_token_round_trip(p: ProfileView, made: i64, ttl: i64, key: Seq<u8>, now: i64)
    requires
        ttl > 0,
        now < expiry(made, ttl),
        well_signed(ClaimsView { profile: p, exp: expiry(made, ttl) }, key),
    ensures
        decode_spec(token_text(ClaimsView { profile: p, exp: expiry(made, ttl) }, key), key, now)
            == Ok::<ProfileView, DecodeError>(p),
{
    let c = ClaimsView { profile: p, exp: expiry(made, ttl) };
    lemma_signature_lacks_dot(hs256_signature(key, signing_input(claims_text(c))));
    lemma_decode_signed(c, key, hs256_signature(key, signing_input(claims_text(c))), now);
}

/// A token made with a negative lifetime is refused as expired from the
/// moment it is made on.
pub proof fn lemma_token_expired(p: ProfileView, made: i64, ttl: i64, key: Seq<u8>, now: i64)
    requires
        ttl < 0,
        made <= now,
        well_signed(ClaimsView { profile: p, exp: expiry(made, ttl) }, key),
    ensures
        decode_spec(token_text(ClaimsView { profile: p, exp: expiry(made, ttl) }, key), key, now)
            == Err::<ProfileView, DecodeError>(DecodeError::Expired),
{
    let c = ClaimsView { profile: p, exp: expiry(made, ttl) };
    lemma_signature_lacks_dot(hs256_signature(key, signing_input(claims_text(c))));
    lemma_decode_signed(c, key, hs256_signature(key, signing_input(claims_text(c))), now);
}

/// A token whose signature segment was changed in any way is refused for
/// its signature, never accepted. (A changed segment that holds a `.` makes
/// a fourth segment, and the text is refused as malformed instead.)
pub proof fn lemma_tampered_signature(c: ClaimsView, key: Seq<u8>, forged: Seq<char>, now: i64)
    requires
        forged != hs256_signature(key, signing_input(claims_text(c))),
        lacks(forged, '.'),
    ensures
        decode_spec(signing_input(claims_text(c)) + seq!['.'] + forged, key, now) == Err::<
            ProfileView,
            DecodeError,
        >(DecodeError::BadSignature),
{
    lemma_decode_signed(c, key, forged, now);
}

/// `token` has the frame of a token: the header, `.`, a segment, `.`, a
/// segment, where neither segment holds a `.`.
pub open spec fn is_framed(token: Seq<char>) -> bool {
    exists|x: Seq<char>, y: Seq<char>|
        lacks(x, '.') && lacks(y, '.') && token == #[trigger] (signing_input(x) + seq!['.'] + y)
}

/// Text without the frame of a token is refused as malformed.
pub proof fn lemma_unframed_is_malformed(token: Seq<char>, key: Seq<u8>, now: i64)
    requires
        !is_framed(token),
    ensures
        decode_spec(token, key, now) == Err::<ProfileView, DecodeError>(DecodeError::Malformed),
{
    lemma_find_bound(token, '.');
    if let Some((h, rest)) = cut(token, '.') {
        lemma_find_bound(rest, '.');
        if let Some((p, s)) = cut(rest, '.') {
            assert(token == h + seq!['.'] + rest);
            assert(rest == p + seq!['.'] + s);
            if h == header_text() && lacks(s, '.') {
                assert(token == signing_input(p) + seq!['.'] + s);
                assert(is_framed(token));
            }
        }
    }
}

// ---- the shape of a token ----

/// A character that URLs carry as it is: ASCII letters, digits, `-`, `_`, `~`.
pub open spec fn url_safe(c: char) -> bool {
    is_plain(c) || c == '-' || c == '_' || c == '~'
}

/// A non-empty run of URL-safe characters.
pub open spec fn segment(s: Seq<char>) -> bool {
    &&& s.len() > 0
    &&& forall|i: int| 0 <= i < s.len() ==> url_safe(#[trigger] s[i])
}

/// Exactly three non-empty URL-safe segments, separated by `.`.
pub open spec fn three_segments(t: Seq<char>) -> bool {
    match cut(t, '.') {
        Some((h, rest)) => match cut(rest, '.') {
            Some((p, s)) => segment(h) && segment(p) && segment(s),
            None => false,
        },
        None => false,
    }
}

proof fn lemma_segment_lacks_dot(s: Seq<char>)
    requires
        segment(s),
    ensures
        lacks(s, '.'),
{
    assert forall|j: int| 0 <= j < s.len() implies s[j] != '.' by {
        assert(url_safe(s[j]));
    }
}

proof fn lemma_list_text_url_safe(v: Seq<Seq<char>>)
    ensures
        forall|j: int| 0 <= j < list_text(v).len() ==> url_safe(#[trigger] list_text(v)[j]),
    decreases v.len(),
{
    if v.len() > 0 {
        lemma_list_text_url_safe(v.drop_first());
        crate::text::lemma_escape_chars(v[0]);
        let e = escape(v[0]);
        let rest = list_text(v.drop_first());
        let t = list_text(v);
        assert forall|j: int| 0 <= j < t.len() implies url_safe(#[trigger] t[j]) by {
            if j < e.len() {
                assert(t[j] == e[j]);
                assert(escaped_char(e[j]));
            } else if j > e.len() {
                assert(t[j] == rest[j - e.len() - 1]);
            }
        }
    }
}

proof fn lemma_join_fields_url_safe(fs: Seq<Seq<char>>)
    requires
        forall|i: int, j: int| 0 <= i < fs.len() && 0 <= j < fs[i].len() ==> url_safe(#[trigger] fs[i][j]),
    ensures
        forall|j: int| 0 <= j < join_fields(fs).len() ==> url_safe(#[trigger] join_fields(fs)[j]),
    decreases fs.len(),
{
    if fs.len() > 1 {
        let tail = fs.drop_first();
        assert forall|i: int, j: int| 0 <= i < tail.len() && 0 <= j < tail[i].len() implies url_safe(#[trigger] tail[i][j]) by {
            assert(tail[i] == fs[i + 1]);
        }
        lemma_join_fields_url_safe(tail);
        let a = fs[0];
        let b = join_fields(tail);
        let t = join_fields(fs);
        assert forall|j: int| 0 <= j < t.len() implies url_safe(#[trigger] t[j]) by {
            if j < a.len() {
                assert(t[j] == a[j]);
                assert(url_safe(fs[0][j]));
            } else if j > a.len() {
                assert(t[j] == b[j - a.len() - 1]);
            }
        }
    } else if fs.len() == 1 {
        assert forall|j: int| 0 <= j < join_fields(fs).len() implies url_safe(#[trigger] join_fields(fs)[j]) by {
            assert(url_safe(fs[0][j]));
        }
    }
}

proof fn lemma_claims_segment(c: ClaimsView)
    ensures
        segment(claims_text(c)),
{
    let fs = claims_fields(c);
    let p = c.profile;
    lemma_hex_fixed_chars(c.exp as u64 as nat, 16);
    lemma_hex_fixed_chars(p.create_at as u64 as nat, 16);
    crate::text::lemma_escape_chars(p.id);
    crate::text::lemma_escape_chars(p.base.name);
    crate::text::lemma_escape_chars(p.base.phone);
    lemma_list_text_url_safe(p.base.roles);
    lemma_list_text_url_safe(p.base.permissions);
    lemma_pow16_sixteen();
    lemma_hex_round_trip(c.exp as u64 as nat, 16);
    assert forall|i: int, j: int| 0 <= i < fs.len() && 0 <= j < fs[i].len() implies url_safe(#[trigger] fs[i][j]) by {
        if i == 0 || i == 1 {
            assert(is_plain(fs[i][j]));
        } else if 2 <= i <= 4 {
            assert(escaped_char(fs[i][j]));
        }
    }
    lemma_join_fields_url_safe(fs);
    assert(fs.len() > 1 && fs[0].len() == 16);
    assert(claims_text(c).len() >= 16);
}

/// Every token this module makes has three non-empty URL-safe segments.
proof fn lemma_token_shape(c: ClaimsView, key: Seq<u8>)
    requires
        well_signed(c, key),
    ensures
        three_segments(token_text(c, key)),
{
    let p = claims_text(c);
    let sig = hs256_signature(key, signing_input(p));
    lemma_claims_segment(c);
    lemma_segment_lacks_dot(p);
    lemma_header_lacks_dot();
    reveal_strlit("eyJhbGciOiJIUzI1NiJ9");
    assert(segment(header_text()));
    assert forall|i: int| 0 <= i < sig.len() implies url_safe(#[trigger] sig[i]) by {
        assert(b64url_char(sig[i]));
    }
    assert(token_text(c, key) == header_text() + seq!['.'] + (p + seq!['.'] + sig));
    lemma_cut_concat(header_text(), p + seq!['.'] + sig, '.');
    lemma_cut_concat(p, sig, '.');
}

// ---- encoding ----

fn push_i64(out: &mut String, x: i64)
    ensures
        final(out)@ == old(out)@ + i64_text(x),
{
    push_hex(out, x as u64, 16);
}

proof fn lemma_list_text_push(w: Seq<Seq<char>>, x: Seq<char>)
    ensures
        list_text(w.push(x)) == list_text(w) + escape(x) + seq!['-'],
    decreases w.len(),
{
    if w.len() == 0 {
        assert(w.push(x).drop_first() == Seq::<Seq<char>>::empty());
        assert(list_text(Seq::<Seq<char>>::empty()) == Seq::<char>::empty());
        assert(w.push(x)[0] == x);
        assert(list_text(w.push(x)) =~= escape(x) + seq!['-']);
        assert(list_text(w) + escape(x) + seq!['-'] =~= escape(x) + seq!['-']);
    } else {
        assert(w.push(x).drop_first() == w.drop_first().push(x));
        lemma_list_text_push(w.drop_first(), x);
        assert(w.push(x)[0] == w[0]);
        assert(list_text(w.push(x)) =~= list_text(w) + escape(x) + seq!['-']);
    }
}

fn push_list(out: &mut String, v: &Vec<String>)
    ensures
        final(out)@ == old(out)@ + list_text(texts(v@)),
{
    let ghost start = out@;
    let mut i: usize = 0;
    assert(texts(v@).take(0) == Seq::<Seq<char>>::empty());
    while i < v.len()
        invariant
            0 <= i <= v@.len(),
            out@ == start + list_text(texts(v@).take(i as int)),
        decreases v@.len() - i,
    {
        push_escaped(out, v[i].as_str());
        out.push('-');
        proof {
            assert(texts(v@).take(i as int + 1) == texts(v@).take(i as int).push(v@[i as int]@));
            lemma_list_text_push(texts(v@).take(i as int), v@[i as int]@);
        }
        i += 1;
    }
    assert(texts(v@).take(i as int) == texts(v@));
}

proof fn lemma_join_cons(a: Seq<char>, rest: Seq<Seq<char>>)
    requires
        rest.len() >= 1,
    ensures
        join_fields(seq![a] + rest) == a + seq!['_'] + join_fields(rest),
{
    assert((seq![a] + rest).drop_first() == rest);
}

/// Writes the claims segment of `c`.
fn push_claims(out: &mut String, c: &UserProfileEx)
    ensures
        final(out)@ == old(out)@ + claims_text(c@),
{
    let ghost start = out@;
    let p = &c.profile;
    push_i64(out, c.exp);
    out.push('_');
    push_i64(out, p.create_at);
    out.push('_');
    push_escaped(out, p._id.as_str());
    out.push('_');
    push_escaped(out, p.user_base.name.as_str());
    out.push('_');
    push_escaped(out, p.user_base.phone.as_str());
    out.push('_');
    push_list(out, &p.user_base.roles);
    out.push('_');
    push_list(out, &p.user_base.permissions);
    proof {
        let fs = claims_fields(c@);
        let f = |k: int| fs.subrange(k, 7);
        assert(f(6) == seq![fs[6]]);
        assert(join_fields(f(6)) == fs[6]);
        assert(f(5) == seq![fs[5]] + f(6));
        lemma_join_cons(fs[5], f(6));
        assert(f(4) == seq![fs[4]] + f(5));
        lemma_join_cons(fs[4], f(5));
        assert(f(3) == seq![fs[3]] + f(4));
        lemma_join_cons(fs[3], f(4));
        assert(f(2) == seq![fs[2]] + f(3));
        lemma_join_cons(fs[2], f(3));
        assert(f(1) == seq![fs[1]] + f(2));
        lemma_join_cons(fs[1], f(2));
        assert(fs == seq![fs[0]] + f(1));
        lemma_join_cons(fs[0], f(1));
        assert(out@ =~= start + claims_text(c@));
    }
}

/// The token that carries `profile`, made at `now`, lasting `expire_in`
/// seconds, signed with `key`.
pub fn encode_at(profile: &UserProfile, now: i64, expire_in: i64, key: &SigningKey) -> (r: Result<
    String,
    EncodeError,
>)
    ensures
        r is Ok,
        r matches Ok(t) ==> t@ == token_text(
            (ClaimsView { profile: profile@, exp: expiry(now, expire_in) }),
            key@,
        ),
        r matches Ok(t) ==> three_segments(t@),
        well_signed((ClaimsView { profile: profile@, exp: expiry(now, expire_in) }), key@),
{
    let claims = UserProfileEx::from_profile_at(profile.clone(), now, expire_in);
    let mut msg = String::new();
    push_str(&mut msg, TOKEN_HEADER);
    msg.push('.');
    push_claims(&mut msg, &claims);
    let sig = match hs256_sign(key.secret(), msg.as_str()) {
        Ok(s) => s,
        Err(_) => {
            return Err(EncodeError::Signing);
        },
    };
    assert(msg@ =~= signing_input(claims_text(claims@)));
    let mut token = msg;
    token.push('.');
    push_str(&mut token, sig.as_str());
    assert(token@ =~= token_text(claims@, key@));
    proof {
        lemma_token_shape(claims@, key@);
    }
    Ok(token)
}

/// A token for `user_profile`, made now with the service key, lasting
/// `expire_in` seconds.
pub fn generate_token(user_profile: &UserProfile, expire_in: i64) -> (r: Result<String, EncodeError>)
    ensures
        r is Ok,
        r matches Ok(t) ==> three_segments(t@),
        r matches Ok(t) ==> exists|now: i64|
            t@ == token_text(
                (ClaimsView { profile: user_profile@, exp: #[trigger] expiry(now, expire_in) }),
                service_secret(),
            ),
{
    let key = SigningKey::service();
    let now = now_seconds();
    let r = encode_at(user_profile, now, expire_in, &key);
    proof {
        let c = ClaimsView { profile: user_profile@, exp: expiry(now, expire_in) };
        assert(r->Ok_0@ == token_text(c, service_secret()));
    }
    r
}

// ---- decoding ----

fn read_i64(t: &[char]) -> (r: Option<i64>)
    ensures
        r == i64_of(t@),
{
    if t.len() != 16 {
        return None;
    }
    match read_hex(t) {
        Some(v) => Some(v as i64),
        None => None,
    }
}

fn read_list(t: &[char]) -> (r: Option<Vec<String>>)
    ensures
        r is Some <==> list_of(t@) is Some,
        r matches Some(v) ==> list_of(t@) == Some(texts(v@)),
{
    let mut items: Vec<String> = Vec::new();
    let mut rest: &[char] = t;
    proof {
        if let Some(xs) = list_of(t@) {
            assert(texts(items@) + xs == xs);
        }
    }
    while rest.len() > 0
        invariant
            list_of(t@) == (match list_of(rest@) {
                Some(xs) => Some(texts(items@) + xs),
                None => None,
            }),
        decreases rest@.len(),
    {
        let (a, b) = match cut_at(rest, '-') {
            Some(x) => x,
            None => {
                return None;
            },
        };
        let x = match read_escaped(a) {
            Some(x) => x,
            None => {
                return None;
            },
        };
        proof {
            if let Some(xs) = list_of(b@) {
                assert(texts(items@.push(x)) == texts(items@).push(x@));
                assert(texts(items@) + (seq![x@] + xs) == texts(items@).push(x@) + xs);
            }
        }
        items.push(x);
        rest = b;
    }
    assert(texts(items@) + Seq::<Seq<char>>::empty() == texts(items@));
    Some(items)
}

pub open spec fn slice_views(v: Seq<&[char]>) -> Seq<Seq<char>> {
    v.map_values(|s: &[char]| s@)
}

fn split_fields<'a>(t: &'a [char], n: usize) -> (r: Option<Vec<&'a [char]>>)
    ensures
        r matches Some(v) ==> fields(t@, n as nat) == Some(slice_views(v@)) && v@.len() == n + 1,
        r is None ==> fields(t@, n as nat) is None,
{
    let mut out: Vec<&'a [char]> = Vec::new();
    let mut rest: &'a [char] = t;
    let mut k: usize = 0;
    proof {
        if let Some(fs) = fields(t@, n as nat) {
            assert(slice_views(out@) + fs == fs);
        }
    }
    while k < n
        invariant
            0 <= k <= n,
            out@.len() == k,
            fields(t@, n as nat) == (match fields(rest@, (n - k) as nat) {
                Some(fs) => Some(slice_views(out@) + fs),
                None => None,
            }),
        decreases n - k,
    {
        let (a, b) = match cut_at(rest, '_') {
            Some(x) => x,
            None => {
                return None;
            },
        };
        proof {
            if let Some(fs) = fields(b@, (n - k - 1) as nat) {
                assert(slice_views(out@.push(a)) == slice_views(out@).push(a@));
                assert(slice_views(out@) + (seq![a@] + fs) == slice_views(out@).push(a@) + fs);
            }
        }
        out.push(a);
        rest = b;
        k += 1;
    }
    proof {
        assert(slice_views(out@.push(rest)) == slice_views(out@) + seq![rest@]);
    }
    out.push(rest);
    Some(out)
}

/// The claims that a claims segment stands for.
fn parse_claims(t: &[char]) -> (r: Option<UserProfileEx>)
    ensures
        r matches Some(c) ==> claims_of(t@) == Some(c@),
        r is None ==> claims_of(t@) is None,
{
    let f = match split_fields(t, 6) {
        Some(f) => f,
        None => {
            return None;
        },
    };
    let ghost fv = slice_views(f@);
    assert(fv[0] == f@[0]@ && fv[1] == f@[1]@ && fv[2] == f@[2]@ && fv[3] == f@[3]@);
    assert(fv[4] == f@[4]@ && fv[5] == f@[5]@ && fv[6] == f@[6]@);
    let exp = match read_i64(f[0]) {
        Some(x) => x,
        None => {
            return None;
        },
    };
    let at = match read_i64(f[1]) {
        Some(x) => x,
        None => {
            return None;
        },
    };
    let id = match read_escaped(f[2]) {
        Some(x) => x,
        None => {
            return None;
        },
    };
    let name = match read_escaped(f[3]) {
        Some(x) => x,
        None => {
            return None;
        },
    };
    let phone = match read_escaped(f[4]) {
        Some(x) => x,
        None => {
            return None;
        },
    };
    let roles = match read_list(f[5]) {
        Some(x) => x,
        None => {
            return None;
        },
    };
    let permissions = match read_list(f[6]) {
        Some(x) => x,
        None => {
            return None;
        },
    };
    Some(
        UserProfileEx {
            profile: UserProfile {
                _id: id,
                create_at: at,
                user_base: UserBase { name, phone, roles, permissions },
            },
            exp,
        },
    )
}

/// The profile that `token` carries, checked with `key` at time `now`.
pub fn decode_at(token: &str, key: &SigningKey, now: i64) -> (r: Result<UserProfile, DecodeError>)
    ensures
        profile_outcome(r) == decode_spec(token@, key@, now),
{
    let cs = chars_of(token);
    let t = cs.as_slice();
    let (h, rest) = match cut_at(t, '.') {
        Some(x) => x,
        None => {
            return Err(DecodeError::Malformed);
        },
    };
    let (p, s) = match cut_at(rest, '.') {
        Some(x) => x,
        None => {
            return Err(DecodeError::Malformed);
        },
    };
    let header = chars_of(TOKEN_HEADER);
    if !same_chars(h, header.as_slice()) {
        return Err(DecodeError::Malformed);
    }
    match cut_at(s, '.') {
        Some((a, _)) => {
            assert(s@[a@.len() as int] == '.');
            return Err(DecodeError::Malformed);
        },
        None => {
            proof {
                lemma_find_bound(s@, '.');
            }
        },
    }
    assert(t@ == h@ + seq!['.'] + (p@ + seq!['.'] + s@));
    assert(t@.len() == h@.len() + 1 + p@.len() + 1 + s@.len());
    let msg_len = t.len() - s.len() - 1;
    let msg = string_of(slice_subrange(t, 0, msg_len));
    assert(msg@ == signing_input(p@)) by {
        assert(t@ == h@ + seq!['.'] + (p@ + seq!['.'] + s@));
        assert(t@.subrange(0, msg_len as int) == h@ + seq!['.'] + p@);
    }
    let sig = string_of(s);
    match hs256_verify(sig.as_str(), key.secret(), msg.as_str()) {
        Ok(true) => {},
        _ => {
            return Err(DecodeError::BadSignature);
        },
    }
    let claims = match parse_claims(p) {
        Some(c) => c,
        None => {
            return Err(DecodeError::Malformed);
        },
    };
    if now < claims.exp {
        Ok(claims.profile)
    } else {
        Err(DecodeError::Expired)
    }
}

/// The profile that `token` carries, checked now with the service key.
pub fn verify_token(token: &str) -> (r: Result<UserProfile, DecodeError>)
    ensures
        exists|now: i64| profile_outcome(r) == #[trigger] decode_spec(token@, service_secret(), now),
{
    let key = SigningKey::service();
    let now = now_seconds();
    decode_at(token, &key, now)
}

} // verus!

use cf::token::{
    decode_at, encode_at, generate_token, verify_token, DecodeError, SigningKey, UserProfileEx,
};
use cf::user::{UserBase, UserProfile};

fn profile(id: &str, name: &str, phone: &str, roles: &[&str], permissions: &[&str]) -> UserProfile {
    UserProfile {
        _id: id.to_string(),
        create_at: 1_708_408_069,
        user_base: UserBase {
            name: name.to_string(),
            phone: phone.to_string(),
            roles: roles.iter().map(|s| s.to_string()).collect(),
            permissions: permissions.iter().map(|s| s.to_string()).collect(),
        },
    }
}

fn same_profile(a: &UserProfile, b: &UserProfile) -> bool {
    a._id == b._id
        && a.create_at == b.create_at
        && a.user_base.name == b.user_base.name
        && a.user_base.phone == b.user_base.phone
        && a.user_base.roles == b.user_base.roles
        && a.user_base.permissions == b.user_base.permissions
}

fn key() -> SigningKey {
    SigningKey::from_secret(b"a shared secret")
}

#[test]
fn token_test() {
    let user = UserBase {
        name: "User1".to_string(),
        phone: "12123".to_string(),
        roles: vec!["admin".to_string(), "super".to_string()],
        permissions: vec!["read".to_string(), "write".to_string()],
    };
    let user_profile = UserProfile {
        _id: "122333".to_string(),
        create_at: chrono::Utc::now().timestamp(),
        user_base: user,
    };

    let token = generate_token(&user_profile, 3600).unwrap();
    println!("token: {}", token);

    let header = jsonwebtoken::decode_header(&token).unwrap();
    println!("header: {:?}", header);

    let user = verify_token(&token).unwrap();
    assert_eq!(user._id, user_profile._id);

    let token2 = generate_token(&user_profile, -100).unwrap();
    println!("token: {}", token);

    if let Err(e) = verify_token(&token2) {
        println!("error:{:?}", e);
        match e {
            DecodeError::Expired => println!("expire"),
            _ => println!("others"),
        }
    } else {
        panic!("an expired token was accepted");
    }

    if let Err(e) = verify_token("123") {
        println!("error:{:?}", e);
        assert_eq!(e, DecodeError::Malformed);
        match e {
            DecodeError::Malformed => println!("invalid"),
            _ => println!("others"),
        }
    } else {
        panic!("a malformed token was accepted");
    }
}

#[test]
fn round_trip_keeps_every_field() {
    let p = profile(
        "65d4a1f2c3b4e5f6a7b8c9d0",
        "Zoë O'Brien-Smith_jr. ~ 東京",
        "+86 138-0000-0000",
        &["admin", "", "super.user"],
        &[],
    );
    let made = 1_700_000_000;
    let token = encode_at(&p, made, 3600, &key()).unwrap();
    let back = decode_at(&token, &key(), made + 3599).unwrap();
    assert!(same_profile(&back, &p));
    let back = decode_at(&token, &key(), made).unwrap();
    assert!(same_profile(&back, &p));
}

#[test]
fn round_trip_negative_creation_time() {
    let mut p = profile("1", "a", "b", &["r"], &["w", "x"]);
    p.create_at = -42;
    let token = encode_at(&p, 0, 10, &key()).unwrap();
    let back = decode_at(&token, &key(), 5).unwrap();
    assert!(same_profile(&back, &p));
}

#[test]
fn token_is_url_safe_and_three_segments() {
    let p = profile("1", "Zoë ~ x", "+1", &["a b"], &["c/d"]);
    let token = encode_at(&p, 100, 10, &key()).unwrap();
    assert_eq!(token.split('.').count(), 3);
    assert!(token
        .chars()
        .all(|c| c.is_ascii_alphanumeric() || c == '-' || c == '_' || c == '.' || c == '~'));
    assert!(token.starts_with("eyJhbGciOiJIUzI1NiJ9."));
}

#[test]
fn expires_at_the_expiry_instant() {
    let p = profile("1", "a", "b", &[], &[]);
    let token = encode_at(&p, 1000, 10, &key()).unwrap();
    assert!(decode_at(&token, &key(), 1009).is_ok());
    assert_eq!(decode_at(&token, &key(), 1010).unwrap_err(), DecodeError::Expired);
    assert_eq!(decode_at(&token, &key(), 5000).unwrap_err(), DecodeError::Expired);
}

#[test]
fn negative_lifetime_is_expired_at_once() {
    let p = profile("1", "a", "b", &[], &[]);
    let token = encode_at(&p, 1000, -100, &key()).unwrap();
    assert_eq!(decode_at(&token, &key(), 1000).unwrap_err(), DecodeError::Expired);
}

#[test]
fn lifetime_saturates_at_the_end_of_time() {
    let p = profile("1", "a", "b", &[], &[]);
    let token = encode_at(&p, i64::MAX - 5, 100, &key()).unwrap();
    assert!(decode_at(&token, &key(), i64::MAX - 1).is_ok());
    assert_eq!(decode_at(&token, &key(), i64::MAX).unwrap_err(), DecodeError::Expired);
}

#[test]
fn any_change_to_the_signature_is_caught() {
    let p = profile("7", "alice", "1", &["admin"], &["read"]);
    let token = encode_at(&p, 1000, 3600, &key()).unwrap();
    let sig_start = token.rfind('.').unwrap() + 1;
    let bytes = token.as_bytes();
    for i in sig_start..bytes.len() {
        let mut forged = bytes.to_vec();
        forged[i] = if forged[i] == b'A' { b'B' } else { b'A' };
        let forged = String::from_utf8(forged).unwrap();
        assert_eq!(decode_at(&forged, &key(), 1001).unwrap_err(), DecodeError::BadSignature);
    }
    let mut dotted = token.clone();
    dotted.push('.');
    assert_eq!(decode_at(&dotted, &key(), 1001).unwrap_err(), DecodeError::Malformed);
    let cut_short = &token[..token.len() - 1];
    assert_eq!(decode_at(cut_short, &key(), 1001).unwrap_err(), DecodeError::BadSignature);
}

#[test]
fn another_key_is_refused() {
    let p = profile("7", "alice", "1", &[], &[]);
    let token = encode_at(&p, 1000, 3600, &key()).unwrap();
    let other = SigningKey::from_secret(b"another secret");
    assert_eq!(decode_at(&token, &other, 1001).unwrap_err(), DecodeError::BadSignature);
}

#[test]
fn signature_is_the_hmac_of_header_and_claims() {
    let p = profile("7", "alice", "1", &[], &[]);
    let token = encode_at(&p, 1000, 3600, &key()).unwrap();
    let dot = token.rfind('.').unwrap();
    let expected = jsonwebtoken::crypto::sign(
        token[..dot].as_bytes(),
        &jsonwebtoken::EncodingKey::from_secret(b"a shared secret"),
        jsonwebtoken::Algorithm::HS256,
    )
    .unwrap();
    assert_eq!(&token[dot + 1..], expected);
    assert_eq!(expected.len(), 43);
}

#[test]
fn non_tokens_are_malformed() {
    for t in [
        "123",
        "",
        ".",
        "a.b",
        "a.b.c.d",
        "eyJhbGciOiJIUzI1NiJ9.abc",
        "x.y.z",
        "eyJhbGciOiJIUzI1NiJ9.a.b.c",
    ] {
        assert_eq!(decode_at(t, &key(), 0).unwrap_err(), DecodeError::Malformed, "{}", t);
    }
}

#[test]
fn signed_garbage_claims_are_malformed() {
    let msg = "eyJhbGciOiJIUzI1NiJ9.not_claims";
    let sig = jsonwebtoken::crypto::sign(
        msg.as_bytes(),
        &jsonwebtoken::EncodingKey::from_secret(b"a shared secret"),
        jsonwebtoken::Algorithm::HS256,
    )
    .unwrap();
    let token = format!("{}.{}", msg, sig);
    assert_eq!(decode_at(&token, &key(), 0).unwrap_err(), DecodeError::Malformed);
}

#[test]
fn claims_keep_profile_and_expiry() {
    let p = profile("9", "bob", "2", &["x"], &[]);
    let c = UserProfileEx::from_profile_at(p, 50, 25);
    assert_eq!(c.exp, 75);
    assert_eq!(c.to_profile()._id, "9");
    let c = UserProfileEx::from_profile(profile("9", "bob", "2", &[], &[]), 60);
    let now = chrono::Utc::now().timestamp();
    assert!(c.exp > now && c.exp <= now + 60);
}

#[test]
fn fourth_segment_is_malformed_even_after_a_genuine_signature() {
    let p = profile("7", "alice", "1", &[], &[]);
    let token = encode_at(&p, 1000, 3600, &key()).unwrap();
    let longer = format!("{}.extra", token);
    assert_eq!(decode_at(&longer, &key(), 1001).unwrap_err(), DecodeError::Malformed);
}

#[test]
fn generated_token_has_three_url_safe_segments() {
    let p = profile("7", "Zoë", "1", &["a"], &[]);
    let token = generate_token(&p, 60).unwrap();
    let parts: Vec<&str> = token.split('.').collect();
    assert_eq!(parts.len(), 3);
    for part in &parts {
        assert!(!part.is_empty());
        assert!(part.chars().all(|c| c.is_ascii_alphanumeric() || c == '-' || c == '_' || c == '~'));
    }
    assert_eq!(parts[2].len(), 43);
}

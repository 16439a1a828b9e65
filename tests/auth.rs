use cf::auth::{authenticate, authenticate_at, AuthError, Authentication};
use cf::token::{decode_at, verify_token, DecodeError, SigningKey, LOGIN_TTL};
use cf::user::{UserBase, UserInDB};
use cf::utils::encrypt;

fn alice(secret: &str) -> UserInDB {
    UserInDB {
        _id: Some("65d4a1f2c3b4e5f6a7b8c9d0".to_string()),
        password: encrypt(secret).unwrap(),
        create_at: 1_708_408_069,
        user_base: UserBase {
            name: "alice".to_string(),
            phone: "555".to_string(),
            roles: vec!["admin".to_string()],
            permissions: vec!["read".to_string(), "write".to_string()],
        },
    }
}

fn login(name: &str, secret: &str) -> Authentication {
    Authentication { name: name.to_string(), password: secret.to_string() }
}

#[test]
fn login_then_decode_until_four_hours() {
    let key = SigningKey::from_secret(b"k");
    let t0 = 1_710_000_000;
    let resp = authenticate_at(Some(alice("hunter2")), &login("alice", "hunter2"), &key, t0).unwrap();
    assert_eq!(resp.profile.user_base.name, "alice");
    assert_eq!(resp.profile._id, "65d4a1f2c3b4e5f6a7b8c9d0");
    assert_eq!(LOGIN_TTL, 14400);
    let p = decode_at(&resp.token, &key, t0 + 14399).unwrap();
    assert_eq!(p.user_base.name, "alice");
    assert_eq!(p._id, "65d4a1f2c3b4e5f6a7b8c9d0");
    assert_eq!(p.user_base.permissions, vec!["read".to_string(), "write".to_string()]);
    assert_eq!(decode_at(&resp.token, &key, t0 + 14400).unwrap_err(), DecodeError::Expired);
}

#[test]
fn login_with_the_service_key() {
    let resp = authenticate(Some(alice("hunter2")), &login("alice", "hunter2")).unwrap();
    let p = verify_token(&resp.token).unwrap();
    assert_eq!(p.user_base.name, "alice");
}

#[test]
fn wrong_secret_is_bad_secret() {
    let key = SigningKey::from_secret(b"k");
    let r = authenticate_at(Some(alice("hunter2")), &login("alice", "hunter3"), &key, 0);
    assert_eq!(r.unwrap_err(), AuthError::BadSecret);
}

#[test]
fn unknown_name_is_unknown_principal() {
    let key = SigningKey::from_secret(b"k");
    let r = authenticate_at(None, &login("mallory", "x"), &key, 0);
    assert_eq!(r.unwrap_err(), AuthError::UnknownPrincipal);
}

#[test]
fn unreadable_stored_hash_is_internal() {
    let key = SigningKey::from_secret(b"k");
    let mut rec = alice("hunter2");
    rec.password = "plain text".to_string();
    let r = authenticate_at(Some(rec), &login("alice", "hunter2"), &key, 0);
    assert_eq!(r.unwrap_err(), AuthError::Internal);
}

#[test]
fn record_without_object_id_gets_an_empty_id() {
    let key = SigningKey::from_secret(b"k");
    let mut rec = alice("pw");
    rec._id = None;
    let resp = authenticate_at(Some(rec), &login("alice", "pw"), &key, 0).unwrap();
    assert_eq!(resp.profile._id, "");
}

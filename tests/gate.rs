use cf::token::{encode_at, generate_token, DecodeError, SigningKey};
use cf::user::{UserBase, UserProfile};
use cf::{permission_check, permission_check_at, AuditRecord, GateError};

fn bob() -> UserProfile {
    UserProfile {
        _id: "42".to_string(),
        create_at: 0,
        user_base: UserBase {
            name: "bob".to_string(),
            phone: "1".to_string(),
            roles: vec![],
            permissions: vec![],
        },
    }
}

#[test]
fn missing_token_is_refused_without_audit() {
    let key = SigningKey::from_secret(b"k");
    let mut audit: Vec<AuditRecord> = Vec::new();
    let r = permission_check_at(None, "delete_user", "bob", &key, 10, &mut audit);
    assert_eq!(r.unwrap_err(), GateError::MissingCredential);
    assert!(audit.is_empty());
    let r = permission_check(None, "delete_user", "bob", &mut audit);
    assert_eq!(r.unwrap_err(), GateError::MissingCredential);
    assert!(audit.is_empty());
}

#[test]
fn valid_token_passes_with_one_audit_record() {
    let key = SigningKey::from_secret(b"k");
    let token = encode_at(&bob(), 100, 60, &key).unwrap();
    let mut audit: Vec<AuditRecord> = Vec::new();
    let p = permission_check_at(Some(&token), "op", "arg", &key, 120, &mut audit).unwrap();
    assert_eq!(p._id, "42");
    assert_eq!(audit.len(), 1);
    assert_eq!(audit[0].principal, "bob");
    assert_eq!(audit[0].operation, "op");
    assert_eq!(audit[0].argument, "arg");
    assert_eq!(audit[0].at, 120);
}

#[test]
fn refusals_keep_their_reason() {
    let key = SigningKey::from_secret(b"k");
    let token = encode_at(&bob(), 100, 60, &key).unwrap();
    let mut audit: Vec<AuditRecord> = Vec::new();
    let r = permission_check_at(Some(&token), "op", "", &key, 160, &mut audit);
    assert_eq!(r.unwrap_err(), GateError::InvalidToken(DecodeError::Expired));
    let r = permission_check_at(Some("123"), "op", "", &key, 120, &mut audit);
    assert_eq!(r.unwrap_err(), GateError::InvalidToken(DecodeError::Malformed));
    let other = SigningKey::from_secret(b"other");
    let r = permission_check_at(Some(&token), "op", "", &other, 120, &mut audit);
    assert_eq!(r.unwrap_err(), GateError::InvalidToken(DecodeError::BadSignature));
    assert!(audit.is_empty());
}

#[test]
fn service_gate_accepts_service_tokens() {
    let token = generate_token(&bob(), 600).unwrap();
    let mut audit: Vec<AuditRecord> = Vec::new();
    let p = permission_check(Some(&token), "find_user_by_id", "42", &mut audit).unwrap();
    assert_eq!(p.user_base.name, "bob");
    assert_eq!(audit.len(), 1);
    assert_eq!(audit[0].operation, "find_user_by_id");
}

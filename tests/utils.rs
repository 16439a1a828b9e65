use cf::utils::{encrypt, valid, HashingError};

#[test]
fn test_crypt() {
    let hashed = encrypt("hunter2").unwrap();
    println!("hashed :{}", hashed);
    let valid = valid("hunter2", &hashed).unwrap();
    assert!(valid);
}

#[test]
fn hash_is_not_the_secret_and_is_salted() {
    let a = encrypt("hunter2").unwrap();
    let b = encrypt("hunter2").unwrap();
    assert_ne!(a, "hunter2");
    assert!(a.starts_with("$2b$12$"));
    assert_eq!(a.len(), 60);
    assert_ne!(a, b);
    assert!(valid("hunter2", &b).unwrap());
}

#[test]
fn other_secret_is_rejected() {
    let hashed = encrypt("hunter2").unwrap();
    assert_eq!(valid("hunter3", &hashed), Ok(false));
    assert_eq!(valid("", &hashed), Ok(false));
}

#[test]
fn empty_secret_hashes() {
    let hashed = encrypt("").unwrap();
    assert_eq!(valid("", &hashed), Ok(true));
    assert_eq!(valid("x", &hashed), Ok(false));
}

#[test]
fn malformed_hash_is_an_error() {
    assert_eq!(valid("hunter2", "not a hash"), Err(HashingError));
}

use iron_coder::parse::{ParseError, ParseMode};
use iron_coder::store::{encode_record, register_line, CredentialStore, RegisterError};

#[test]
fn register_then_verify_unique() {
    let mut s = CredentialStore::new();
    assert_eq!(s.register(b"alice".to_vec(), b"pw1".to_vec()), Ok(()));
    assert!(s.verify(b"alice", b"pw1"));
}

#[test]
fn duplicate_registration_keeps_first() {
    let mut s = CredentialStore::new();
    assert_eq!(s.register(b"alice".to_vec(), b"pw1".to_vec()), Ok(()));
    assert_eq!(
        s.register(b"alice".to_vec(), b"pw2".to_vec()),
        Err(RegisterError::DuplicateUsername)
    );
    assert_eq!(s.len(), 1);
    assert!(s.verify(b"alice", b"pw1"));
    assert!(!s.verify(b"alice", b"pw2"));
}

#[test]
fn wrong_password_is_false_not_error() {
    let mut s = CredentialStore::new();
    assert_eq!(s.register(b"alice".to_vec(), b"pw1".to_vec()), Ok(()));
    assert!(!s.verify(b"alice", b"nope"));
    assert!(s.username_exists(b"alice"));
}

#[test]
fn empty_store_verifies_nothing() {
    let s = CredentialStore::new();
    assert!(!s.verify(b"alice", b"pw1"));
    assert!(!s.verify(b"", b""));
    assert!(!s.username_exists(b"anyone"));
}

#[test]
fn repeated_exists_does_not_mutate() {
    let mut s = CredentialStore::new();
    assert_eq!(s.register(b"alice".to_vec(), b"pw1".to_vec()), Ok(()));
    let first = s.username_exists(b"alice");
    let second = s.username_exists(b"alice");
    let third = s.username_exists(b"alice");
    assert_eq!(first, second);
    assert_eq!(second, third);
    assert_eq!(s.len(), 1);
    assert!(s.verify(b"alice", b"pw1"));
}

#[test]
fn scenario_duplicate_alice() {
    let mut s = CredentialStore::new();
    assert_eq!(s.register(b"alice".to_vec(), b"pw1".to_vec()), Ok(()));
    assert_eq!(
        s.register(b"alice".to_vec(), b"pw2".to_vec()),
        Err(RegisterError::DuplicateUsername)
    );
    assert!(s.verify(b"alice", b"pw1"));
    assert!(!s.verify(b"alice", b"pw2"));
}

#[test]
fn scenario_fresh_bob() {
    let mut s = CredentialStore::new();
    assert!(!s.verify(b"bob", b"x"));
    assert_eq!(s.register(b"bob".to_vec(), b"x".to_vec()), Ok(()));
    assert!(s.verify(b"bob", b"x"));
}

#[test]
fn load_then_verify() {
    let content = b"alice pw1\nbob pw2\n";
    let s = CredentialStore::load(content, ParseMode::Permissive).unwrap();
    assert_eq!(s.len(), 2);
    assert!(s.verify(b"alice", b"pw1"));
    assert!(s.verify(b"bob", b"pw2"));
    assert!(!s.verify(b"alice", b"pw2"));
    assert!(!s.verify(b"carol", b"pw1"));
}

#[test]
fn register_line_appends_and_reloads() {
    let mut content: Vec<u8> = Vec::new();
    let line = register_line(&content, b"alice", b"pw1").unwrap();
    assert_eq!(line, b"alice pw1\n".to_vec());
    content.extend_from_slice(&line);

    let line = register_line(&content, b"bob", b"pw2").unwrap();
    content.extend_from_slice(&line);

    assert_eq!(
        register_line(&content, b"alice", b"other"),
        Err(RegisterError::DuplicateUsername)
    );

    let s = CredentialStore::load(&content, ParseMode::Strict).unwrap();
    assert_eq!(s.len(), 2);
    assert!(s.verify(b"alice", b"pw1"));
    assert!(s.verify(b"bob", b"pw2"));
}

#[test]
fn encode_record_exact_bytes() {
    assert_eq!(encode_record(b"u", b"p"), b"u p\n".to_vec());
    assert_eq!(encode_record(b"alice", b"pw1"), b"alice pw1\n".to_vec());
}

#[test]
fn strict_load_rejects_malformed() {
    let content = b"alice pw1\nbob\n";
    assert!(matches!(
        CredentialStore::load(content, ParseMode::Strict),
        Err(ParseError::MalformedRecord)
    ));
    let s = CredentialStore::load(content, ParseMode::Permissive).unwrap();
    assert_eq!(s.len(), 1);
    assert!(s.verify(b"alice", b"pw1"));
    assert!(!s.username_exists(b"bob"));
}

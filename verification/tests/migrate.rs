use rooster::cipher::encrypt_with;
use rooster::codec::{assemble, CodecError, CURRENT_VERSION, LEGACY_VERSION};
use rooster::migrate::{deserialize_legacy, upgrade, MigrationError};
use rooster::payload::serialize;
use rooster::record::Record;
use rooster::safe_string::SafeString;
use rooster::safe_vec::SafeVec;
use rooster::vault::Vault;

fn password(text: &str) -> SafeString {
    SafeString::new(text.to_string())
}

fn record(name: &str, username: &str, secret: &str, at: i64) -> Record {
    Record::new(name.to_string(), username.to_string(), password(secret), at)
}

fn be64(n: u64) -> Vec<u8> {
    (0..8).rev().map(|k| (n >> (8 * k)) as u8).collect()
}

fn text(s: &str) -> Vec<u8> {
    [be64(s.len() as u64), s.as_bytes().to_vec()].concat()
}

fn legacy_plaintext(records: &[(&str, &str, &str)]) -> Vec<u8> {
    let mut out = be64(records.len() as u64);
    for (name, username, secret) in records {
        out.extend(text(name));
        out.extend(text(username));
        out.extend(text(secret));
    }
    out
}

fn container(version: u32, plaintext: Vec<u8>, pw: &str) -> Vec<u8> {
    let body = encrypt_with(&SafeVec::new(plaintext), &password(pw), vec![7u8; 32], vec![8u8; 16]);
    assemble(version, &body)
}

#[test]
fn deserialize_legacy_gives_records_made_now() {
    let bytes = legacy_plaintext(&[("github", "alice", "p4ss"), ("mail", "bob", "")]);
    assert_eq!(
        deserialize_legacy(&bytes, 42),
        Some(vec![record("github", "alice", "p4ss", 42), record("mail", "bob", "", 42)])
    );
    assert_eq!(deserialize_legacy(&be64(0), 1), Some(Vec::new()));
}

#[test]
fn deserialize_legacy_rejects_malformed_input() {
    let bytes = legacy_plaintext(&[("github", "alice", "p4ss")]);
    for keep in 0..bytes.len() {
        assert_eq!(deserialize_legacy(&bytes[..keep], 1), None);
    }
    let mut longer = bytes.clone();
    longer.push(1);
    assert_eq!(deserialize_legacy(&longer, 1), None);
    let current = serialize(&vec![record("github", "alice", "p4ss", 3)]);
    assert_eq!(deserialize_legacy(current.as_slice(), 1), None);
}

#[test]
fn upgrade_brings_older_records_into_the_current_shape() {
    let bytes = container(LEGACY_VERSION, legacy_plaintext(&[("github", "alice", "p4ss"), ("mail", "bob", "pw2")]), "correct-horse");
    assert_eq!(Vault::from_bytes(password("correct-horse"), &bytes).err(), Some(CodecError::OutdatedFormat));
    let vault = upgrade(&bytes, password("correct-horse"), 1_700_000_000).unwrap();
    assert_eq!(
        vault.list(),
        vec![
            record("github", "alice", "p4ss", 1_700_000_000),
            record("mail", "bob", "pw2", 1_700_000_000),
        ]
    );
    assert_eq!(vault.master_password().as_str(), "correct-horse");
    let rewritten = vault.to_bytes().unwrap();
    assert_eq!(&rewritten[..4], &[0, 0, 0, 2]);
    assert_eq!(Vault::from_bytes(password("correct-horse"), &rewritten).unwrap().list(), vault.list());
}

#[test]
fn upgrade_with_wrong_password_is_wrong_password() {
    let bytes = container(LEGACY_VERSION, legacy_plaintext(&[("github", "alice", "p4ss")]), "correct-horse");
    assert_eq!(upgrade(&bytes, password("wrong-horse"), 1).err(), Some(MigrationError::WrongPassword));
}

#[test]
fn upgrade_of_other_formats_is_unsupported() {
    let plaintext = legacy_plaintext(&[("github", "alice", "p4ss")]);
    let current = container(CURRENT_VERSION, plaintext.clone(), "pw");
    assert_eq!(upgrade(&current, password("pw"), 1).err(), Some(MigrationError::UnsupportedVersion));
    let newer = container(3, plaintext.clone(), "pw");
    assert_eq!(upgrade(&newer, password("pw"), 1).err(), Some(MigrationError::UnsupportedVersion));
    let legacy = container(LEGACY_VERSION, plaintext, "pw");
    assert_eq!(upgrade(&legacy[..115], password("pw"), 1).err(), Some(MigrationError::UnsupportedVersion));
    assert_eq!(upgrade(&[], password("pw"), 1).err(), Some(MigrationError::UnsupportedVersion));
}

#[test]
fn upgrade_of_malformed_content_is_unsupported() {
    let garbage = container(LEGACY_VERSION, b"garbage".to_vec(), "pw");
    assert_eq!(upgrade(&garbage, password("pw"), 1).err(), Some(MigrationError::UnsupportedVersion));
    let twice = container(LEGACY_VERSION, legacy_plaintext(&[("a", "x", "1"), ("a", "y", "2")]), "pw");
    assert_eq!(upgrade(&twice, password("pw"), 1).err(), Some(MigrationError::UnsupportedVersion));
}

use rooster::payload::{deserialize, serialize};
use rooster::record::Record;
use rooster::safe_string::SafeString;

fn record(name: &str, username: &str, password: &str, created_at: i64, updated_at: i64) -> Record {
    Record {
        name: name.to_string(),
        username: username.to_string(),
        password: SafeString::new(password.to_string()),
        created_at,
        updated_at,
    }
}

fn be64(n: u64) -> Vec<u8> {
    (0..8).rev().map(|k| (n >> (8 * k)) as u8).collect()
}

fn text(s: &str) -> Vec<u8> {
    [be64(s.len() as u64), s.as_bytes().to_vec()].concat()
}

#[test]
fn serialize_of_no_records_is_a_zero_count() {
    assert_eq!(serialize(&Vec::new()).inner, vec![0u8; 8]);
}

#[test]
fn serialize_writes_count_texts_and_times() {
    let bytes = serialize(&vec![record("a", "bc", "p", 1, -1)]);
    let expected: Vec<u8> = vec![
        0, 0, 0, 0, 0, 0, 0, 1, // one record
        0, 0, 0, 0, 0, 0, 0, 1, b'a', // name
        0, 0, 0, 0, 0, 0, 0, 2, b'b', b'c', // user name
        0, 0, 0, 0, 0, 0, 0, 1, b'p', // password
        0, 0, 0, 0, 0, 0, 0, 1, // made at 1
        255, 255, 255, 255, 255, 255, 255, 255, // changed at -1
    ];
    assert_eq!(bytes.inner, expected);
}

#[test]
fn serialize_counts_bytes_not_characters() {
    let bytes = serialize(&vec![record("é", "", "", 0, 0)]);
    assert_eq!(&bytes.inner[8..16], &[0, 0, 0, 0, 0, 0, 0, 2]);
    assert_eq!(&bytes.inner[16..18], &[0xC3, 0xA9]);
}

#[test]
fn deserialize_undoes_serialize() {
    let records = vec![
        record("github", "alice", "p4ss", 1_500_000_000, 1_600_000_000),
        record("", "", "", 0, 0),
        record("münchen ✓", "bob@example.org", "パスワード", i64::MIN, i64::MAX),
        record("github", "same name is the vault's business", "x", -5, 5),
    ];
    let bytes = serialize(&records);
    assert_eq!(deserialize(bytes.as_slice()), Some(records));
    assert_eq!(deserialize(&[0u8; 8]), Some(Vec::new()));
}

#[test]
fn deserialize_rejects_short_input() {
    assert_eq!(deserialize(&[]), None);
    assert_eq!(deserialize(&[0u8; 7]), None);
    let bytes = serialize(&vec![record("a", "b", "c", 1, 2)]).inner.clone();
    for keep in 0..bytes.len() {
        assert_eq!(deserialize(&bytes[..keep]), None);
    }
}

#[test]
fn deserialize_rejects_trailing_bytes() {
    let mut bytes = serialize(&vec![record("a", "b", "c", 1, 2)]).inner.clone();
    bytes.push(0);
    assert_eq!(deserialize(&bytes), None);
    assert_eq!(deserialize(&[0, 0, 0, 0, 0, 0, 0, 0, 0]), None);
}

#[test]
fn deserialize_rejects_a_count_that_is_too_large() {
    let mut bytes = serialize(&vec![record("a", "b", "c", 1, 2)]).inner.clone();
    bytes[7] = 2;
    assert_eq!(deserialize(&bytes), None);
    bytes[0] = 0xFF;
    assert_eq!(deserialize(&bytes), None);
}

#[test]
fn deserialize_rejects_a_length_that_is_too_large() {
    let bytes = [be64(1), be64(u64::MAX), vec![b'a'; 40]].concat();
    assert_eq!(deserialize(&bytes), None);
    let bytes = [be64(1), be64(5), b"abc".to_vec()].concat();
    assert_eq!(deserialize(&bytes), None);
}

#[test]
fn deserialize_rejects_text_that_is_not_utf8() {
    let good = [be64(1), text("a"), text("b"), text("c"), be64(1), be64(2)].concat();
    assert_eq!(deserialize(&good), Some(vec![record("a", "b", "c", 1, 2)]));
    let bad = [be64(1), text("a"), be64(1), vec![0xFF], text("c"), be64(1), be64(2)].concat();
    assert_eq!(deserialize(&bad), None);
    let cut = [be64(1), text("a"), be64(1), vec![0xC3], text("c"), be64(1), be64(2)].concat();
    assert_eq!(deserialize(&cut), None);
}

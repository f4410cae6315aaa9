use rooster::cipher::{encrypt_with, ContainerBody};
use rooster::codec::{
    assemble, decode, encode, encode_with, open_payload, parse, CodecError, CURRENT_VERSION, HEADER_LEN,
    LEGACY_VERSION,
};
use rooster::safe_string::SafeString;
use rooster::safe_vec::SafeVec;

fn password(text: &str) -> SafeString {
    SafeString::new(text.to_string())
}

fn secret(bytes: &[u8]) -> SafeVec {
    SafeVec::new(bytes.to_vec())
}

fn sample_body() -> ContainerBody {
    ContainerBody {
        salt: vec![0x11; 32],
        iv: vec![0x22; 16],
        ciphertext: vec![0x44, 0x45, 0x46],
        integrity_tag: vec![0x33; 64],
    }
}

#[test]
fn assemble_lays_out_tag_salt_iv_code_ciphertext() {
    let bytes = assemble(2, &sample_body());
    let mut expected = vec![0, 0, 0, 2];
    expected.extend_from_slice(&[0x11; 32]);
    expected.extend_from_slice(&[0x22; 16]);
    expected.extend_from_slice(&[0x33; 64]);
    expected.extend_from_slice(&[0x44, 0x45, 0x46]);
    assert_eq!(bytes, expected);
    assert_eq!(bytes.len(), HEADER_LEN + 3);
}

#[test]
fn parse_undoes_assemble() {
    let bytes = assemble(0x0A0B_0C0D, &sample_body());
    let (version, body) = parse(&bytes).unwrap();
    assert_eq!(version, 0x0A0B_0C0D);
    assert_eq!(body, sample_body());
}

#[test]
fn parse_takes_an_empty_ciphertext() {
    let mut body = sample_body();
    body.ciphertext.clear();
    let bytes = assemble(2, &body);
    assert_eq!(bytes.len(), 116);
    assert_eq!(parse(&bytes).unwrap(), (2, body));
}

#[test]
fn parse_of_short_input_is_corrupt() {
    assert_eq!(parse(&[]), Err(CodecError::Corrupt));
    assert_eq!(parse(&[0u8; 115]), Err(CodecError::Corrupt));
}

#[test]
fn decode_gives_the_plaintext_back() {
    let pw = password("correct-horse");
    for plaintext in [&b""[..], &b"x"[..], &b"sixteen byte txt"[..], &[0xFFu8; 77][..]] {
        let bytes = encode_with(&secret(plaintext), &pw, vec![3u8; 32], vec![4u8; 16]);
        assert_eq!(&bytes[..4], &[0, 0, 0, 2]);
        assert_eq!(&bytes[4..36], &[3u8; 32]);
        assert_eq!(&bytes[36..52], &[4u8; 16]);
        assert_eq!(decode(&bytes, &pw).unwrap().inner, plaintext.to_vec());
    }
}

#[test]
fn encode_with_is_assemble_of_encrypt_with() {
    let pw = password("pw");
    let bytes = encode_with(&secret(b"data"), &pw, vec![3u8; 32], vec![4u8; 16]);
    let body = encrypt_with(&secret(b"data"), &pw, vec![3u8; 32], vec![4u8; 16]);
    assert_eq!(bytes, assemble(CURRENT_VERSION, &body));
}

#[test]
fn encode_round_trips_with_fresh_randomness() {
    let pw = password("correct-horse");
    let a = encode(&secret(b"records"), &pw).unwrap();
    let b = encode(&secret(b"records"), &pw).unwrap();
    assert_ne!(a, b);
    assert_eq!(decode(&a, &pw).unwrap().inner, b"records".to_vec());
    assert_eq!(decode(&b, &pw).unwrap().inner, b"records".to_vec());
}

#[test]
fn decode_with_wrong_password_is_wrong_password() {
    let bytes = encode_with(&secret(b"records"), &password("m1"), vec![3u8; 32], vec![4u8; 16]);
    assert_eq!(decode(&bytes, &password("m2")), Err(CodecError::WrongPassword));
    assert_eq!(decode(&bytes, &password("M1")), Err(CodecError::WrongPassword));
}

#[test]
fn decode_of_altered_ciphertext_or_code_fails() {
    let pw = password("correct-horse");
    let bytes = encode_with(&secret(&[5u8; 40]), &pw, vec![3u8; 32], vec![4u8; 16]);
    assert_eq!(bytes.len(), 116 + 48);
    for at in [52usize, 80, 115, 116, 140, 163] {
        let mut altered = bytes.clone();
        altered[at] ^= 0x01;
        assert_eq!(decode(&altered, &pw), Err(CodecError::WrongPassword));
        let mut altered = bytes.clone();
        altered[at] = altered[at].wrapping_add(0x80);
        assert_eq!(decode(&altered, &pw), Err(CodecError::WrongPassword));
    }
}

#[test]
fn decode_of_truncated_container_is_corrupt() {
    let pw = password("correct-horse");
    let bytes = encode_with(&secret(b"records"), &pw, vec![3u8; 32], vec![4u8; 16]);
    for keep in 0..HEADER_LEN {
        assert_eq!(decode(&bytes[..keep], &pw), Err(CodecError::Corrupt));
    }
}

#[test]
fn decode_of_unknown_tag_is_corrupt() {
    let pw = password("correct-horse");
    let body = encrypt_with(&secret(b"records"), &pw, vec![3u8; 32], vec![4u8; 16]);
    assert_eq!(decode(&assemble(0, &body), &pw), Err(CodecError::Corrupt));
    assert_eq!(decode(&assemble(3, &body), &pw), Err(CodecError::Corrupt));
    assert_eq!(decode(&assemble(0x0200_0000, &body), &pw), Err(CodecError::Corrupt));
}

#[test]
fn decode_of_older_tag_is_outdated() {
    let pw = password("correct-horse");
    let body = encrypt_with(&secret(b"records"), &pw, vec![3u8; 32], vec![4u8; 16]);
    let bytes = assemble(LEGACY_VERSION, &body);
    assert_eq!(decode(&bytes, &pw), Err(CodecError::OutdatedFormat));
    assert_eq!(decode(&bytes, &password("wrong")), Err(CodecError::OutdatedFormat));
    assert_eq!(open_payload(&bytes, &pw).unwrap().inner, b"records".to_vec());
    assert_eq!(open_payload(&bytes, &password("wrong")), Err(CodecError::WrongPassword));
    assert_eq!(open_payload(&bytes[..100], &pw), Err(CodecError::Corrupt));
}

use rooster::cipher::{
    compute_tag, decrypt, derive_keys, encrypt, encrypt_with, pad, unpad, CipherError, ContainerBody,
};
use rooster::safe_string::SafeString;
use rooster::safe_vec::SafeVec;

fn password(text: &str) -> SafeString {
    SafeString::new(text.to_string())
}

fn secret(bytes: &[u8]) -> SafeVec {
    SafeVec::new(bytes.to_vec())
}

fn hex(text: &str) -> Vec<u8> {
    let digits: Vec<u8> = text.bytes().map(|c| (c as char).to_digit(16).unwrap() as u8).collect();
    digits.chunks(2).map(|pair| pair[0] * 16 + pair[1]).collect()
}

#[test]
fn pad_fills_up_to_whole_blocks() {
    assert_eq!(pad(b"abc").inner, [b"abc".to_vec(), vec![13u8; 13]].concat());
    assert_eq!(pad(&[7u8; 15]).inner, [vec![7u8; 15], vec![1u8]].concat());
}

#[test]
fn pad_adds_a_whole_block_to_whole_blocks() {
    assert_eq!(pad(b"").inner, vec![16u8; 16]);
    assert_eq!(pad(&[1u8; 16]).inner, [vec![1u8; 16], vec![16u8; 16]].concat());
}

#[test]
fn unpad_undoes_pad() {
    for len in 0..40usize {
        let data: Vec<u8> = (0..len).map(|i| (i * 7) as u8).collect();
        let blocks = pad(&data);
        assert_eq!(blocks.len() % 16, 0);
        assert_eq!(unpad(&blocks).unwrap().inner, data);
    }
}

#[test]
fn unpad_rejects_what_is_not_padded() {
    assert!(unpad(&secret(&[])).is_none());
    assert!(unpad(&secret(&[1u8; 15])).is_none());
    assert!(unpad(&secret(&[0u8; 16])).is_none());
    assert!(unpad(&secret(&[17u8; 16])).is_none());
    let mut blocks = vec![3u8; 16];
    blocks[13] = 2;
    assert!(unpad(&secret(&blocks)).is_none());
    blocks[13] = 3;
    assert_eq!(unpad(&secret(&blocks)).unwrap().inner, vec![3u8; 13]);
}

#[test]
fn derived_keys_depend_on_password_and_salt() {
    let a = derive_keys(&password("correct-horse"), &[1u8; 32]);
    let b = derive_keys(&password("correct-horse"), &[1u8; 32]);
    let c = derive_keys(&password("wrong-horse"), &[1u8; 32]);
    let d = derive_keys(&password("correct-horse"), &[2u8; 32]);
    assert_eq!(a.len(), 64);
    assert_eq!(a, b);
    assert_ne!(a, c);
    assert_ne!(a, d);
    assert_ne!(a.inner, vec![0u8; 64]);
}

#[test]
fn tag_is_hmac_sha512() {
    let mut keys = vec![0u8; 64];
    keys[32..36].copy_from_slice(b"Jefe");
    let tag = compute_tag(&SafeVec::new(keys), b"what do ya ", b"want for ", b"nothing?");
    assert_eq!(
        tag,
        hex(
            "164b7a7bfcf819e2e395fbe73b56e0a387bd64222e831fd610270cd7ea250554\
             9758bf75c05a994a6d034f65f8f0e6fdcaeab1a34d4a6b4b636e070a38bce737"
        )
    );
}

#[test]
fn encrypt_with_is_fixed_by_its_arguments() {
    let pw = password("correct-horse");
    let a = encrypt_with(&secret(b"attack at dawn"), &pw, vec![5u8; 32], vec![6u8; 16]);
    let b = encrypt_with(&secret(b"attack at dawn"), &pw, vec![5u8; 32], vec![6u8; 16]);
    let c = encrypt_with(&secret(b"attack at dawn"), &pw, vec![5u8; 32], vec![7u8; 16]);
    assert_eq!(a, b);
    assert_eq!(a.salt, vec![5u8; 32]);
    assert_eq!(a.iv, vec![6u8; 16]);
    assert_eq!(a.integrity_tag.len(), 64);
    assert_eq!(a.ciphertext.len(), 16);
    assert_ne!(a.ciphertext, pad(b"attack at dawn").inner);
    assert_ne!(a.ciphertext, c.ciphertext);
    assert_ne!(a.integrity_tag, c.integrity_tag);
}

#[test]
fn decrypt_gives_the_plaintext_back() {
    let pw = password("correct-horse");
    for len in [0usize, 1, 15, 16, 17, 32, 100] {
        let plaintext: Vec<u8> = (0..len).map(|i| (i * 3 + 1) as u8).collect();
        let body = encrypt_with(&secret(&plaintext), &pw, vec![9u8; 32], vec![8u8; 16]);
        assert_eq!(body.ciphertext.len(), (len / 16 + 1) * 16);
        assert_eq!(decrypt(&body, &pw).unwrap().inner, plaintext);
    }
}

#[test]
fn encrypt_uses_fresh_salt_and_iv() {
    let pw = password("correct-horse");
    let a = encrypt(&secret(b"same"), &pw).unwrap();
    let b = encrypt(&secret(b"same"), &pw).unwrap();
    assert_eq!(a.salt.len(), 32);
    assert_eq!(a.iv.len(), 16);
    assert_ne!(a.salt, b.salt);
    assert_ne!(a.iv, b.iv);
    assert_ne!(a.salt, vec![0u8; 32]);
    assert_eq!(decrypt(&a, &pw).unwrap().inner, b"same".to_vec());
    assert_eq!(decrypt(&b, &pw).unwrap().inner, b"same".to_vec());
}

#[test]
fn decrypt_with_wrong_password_fails_authentication() {
    let body = encrypt_with(&secret(b"payload"), &password("correct-horse"), vec![1u8; 32], vec![2u8; 16]);
    assert_eq!(decrypt(&body, &password("wrong-horse")), Err(CipherError::AuthenticationFailed));
    assert_eq!(decrypt(&body, &password("")), Err(CipherError::AuthenticationFailed));
}

#[test]
fn decrypt_of_altered_body_fails_authentication() {
    let pw = password("correct-horse");
    let body = encrypt_with(&secret(b"payload"), &pw, vec![1u8; 32], vec![2u8; 16]);
    let mut salt = body.salt.clone();
    salt[0] ^= 1;
    let mut iv = body.iv.clone();
    iv[15] ^= 0x80;
    let mut ciphertext = body.ciphertext.clone();
    ciphertext[3] ^= 4;
    let mut tag = body.integrity_tag.clone();
    tag[63] ^= 1;
    let altered = [
        ContainerBody { salt, iv: body.iv.clone(), ciphertext: body.ciphertext.clone(), integrity_tag: body.integrity_tag.clone() },
        ContainerBody { salt: body.salt.clone(), iv, ciphertext: body.ciphertext.clone(), integrity_tag: body.integrity_tag.clone() },
        ContainerBody { salt: body.salt.clone(), iv: body.iv.clone(), ciphertext, integrity_tag: body.integrity_tag.clone() },
        ContainerBody { salt: body.salt.clone(), iv: body.iv.clone(), ciphertext: body.ciphertext.clone(), integrity_tag: tag },
    ];
    for body in altered.iter() {
        assert_eq!(decrypt(body, &pw), Err(CipherError::AuthenticationFailed));
    }
}

#[test]
fn decrypt_of_misshapen_body_fails_authentication() {
    let pw = password("correct-horse");
    let body = encrypt_with(&secret(b"payload"), &pw, vec![1u8; 32], vec![2u8; 16]);
    let short_iv = ContainerBody {
        salt: body.salt.clone(),
        iv: vec![2u8; 15],
        ciphertext: body.ciphertext.clone(),
        integrity_tag: body.integrity_tag.clone(),
    };
    assert_eq!(decrypt(&short_iv, &pw), Err(CipherError::AuthenticationFailed));
    let ragged = ContainerBody {
        salt: body.salt.clone(),
        iv: body.iv.clone(),
        ciphertext: body.ciphertext[..15].to_vec(),
        integrity_tag: body.integrity_tag.clone(),
    };
    assert_eq!(decrypt(&ragged, &pw), Err(CipherError::AuthenticationFailed));
    let no_tag = ContainerBody {
        salt: body.salt.clone(),
        iv: body.iv.clone(),
        ciphertext: body.ciphertext.clone(),
        integrity_tag: Vec::new(),
    };
    assert_eq!(decrypt(&no_tag, &pw), Err(CipherError::AuthenticationFailed));
}

#[test]
fn trailing_nul_in_a_short_password_gives_the_same_keys() {
    let plain = derive_keys(&password("a"), &[1u8; 32]);
    let with_nul = derive_keys(&password("a\0"), &[1u8; 32]);
    assert_eq!(plain, with_nul);
    let body = encrypt_with(&secret(b"payload"), &password("a"), vec![1u8; 32], vec![2u8; 16]);
    assert_eq!(decrypt(&body, &password("a\0")).unwrap().inner, b"payload".to_vec());
    assert_eq!(decrypt(&body, &password("b")), Err(CipherError::AuthenticationFailed));
}

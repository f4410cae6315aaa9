//! The cipher engine: a master password and a plaintext become an authenticated
//! ciphertext, and back.
//!
//! Keys come from scrypt over the password and a fresh salt: the first half of the
//! derived bytes encrypts (AES-256, CBC, PKCS#7 padding), the second half
//! authenticates (HMAC-SHA-512 over salt, iv and ciphertext). Opening a body checks
//! the code first and decrypts only when it matches.

use vstd::prelude::*;
use vstd::slice::slice_subrange;
use vstd::utf8::encode_utf8;
use crate::primitives::{
    aes256_cbc_decrypt, aes256_cbc_decrypted, aes256_cbc_encrypt, aes256_cbc_encrypted,
    constant_time_eq, fill_random, hmac_sha512, hmac_sha512_code, scrypt_derive, scrypt_output,
};
use crate::safe_string::SafeString;
use crate::safe_vec::SafeVec;

verus! {

/// Length of the salt, in bytes.
pub const SALT_LEN: usize = 32;

/// Length of the initialization value, in bytes.
pub const IV_LEN: usize = 16;

/// Length of the integrity tag, in bytes.
pub const TAG_LEN: usize = 64;

/// Length of each of the two derived keys, in bytes.
pub const KEY_LEN: usize = 32;

/// Length of a cipher block, in bytes.
pub const BLOCK_LEN: usize = 16;

/// The scrypt cost parameter `log2(N)`.
pub const SCRYPT_LOG_N: u8 = 12;

/// The scrypt block size parameter.
pub const SCRYPT_R: u32 = 8;

/// The scrypt parallelization parameter.
pub const SCRYPT_P: u32 = 1;

/// Why the cipher engine gave no result.
#[derive(Debug, Clone, Copy, PartialEq, Eq)]
pub enum CipherError {
    /// Wrong master password, or data that was altered: the two are not told apart.
    AuthenticationFailed,
    /// The operating system delivered no random bytes.
    RandomSourceFailed,
}

/// An encrypted payload with what is needed to open it.
#[derive(Debug, PartialEq, Eq)]
pub struct ContainerBody {
    pub salt: Vec<u8>,
    pub iv: Vec<u8>,
    pub ciphertext: Vec<u8>,
    pub integrity_tag: Vec<u8>,
}

/// The mathematical content of a [`ContainerBody`].
pub struct BodyView {
    pub salt: Seq<u8>,
    pub iv: Seq<u8>,
    pub ciphertext: Seq<u8>,
    pub integrity_tag: Seq<u8>,
}

impl View for ContainerBody {
    type V = BodyView;

    open spec fn view(&self) -> BodyView {
        BodyView {
            salt: self.salt@,
            iv: self.iv@,
            ciphertext: self.ciphertext@,
            integrity_tag: self.integrity_tag@,
        }
    }
}

/// How many bytes of padding follow `n` bytes of data: between 1 and 16.
pub open spec fn pad_len(n: nat) -> nat {
    (16 - n % 16) as nat
}

/// `data` followed by its PKCS#7 padding: whole blocks, never empty.
pub open spec fn padded(data: Seq<u8>) -> Seq<u8> {
    data + Seq::new(pad_len(data.len()), |i: int| pad_len(data.len()) as u8)
}

/// True when `blocks` ends in `n` bytes of value `n`, for an `n` between 1 and 16.
pub open spec fn well_padded(blocks: Seq<u8>) -> bool {
    &&& blocks.len() > 0
    &&& blocks.len() % 16 == 0
    &&& 1 <= blocks.last() <= 16
    &&& forall|i: int| blocks.len() - blocks.last() <= i < blocks.len() ==> blocks[i] == blocks.last()
}

/// The data of well-padded blocks; nothing for blocks that are not well padded.
pub open spec fn unpadded(blocks: Seq<u8>) -> Option<Seq<u8>> {
    if well_padded(blocks) {
        Some(blocks.subrange(0, blocks.len() - blocks.last()))
    } else {
        None
    }
}

/// Taking the padding off padded data gives the data back.
pub proof fn lemma_unpadded_padded(data: Seq<u8>)
    ensures
        padded(data).len() % 16 == 0,
        padded(data).len() == data.len() + pad_len(data.len()),
        well_padded(padded(data)),
        unpadded(padded(data)) == Some(data),
{
    let n = pad_len(data.len());
    let p = padded(data);
    assert(1 <= n <= 16);
    assert(p.len() == data.len() + n);
    assert(p.last() == n as u8);
    assert(p.subrange(0, p.len() - n) =~= data);
}

/// The 64 bytes derived from a password and a salt.
pub open spec fn derived_keys(password: Seq<char>, salt: Seq<u8>) -> Seq<u8> {
    scrypt_output(encode_utf8(password), salt, SCRYPT_LOG_N, SCRYPT_R, SCRYPT_P, 64)
}

/// The key that encrypts: the first half of the derived bytes.
pub open spec fn encryption_key(password: Seq<char>, salt: Seq<u8>) -> Seq<u8> {
    derived_keys(password, salt).subrange(0, 32)
}

/// The key that authenticates: the second half of the derived bytes.
pub open spec fn integrity_key(password: Seq<char>, salt: Seq<u8>) -> Seq<u8> {
    derived_keys(password, salt).subrange(32, 64)
}

/// The integrity tag that `password` gives to salt, iv and ciphertext.
pub open spec fn tag_of(password: Seq<char>, salt: Seq<u8>, iv: Seq<u8>, ciphertext: Seq<u8>) -> Seq<u8> {
    hmac_sha512(integrity_key(password, salt), salt + iv + ciphertext)
}

/// The body that encrypting `plaintext` under `password` gives for a salt and an iv.
pub open spec fn sealed(plaintext: Seq<u8>, password: Seq<char>, salt: Seq<u8>, iv: Seq<u8>) -> BodyView {
    let ciphertext = aes256_cbc_encrypted(encryption_key(password, salt), iv, padded(plaintext));
    BodyView { salt, iv, ciphertext, integrity_tag: tag_of(password, salt, iv, ciphertext) }
}

/// True when the stored tag is the one that `password` gives to the body.
pub open spec fn authentic(body: BodyView, password: Seq<char>) -> bool {
    &&& body.iv.len() == IV_LEN
    &&& body.ciphertext.len() % 16 == 0
    &&& body.integrity_tag == tag_of(password, body.salt, body.iv, body.ciphertext)
}

/// What opening `body` with `password` gives: the plaintext, if the body is authentic
/// and what it decrypts to is well padded.
pub open spec fn opened(body: BodyView, password: Seq<char>) -> Result<Seq<u8>, CipherError> {
    if authentic(body, password) {
        match unpadded(
            aes256_cbc_decrypted(encryption_key(password, body.salt), body.iv, body.ciphertext),
        ) {
            Some(plaintext) => Ok(plaintext),
            None => Err(CipherError::AuthenticationFailed),
        }
    } else {
        Err(CipherError::AuthenticationFailed)
    }
}

/// Appends PKCS#7 padding to a copy of `data`.
pub fn pad(data: &[u8]) -> (r: SafeVec)
    ensures
        r@ == padded(data@),
{
    let fill: usize = 16 - data.len() % 16;
    let mut out = SafeVec::new(Vec::new());
    out.inner.extend_from_slice(data);
    assert(out@ =~= data@);
    let mut i: usize = 0;
    while i < fill
        invariant
            fill == pad_len(data@.len()),
            1 <= fill <= 16,
            i <= fill,
            out@ == data@ + Seq::new(i as nat, |k: int| fill as u8),
        decreases fill - i,
    {
        out.inner.push(fill as u8);
        i += 1;
        assert(out@ =~= data@ + Seq::new(i as nat, |k: int| fill as u8));
    }
    out
}

/// Takes PKCS#7 padding off `blocks`, or tells that they are not well padded.
pub fn unpad(blocks: &SafeVec) -> (r: Option<SafeVec>)
    ensures
        match r {
            Some(data) => unpadded(blocks@) == Some(data@),
            None => unpadded(blocks@) is None,
        },
{
    let mut data = blocks.duplicate();
    let n = data.len();
    if n == 0 || n % 16 != 0 {
        return None;
    }
    let last = data.inner[n - 1];
    if last < 1 || last > 16 {
        return None;
    }
    let start: usize = n - last as usize;
    let mut i: usize = start;
    while i < n
        invariant
            data@ == blocks@,
            n == blocks@.len(),
            last == blocks@.last(),
            start <= i <= n,
            start == n - last,
            forall|k: int| start <= k < i ==> blocks@[k] == last,
        decreases n - i,
    {
        if data.inner[i] != last {
            assert(blocks@[i as int] != blocks@.last());
            return None;
        }
        i += 1;
    }
    data.inner.truncate(start);
    assert(data@ =~= blocks@.subrange(0, start as int));
    Some(data)
}

/// Derives the 64 key bytes from the master password and a salt.
pub fn derive_keys(master_password: &SafeString, salt: &[u8]) -> (r: SafeVec)
    ensures
        r@.len() == 64,
        r@ == derived_keys(master_password@, salt@),
{
    let mut keys = SafeVec::new(vec![0u8; 64]);
    scrypt_derive(
        master_password.as_str().as_bytes(),
        salt,
        SCRYPT_LOG_N,
        SCRYPT_R,
        SCRYPT_P,
        &mut keys.inner,
    );
    keys
}

/// Computes the integrity tag of salt, iv and ciphertext under the derived keys.
pub fn compute_tag(keys: &SafeVec, salt: &[u8], iv: &[u8], ciphertext: &[u8]) -> (r: Vec<u8>)
    requires
        keys@.len() == 64,
    ensures
        r@.len() == TAG_LEN,
        r@ == hmac_sha512(keys@.subrange(32, 64), salt@ + iv@ + ciphertext@),
{
    let mut covered: Vec<u8> = Vec::new();
    covered.extend_from_slice(salt);
    covered.extend_from_slice(iv);
    covered.extend_from_slice(ciphertext);
    assert(covered@ =~= salt@ + iv@ + ciphertext@);
    hmac_sha512_code(slice_subrange(keys.as_slice(), 32, 64), covered.as_slice())
}

/// Encrypts `plaintext` under `master_password` with the given salt and iv.
///
/// The result is fixed by the arguments, and opening it with the same password gives
/// the plaintext back.
pub fn encrypt_with(plaintext: &SafeVec, master_password: &SafeString, salt: Vec<u8>, iv: Vec<u8>) -> (r:
    ContainerBody)
    requires
        salt@.len() == SALT_LEN,
        iv@.len() == IV_LEN,
    ensures
        r@ == sealed(plaintext@, master_password@, salt@, iv@),
        r@.integrity_tag.len() == TAG_LEN,
        authentic(r@, master_password@),
        opened(r@, master_password@) == Ok::<Seq<u8>, CipherError>(plaintext@),
{
    let keys = derive_keys(master_password, salt.as_slice());
    let blocks = pad(plaintext.as_slice());
    proof {
        lemma_unpadded_padded(plaintext@);
    }
    let mut ciphertext: Vec<u8> = vec![0u8; blocks.len()];
    aes256_cbc_encrypt(
        slice_subrange(keys.as_slice(), 0, 32),
        iv.as_slice(),
        blocks.as_slice(),
        &mut ciphertext,
    );
    let integrity_tag = compute_tag(&keys, salt.as_slice(), iv.as_slice(), ciphertext.as_slice());
    ContainerBody { salt, iv, ciphertext, integrity_tag }
}

/// Encrypts `plaintext` under `master_password` with a fresh random salt and iv.
///
/// Fails only when the operating system delivers no random bytes.
pub fn encrypt(plaintext: &SafeVec, master_password: &SafeString) -> (r: Result<ContainerBody, CipherError>)
    ensures
        match r {
            Ok(body) => {
                &&& body@.salt.len() == SALT_LEN
                &&& body@.iv.len() == IV_LEN
                &&& body@.integrity_tag.len() == TAG_LEN
                &&& body@ == sealed(plaintext@, master_password@, body@.salt, body@.iv)
                &&& opened(body@, master_password@) == Ok::<Seq<u8>, CipherError>(plaintext@)
            },
            Err(e) => e == CipherError::RandomSourceFailed,
        },
{
    let mut salt: Vec<u8> = vec![0u8; SALT_LEN];
    let mut iv: Vec<u8> = vec![0u8; IV_LEN];
    if !fill_random(&mut salt) {
        return Err(CipherError::RandomSourceFailed);
    }
    if !fill_random(&mut iv) {
        return Err(CipherError::RandomSourceFailed);
    }
    Ok(encrypt_with(plaintext, master_password, salt, iv))
}

/// Opens `body` with `master_password`: checks the integrity tag in constant time and
/// decrypts only when it matches.
pub fn decrypt(body: &ContainerBody, master_password: &SafeString) -> (r: Result<SafeVec, CipherError>)
    ensures
        match r {
            Ok(plaintext) => opened(body@, master_password@) == Ok::<Seq<u8>, CipherError>(plaintext@),
            Err(e) => opened(body@, master_password@) == Err::<Seq<u8>, CipherError>(e),
        },
{
    if body.iv.len() != IV_LEN || body.ciphertext.len() % 16 != 0 {
        return Err(CipherError::AuthenticationFailed);
    }
    let keys = derive_keys(master_password, body.salt.as_slice());
    let expected = compute_tag(
        &keys,
        body.salt.as_slice(),
        body.iv.as_slice(),
        body.ciphertext.as_slice(),
    );
    if !constant_time_eq(expected.as_slice(), body.integrity_tag.as_slice()) {
        return Err(CipherError::AuthenticationFailed);
    }
    let mut blocks = SafeVec::new(vec![0u8; body.ciphertext.len()]);
    aes256_cbc_decrypt(
        slice_subrange(keys.as_slice(), 0, 32),
        body.iv.as_slice(),
        body.ciphertext.as_slice(),
        &mut blocks.inner,
    );
    match unpad(&blocks) {
        Some(plaintext) => Ok(plaintext),
        None => Err(CipherError::AuthenticationFailed),
    }
}

} // verus!

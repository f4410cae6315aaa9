//! The cryptographic building blocks, each a single call into an outside crate.
//!
//! Nothing in this file is proved: every function here states what the outside code
//! is taken to do, and the rest of the library is proved against these statements.

use vstd::prelude::*;
use crypto::aes::{cbc_decryptor, cbc_encryptor, KeySize};
use crypto::blockmodes::NoPadding;
use crypto::buffer::{RefReadBuffer, RefWriteBuffer};
use crypto::hmac::Hmac;
use crypto::mac::Mac;
use crypto::scrypt::{scrypt, ScryptParams};
use crypto::sha2::Sha512;
use rand::rngs::OsRng;
use rand::RngCore;

verus! {

/// What scrypt derives from a password and a salt under the cost parameters
/// `log_n`, `r` and `p`, for an output of `len` bytes.
pub uninterp spec fn scrypt_output(
    password: Seq<u8>,
    salt: Seq<u8>,
    log_n: u8,
    r: u32,
    p: u32,
    len: nat,
) -> Seq<u8>;

/// The HMAC-SHA-512 code of `data` under `key`.
pub uninterp spec fn hmac_sha512(key: Seq<u8>, data: Seq<u8>) -> Seq<u8>;

/// What AES-256 in CBC mode, without padding, makes of whole blocks under `key` and `iv`.
pub uninterp spec fn aes256_cbc_encrypted(key: Seq<u8>, iv: Seq<u8>, blocks: Seq<u8>) -> Seq<u8>;

/// What AES-256 in CBC mode, without padding, recovers from whole blocks under `key`
/// and `iv`.
pub uninterp spec fn aes256_cbc_decrypted(key: Seq<u8>, iv: Seq<u8>, blocks: Seq<u8>) -> Seq<u8>;

/// Fills `output` with the scrypt key derived from `password` and `salt`.
///
/// Trusted: calls `crypto::scrypt::ScryptParams::new` and `crypto::scrypt::scrypt`.
/// The bounds keep clear of the parameter checks on which those two panic. The contract
/// claims that the bytes written depend on the arguments and the output length alone,
/// and that the length of `output` is kept.
#[verifier::external_body]
pub(crate) fn scrypt_derive(
    password: &[u8],
    salt: &[u8],
    log_n: u8,
    r: u32,
    p: u32,
    output: &mut Vec<u8>,
)
    requires
        1 <= log_n <= 15,
        1 <= r <= 16,
        1 <= p <= 16,
        1 <= old(output)@.len() <= 1024,
    ensures
        final(output)@.len() == old(output)@.len(),
        final(output)@ == scrypt_output(password@, salt@, log_n, r, p, old(output)@.len()),
{
    let params = ScryptParams::new(log_n, r, p);
    scrypt(password, salt, &params, output.as_mut_slice())
}

/// Computes the HMAC-SHA-512 code of `data` under `key`.
///
/// Trusted: calls `crypto::hmac::Hmac::new` with `crypto::sha2::Sha512`, then `input`
/// and `result` of `crypto::mac::Mac`. The contract claims that the code depends on
/// key and data alone and is 64 bytes long.
#[verifier::external_body]
pub(crate) fn hmac_sha512_code(key: &[u8], data: &[u8]) -> (r: Vec<u8>)
    ensures
        r@.len() == 64,
        r@ == hmac_sha512(key@, data@),
{
    let mut mac = Hmac::new(Sha512::new(), key);
    mac.input(data);
    mac.result().code().to_vec()
}

/// Compares two byte strings in time that does not depend on where they differ.
///
/// Trusted: calls `crypto::util::fixed_time_eq`, which answers `false` at once for
/// unequal lengths and, for a length of zero, `false` as well: hence the bound.
#[verifier::external_body]
pub(crate) fn constant_time_eq(lhs: &[u8], rhs: &[u8]) -> (r: bool)
    requires
        lhs@.len() > 0,
    ensures
        r == (lhs@ == rhs@),
{
    crypto::util::fixed_time_eq(lhs, rhs)
}

/// Encrypts whole blocks with AES-256 in CBC mode into `output`.
///
/// Trusted: calls `crypto::aes::cbc_encryptor` with `NoPadding` and runs the encryptor
/// once over the whole input, with room for all of it. The contract claims that the
/// output is as long as the input, depends on key, iv and input alone, and that
/// decryption under the same key and iv gives the input back.
#[verifier::external_body]
pub(crate) fn aes256_cbc_encrypt(key: &[u8], iv: &[u8], blocks: &[u8], output: &mut Vec<u8>)
    requires
        key@.len() == 32,
        iv@.len() == 16,
        blocks@.len() % 16 == 0,
        old(output)@.len() == blocks@.len(),
    ensures
        final(output)@.len() == blocks@.len(),
        final(output)@ == aes256_cbc_encrypted(key@, iv@, blocks@),
        aes256_cbc_decrypted(key@, iv@, final(output)@) == blocks@,
{
    let mut engine = cbc_encryptor(KeySize::KeySize256, key, iv, NoPadding);
    let mut reader = RefReadBuffer::new(blocks);
    let mut writer = RefWriteBuffer::new(output.as_mut_slice());
    let _ = engine.encrypt(&mut reader, &mut writer, true);
}

/// Decrypts whole blocks with AES-256 in CBC mode into `output`.
///
/// Trusted: calls `crypto::aes::cbc_decryptor` with `NoPadding` and runs the decryptor
/// once over the whole input, with room for all of it. The contract claims that the
/// output is as long as the input and depends on key, iv and input alone.
#[verifier::external_body]
pub(crate) fn aes256_cbc_decrypt(key: &[u8], iv: &[u8], blocks: &[u8], output: &mut Vec<u8>)
    requires
        key@.len() == 32,
        iv@.len() == 16,
        blocks@.len() % 16 == 0,
        old(output)@.len() == blocks@.len(),
    ensures
        final(output)@.len() == blocks@.len(),
        final(output)@ == aes256_cbc_decrypted(key@, iv@, blocks@),
{
    let mut engine = cbc_decryptor(KeySize::KeySize256, key, iv, NoPadding);
    let mut reader = RefReadBuffer::new(blocks);
    let mut writer = RefWriteBuffer::new(output.as_mut_slice());
    let _ = engine.decrypt(&mut reader, &mut writer, true);
}

/// Fills `dest` from the operating system's random source.
///
/// Trusted: calls `try_fill_bytes` of `rand::rngs::OsRng`. The contract claims only
/// that the length is kept; the answer tells whether the source delivered.
#[verifier::external_body]
pub(crate) fn fill_random(dest: &mut Vec<u8>) -> (ok: bool)
    ensures
        final(dest)@.len() == old(dest)@.len(),
{
    OsRng.try_fill_bytes(dest.as_mut_slice()).is_ok()
}

} // verus!

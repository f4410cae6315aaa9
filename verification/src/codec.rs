//! The versioned container: a format tag in front of an encrypted body, as one flat
//! run of bytes.
//!
//! Layout: version tag (4 bytes, big-endian), salt (32), iv (16), integrity tag (64),
//! then the ciphertext, which takes all bytes that remain.

use vstd::prelude::*;
use vstd::slice::slice_subrange;
use crate::cipher::{
    decrypt, encrypt, encrypt_with, opened, sealed, tag_of, BodyView, ContainerBody, IV_LEN,
    SALT_LEN, TAG_LEN,
};
use crate::safe_string::SafeString;
use crate::safe_vec::SafeVec;
use crate::wire::{lemma_u32_round_trip, push_u32, read_u32_be, u32_from_be, u32_to_be};

verus! {

/// The tag of the format that this library writes.
pub const CURRENT_VERSION: u32 = 2;

/// The tag of the one older format that is still recognized.
pub const LEGACY_VERSION: u32 = 1;

/// Length of the version tag, in bytes.
pub const VERSION_LEN: usize = 4;

/// Length of everything in front of the ciphertext, in bytes.
pub const HEADER_LEN: usize = 116;

/// Why a container could not be decoded, or encoded.
#[derive(Debug, Clone, Copy, PartialEq, Eq)]
pub enum CodecError {
    /// The container is of the current format and the password does not open it.
    WrongPassword,
    /// The bytes are too short for a container, or carry an unknown format tag.
    Corrupt,
    /// The container is of an older format that is still recognized.
    OutdatedFormat,
    /// The operating system delivered no random bytes for a new container.
    RandomSourceFailed,
}

/// True when salt, iv and integrity tag have their fixed widths.
pub open spec fn well_framed(body: BodyView) -> bool {
    &&& body.salt.len() == SALT_LEN
    &&& body.iv.len() == IV_LEN
    &&& body.integrity_tag.len() == TAG_LEN
}

/// The flat bytes of a container with the given format tag and body.
pub open spec fn assembled(version: u32, body: BodyView) -> Seq<u8> {
    u32_to_be(version) + body.salt + body.iv + body.integrity_tag + body.ciphertext
}

/// The format tag in front of `bytes`.
pub open spec fn version_of(bytes: Seq<u8>) -> u32
    recommends
        bytes.len() >= VERSION_LEN,
{
    u32_from_be(bytes)
}

/// The body behind the format tag of `bytes`, cut at the fixed widths.
pub open spec fn body_of(bytes: Seq<u8>) -> BodyView
    recommends
        bytes.len() >= HEADER_LEN,
{
    BodyView {
        salt: bytes.subrange(4, 36),
        iv: bytes.subrange(36, 52),
        integrity_tag: bytes.subrange(52, 116),
        ciphertext: bytes.subrange(116, bytes.len() as int),
    }
}

/// What the body of `bytes` opens to under `password`, whatever the format tag says.
pub open spec fn payload_of(bytes: Seq<u8>, password: Seq<char>) -> Result<Seq<u8>, CodecError>
    recommends
        bytes.len() >= HEADER_LEN,
{
    match opened(body_of(bytes), password) {
        Ok(plaintext) => Ok(plaintext),
        Err(_) => Err(CodecError::WrongPassword),
    }
}

/// What decoding `bytes` under `password` gives.
pub open spec fn decoded(bytes: Seq<u8>, password: Seq<char>) -> Result<Seq<u8>, CodecError> {
    if bytes.len() < HEADER_LEN {
        Err(CodecError::Corrupt)
    } else if version_of(bytes) == CURRENT_VERSION {
        payload_of(bytes, password)
    } else if version_of(bytes) == LEGACY_VERSION {
        Err(CodecError::OutdatedFormat)
    } else {
        Err(CodecError::Corrupt)
    }
}

/// Cutting assembled bytes apart gives the format tag and the body again.
pub proof fn lemma_parse_assembled(version: u32, body: BodyView)
    requires
        well_framed(body),
    ensures
        assembled(version, body).len() == HEADER_LEN + body.ciphertext.len(),
        version_of(assembled(version, body)) == version,
        body_of(assembled(version, body)) == body,
{
    let bytes = assembled(version, body);
    lemma_u32_round_trip(version);
    assert(bytes.subrange(4, 36) =~= body.salt);
    assert(bytes.subrange(36, 52) =~= body.iv);
    assert(bytes.subrange(52, 116) =~= body.integrity_tag);
    assert(bytes.subrange(116, bytes.len() as int) =~= body.ciphertext);
    assert(u32_from_be(bytes) == u32_from_be(u32_to_be(version)));
}

/// Decoding a container of the current format is opening its body: every failure of
/// the cipher engine shows as a wrong password.
pub proof fn lemma_decoded_assembled(body: BodyView, password: Seq<char>)
    requires
        well_framed(body),
    ensures
        decoded(assembled(CURRENT_VERSION, body), password) == match opened(body, password) {
            Ok(plaintext) => Ok::<Seq<u8>, CodecError>(plaintext),
            Err(_) => Err::<Seq<u8>, CodecError>(CodecError::WrongPassword),
        },
{
    lemma_parse_assembled(CURRENT_VERSION, body);
}

/// A container that decodes under one password is rejected as `WrongPassword` under
/// any password that gives its bytes another integrity tag.
///
/// Not every other password does: key derivation fills a short password up with zero
/// bytes, so a password and the same password followed by a NUL character derive the
/// same keys.
pub proof fn lemma_wrong_password_rejected(bytes: Seq<u8>, sealing: Seq<char>, opening: Seq<char>)
    requires
        decoded(bytes, sealing) is Ok,
        tag_of(opening, body_of(bytes).salt, body_of(bytes).iv, body_of(bytes).ciphertext) != tag_of(
            sealing,
            body_of(bytes).salt,
            body_of(bytes).iv,
            body_of(bytes).ciphertext,
        ),
    ensures
        decoded(bytes, opening) == Err::<Seq<u8>, CodecError>(CodecError::WrongPassword),
{
}

/// Changing any one byte of the integrity tag of a container that decodes under the
/// password makes decoding fail.
pub proof fn lemma_tampered_tag_rejected(bytes: Seq<u8>, password: Seq<char>, at: int, byte: u8)
    requires
        decoded(bytes, password) is Ok,
        52 <= at < 116,
        byte != bytes[at],
    ensures
        decoded(bytes.update(at, byte), password) == Err::<Seq<u8>, CodecError>(
            CodecError::WrongPassword,
        ),
{
    let altered = bytes.update(at, byte);
    let before = body_of(bytes);
    let after = body_of(altered);
    assert(after.salt =~= before.salt);
    assert(after.iv =~= before.iv);
    assert(after.ciphertext =~= before.ciphertext);
    assert(after.integrity_tag[at - 52] == byte);
    assert(before.integrity_tag[at - 52] == bytes[at]);
    assert(u32_from_be(altered) == u32_from_be(bytes));
}

/// Changing any one byte of the ciphertext of a container that decodes under the
/// password makes decoding fail, unless the altered ciphertext happens to carry the
/// integrity tag that is stored.
pub proof fn lemma_tampered_ciphertext_rejected(bytes: Seq<u8>, password: Seq<char>, at: int, byte: u8)
    requires
        decoded(bytes, password) is Ok,
        116 <= at < bytes.len(),
        byte != bytes[at],
        tag_of(
            password,
            body_of(bytes).salt,
            body_of(bytes).iv,
            body_of(bytes).ciphertext.update(at - 116, byte),
        ) != body_of(bytes).integrity_tag,
    ensures
        decoded(bytes.update(at, byte), password) == Err::<Seq<u8>, CodecError>(
            CodecError::WrongPassword,
        ),
{
    let altered = bytes.update(at, byte);
    let before = body_of(bytes);
    let after = body_of(altered);
    assert(after.salt =~= before.salt);
    assert(after.iv =~= before.iv);
    assert(after.integrity_tag =~= before.integrity_tag);
    assert(after.ciphertext =~= before.ciphertext.update(at - 116, byte));
    assert(u32_from_be(altered) == u32_from_be(bytes));
}

/// Any container cut down to fewer bytes than the header is `Corrupt`.
pub proof fn lemma_truncated_is_corrupt(bytes: Seq<u8>, keep: int, password: Seq<char>)
    requires
        0 <= keep <= bytes.len(),
        keep < HEADER_LEN,
    ensures
        decoded(bytes.subrange(0, keep), password) == Err::<Seq<u8>, CodecError>(CodecError::Corrupt),
{
}

/// Lays out a format tag and a body as flat bytes.
pub fn assemble(version: u32, body: &ContainerBody) -> (r: Vec<u8>)
    ensures
        r@ == assembled(version, body@),
{
    let mut out: Vec<u8> = Vec::new();
    push_u32(&mut out, version);
    out.extend_from_slice(body.salt.as_slice());
    out.extend_from_slice(body.iv.as_slice());
    out.extend_from_slice(body.integrity_tag.as_slice());
    out.extend_from_slice(body.ciphertext.as_slice());
    assert(out@ =~= assembled(version, body@));
    out
}

/// Copies `bytes[from..to]` into a vector of its own.
fn copy_range(bytes: &[u8], from: usize, to: usize) -> (r: Vec<u8>)
    requires
        from <= to <= bytes@.len(),
    ensures
        r@ == bytes@.subrange(from as int, to as int),
{
    let mut out: Vec<u8> = Vec::new();
    out.extend_from_slice(slice_subrange(bytes, from, to));
    assert(out@ =~= bytes@.subrange(from as int, to as int));
    out
}

/// Cuts flat bytes into the format tag and the body; `Corrupt` exactly when there are
/// fewer bytes than a header takes.
pub fn parse(bytes: &[u8]) -> (r: Result<(u32, ContainerBody), CodecError>)
    ensures
        match r {
            Ok((version, body)) => {
                &&& bytes@.len() >= HEADER_LEN
                &&& version == version_of(bytes@)
                &&& body@ == body_of(bytes@)
            },
            Err(e) => e == CodecError::Corrupt && bytes@.len() < HEADER_LEN,
        },
{
    if bytes.len() < HEADER_LEN {
        return Err(CodecError::Corrupt);
    }
    let version = read_u32_be(bytes);
    let body = ContainerBody {
        salt: copy_range(bytes, 4, 36),
        iv: copy_range(bytes, 36, 52),
        integrity_tag: copy_range(bytes, 52, 116),
        ciphertext: copy_range(bytes, 116, bytes.len()),
    };
    Ok((version, body))
}

/// Opens the body of `bytes` under `master_password`, whatever the format tag says.
pub fn open_payload(bytes: &[u8], master_password: &SafeString) -> (r: Result<SafeVec, CodecError>)
    ensures
        match r {
            Ok(plaintext) => bytes@.len() >= HEADER_LEN && payload_of(bytes@, master_password@) == Ok::<
                Seq<u8>,
                CodecError,
            >(plaintext@),
            Err(e) => if bytes@.len() < HEADER_LEN {
                e == CodecError::Corrupt
            } else {
                e == CodecError::WrongPassword && payload_of(bytes@, master_password@) == Err::<
                    Seq<u8>,
                    CodecError,
                >(e)
            },
        },
{
    match parse(bytes) {
        Err(e) => Err(e),
        Ok((_, body)) => match decrypt(&body, master_password) {
            Ok(plaintext) => Ok(plaintext),
            Err(_) => Err(CodecError::WrongPassword),
        },
    }
}

/// Decodes a container: reads the format tag and, for the current format, opens the
/// body under `master_password`.
pub fn decode(bytes: &[u8], master_password: &SafeString) -> (r: Result<SafeVec, CodecError>)
    ensures
        match r {
            Ok(plaintext) => decoded(bytes@, master_password@) == Ok::<Seq<u8>, CodecError>(plaintext@),
            Err(e) => decoded(bytes@, master_password@) == Err::<Seq<u8>, CodecError>(e),
        },
{
    if bytes.len() < HEADER_LEN {
        return Err(CodecError::Corrupt);
    }
    let version = read_u32_be(bytes);
    if version == CURRENT_VERSION {
        open_payload(bytes, master_password)
    } else if version == LEGACY_VERSION {
        Err(CodecError::OutdatedFormat)
    } else {
        Err(CodecError::Corrupt)
    }
}

/// Encodes `plaintext` as a container of the current format, with the given salt and
/// iv. Decoding the result under the same password gives the plaintext back.
pub fn encode_with(plaintext: &SafeVec, master_password: &SafeString, salt: Vec<u8>, iv: Vec<u8>) -> (r:
    Vec<u8>)
    requires
        salt@.len() == SALT_LEN,
        iv@.len() == IV_LEN,
    ensures
        r@ == assembled(CURRENT_VERSION, sealed(plaintext@, master_password@, salt@, iv@)),
        decoded(r@, master_password@) == Ok::<Seq<u8>, CodecError>(plaintext@),
{
    let body = encrypt_with(plaintext, master_password, salt, iv);
    proof {
        lemma_decoded_assembled(body@, master_password@);
    }
    assemble(CURRENT_VERSION, &body)
}

/// Encodes `plaintext` as a container of the current format, with a fresh random salt
/// and iv. Decoding the result under the same password gives the plaintext back.
///
/// Fails only when the operating system delivers no random bytes.
pub fn encode(plaintext: &SafeVec, master_password: &SafeString) -> (r: Result<Vec<u8>, CodecError>)
    ensures
        match r {
            Ok(bytes) => {
                &&& exists|salt: Seq<u8>, iv: Seq<u8>|
                    salt.len() == SALT_LEN && iv.len() == IV_LEN && bytes@ == assembled(
                        CURRENT_VERSION,
                        #[trigger] sealed(plaintext@, master_password@, salt, iv),
                    )
                &&& decoded(bytes@, master_password@) == Ok::<Seq<u8>, CodecError>(plaintext@)
            },
            Err(e) => e == CodecError::RandomSourceFailed,
        },
{
    match encrypt(plaintext, master_password) {
        Err(_) => Err(CodecError::RandomSourceFailed),
        Ok(body) => {
            proof {
                lemma_decoded_assembled(body@, master_password@);
            }
            let bytes = assemble(CURRENT_VERSION, &body);
            assert(bytes@ == assembled(
                CURRENT_VERSION,
                sealed(plaintext@, master_password@, body@.salt, body@.iv),
            ));
            Ok(bytes)
        },
    }
}

} // verus!

//! Migration: a container of the older format is opened and its records are brought
//! into the current shape.
//!
//! The older format has the layout of the current one under its own format tag. Its
//! plaintext holds the number of records (8 bytes, big-endian) and, for each record,
//! name, user name and password as length-prefixed UTF-8, without any time. A migrated
//! record is given the time of migration as the time at which it was made and last
//! changed.

use vstd::prelude::*;
use crate::codec::{open_payload, payload_of, version_of, HEADER_LEN, LEGACY_VERSION};
use crate::payload::{parsed_text, read_text};
use crate::record::{fresh, views, Record, RecordView};
use crate::safe_string::SafeString;
use crate::vault::{unique_names, Vault};
use crate::wire::{read_u32_be, read_u64_be, u64_from_be};

verus! {

/// Why a container could not be migrated.
#[derive(Debug, Clone, Copy, PartialEq, Eq)]
pub enum MigrationError {
    /// The container is of no older format that is known, or its content is not what
    /// that format holds.
    UnsupportedVersion,
    /// The container is of the older format and the password does not open it.
    WrongPassword,
}

/// The older record in front of `bytes`, in the current shape as migrated at `now`,
/// and the number of bytes that it takes, if such a record stands there.
#[verifier::opaque]
pub open spec fn parsed_legacy_record(bytes: Seq<u8>, now: i64) -> Option<(RecordView, int)> {
    match parsed_text(bytes) {
        None => None,
        Some((name, a)) => match parsed_text(bytes.skip(a)) {
            None => None,
            Some((username, b)) => match parsed_text(bytes.skip(a + b)) {
                None => None,
                Some((password, c)) => Some((fresh(name, username, password, now), a + b + c)),
            },
        },
    }
}

/// The `count` older records that `bytes` consist of, as migrated at `now`, if they
/// consist of exactly that.
pub open spec fn parsed_legacy_records(bytes: Seq<u8>, count: nat, now: i64) -> Option<Seq<RecordView>>
    decreases count,
{
    if count == 0 {
        if bytes.len() == 0 {
            Some(Seq::empty())
        } else {
            None
        }
    } else {
        match parsed_legacy_record(bytes, now) {
            None => None,
            Some((record, used)) => match parsed_legacy_records(
                bytes.skip(used),
                (count - 1) as nat,
                now,
            ) {
                None => None,
                Some(rest) => Some(seq![record] + rest),
            },
        }
    }
}

/// The records that the older plaintext `bytes` stands for, as migrated at `now`, if
/// it is well formed.
pub open spec fn legacy_deserialized(bytes: Seq<u8>, now: i64) -> Option<Seq<RecordView>> {
    if bytes.len() < 8 {
        None
    } else {
        parsed_legacy_records(bytes.skip(8), u64_from_be(bytes) as nat, now)
    }
}

/// What migrating the container `bytes` under `password` at `now` gives.
pub open spec fn upgraded(bytes: Seq<u8>, password: Seq<char>, now: i64) -> Result<
    Seq<RecordView>,
    MigrationError,
> {
    if bytes.len() < HEADER_LEN || version_of(bytes) != LEGACY_VERSION {
        Err(MigrationError::UnsupportedVersion)
    } else {
        match payload_of(bytes, password) {
            Err(_) => Err(MigrationError::WrongPassword),
            Ok(plaintext) => match legacy_deserialized(plaintext, now) {
                Some(records) => if unique_names(records) {
                    Ok(records)
                } else {
                    Err(MigrationError::UnsupportedVersion)
                },
                None => Err(MigrationError::UnsupportedVersion),
            },
        }
    }
}

/// Every migrated record carries the time of migration twice.
pub proof fn lemma_migrated_times(bytes: Seq<u8>, count: nat, now: i64)
    requires
        parsed_legacy_records(bytes, count, now) is Some,
    ensures
        forall|i: int|
            0 <= i < parsed_legacy_records(bytes, count, now).unwrap().len() ==> {
                &&& (#[trigger] parsed_legacy_records(bytes, count, now).unwrap()[i]).created_at == now
                &&& parsed_legacy_records(bytes, count, now).unwrap()[i].updated_at == now
            },
    decreases count,
{
    reveal(parsed_legacy_record);
    if count > 0 {
        let (record, used) = parsed_legacy_record(bytes, now).unwrap();
        lemma_migrated_times(bytes.skip(used), (count - 1) as nat, now);
    }
}

/// Reads the older record that stands at `pos`, and tells where it ends.
fn read_legacy_record(bytes: &[u8], pos: usize, now: i64) -> (r: Option<(Record, usize)>)
    requires
        pos <= bytes@.len(),
    ensures
        match r {
            Some((record, next)) => {
                &&& pos < next <= bytes@.len()
                &&& parsed_legacy_record(bytes@.skip(pos as int), now) == Some((record@, next - pos))
            },
            None => parsed_legacy_record(bytes@.skip(pos as int), now) is None,
        },
{
    reveal(parsed_legacy_record);
    reveal(parsed_text);
    let ghost rest = bytes@.skip(pos as int);
    let (name, after_name) = match read_text(bytes, pos) {
        Some(found) => found,
        None => {
            return None;
        },
    };
    assert(bytes@.skip(after_name as int) =~= rest.skip(after_name - pos));
    let (username, after_username) = match read_text(bytes, after_name) {
        Some(found) => found,
        None => {
            return None;
        },
    };
    assert(bytes@.skip(after_username as int) =~= rest.skip((after_name - pos) + (after_username
        - after_name)));
    let (password, after_password) = match read_text(bytes, after_username) {
        Some(found) => found,
        None => {
            return None;
        },
    };
    Some((Record::new(name, username, SafeString::new(password), now), after_password))
}

/// Reads an older plaintext as records migrated at `now`; nothing when it is not well
/// formed.
pub fn deserialize_legacy(bytes: &[u8], now: i64) -> (r: Option<Vec<Record>>)
    ensures
        match r {
            Some(records) => legacy_deserialized(bytes@, now) == Some(views(records@)),
            None => legacy_deserialized(bytes@, now) is None,
        },
{
    let len = bytes.len();
    if len < 8 {
        return None;
    }
    let count = read_u64_be(bytes);
    let mut out: Vec<Record> = Vec::new();
    let mut pos: usize = 8;
    let mut done: u64 = 0;
    assert(views(out@) =~= Seq::<RecordView>::empty());
    proof {
        let all = parsed_legacy_records(bytes@.skip(8), count as nat, now);
        if all is Some {
            assert(Seq::<RecordView>::empty() + all.unwrap() =~= all.unwrap());
        }
    }
    while done < count
        invariant
            len == bytes@.len(),
            8 <= pos <= len,
            done <= count,
            count == u64_from_be(bytes@),
            parsed_legacy_records(bytes@.skip(8), count as nat, now) == match parsed_legacy_records(
                bytes@.skip(pos as int),
                (count - done) as nat,
                now,
            ) {
                Some(rest) => Some(views(out@) + rest),
                None => None,
            },
        decreases count - done,
    {
        let ghost before = out@;
        match read_legacy_record(bytes, pos, now) {
            None => {
                return None;
            },
            Some((record, next)) => {
                proof {
                    assert(bytes@.skip(next as int) =~= bytes@.skip(pos as int).skip(next - pos));
                    let tail = parsed_legacy_records(
                        bytes@.skip(next as int),
                        (count - done - 1) as nat,
                        now,
                    );
                    if tail is Some {
                        assert(views(before.push(record)) + tail.unwrap() =~= views(before) + (
                        seq![record@] + tail.unwrap()));
                    }
                }
                out.push(record);
                pos = next;
                done += 1;
            },
        }
    }
    if pos != len {
        return None;
    }
    assert(bytes@.skip(pos as int) =~= Seq::<u8>::empty());
    assert(views(out@) + Seq::<RecordView>::empty() =~= views(out@));
    Some(out)
}

/// Migrates the container `bytes` of the older format into a vault keyed by
/// `master_password`; `now` is the time of migration.
pub fn upgrade(bytes: &[u8], master_password: SafeString, now: i64) -> (r: Result<Vault, MigrationError>)
    ensures
        match r {
            Ok(vault) => {
                &&& upgraded(bytes@, master_password@, now) == Ok::<Seq<RecordView>, MigrationError>(
                    vault@,
                )
                &&& vault.password() == master_password@
            },
            Err(e) => upgraded(bytes@, master_password@, now) == Err::<
                Seq<RecordView>,
                MigrationError,
            >(e),
        },
{
    if bytes.len() < HEADER_LEN || read_u32_be(bytes) != LEGACY_VERSION {
        return Err(MigrationError::UnsupportedVersion);
    }
    let plaintext = match open_payload(bytes, &master_password) {
        Ok(plaintext) => plaintext,
        Err(_) => {
            return Err(MigrationError::WrongPassword);
        },
    };
    let records = match deserialize_legacy(plaintext.as_slice(), now) {
        Some(records) => records,
        None => {
            return Err(MigrationError::UnsupportedVersion);
        },
    };
    match Vault::from_records(master_password, records) {
        Ok(vault) => Ok(vault),
        Err(_) => Err(MigrationError::UnsupportedVersion),
    }
}

} // verus!

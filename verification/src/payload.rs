//! The plaintext of a container: the records of a vault as one run of bytes.
//!
//! Layout: the number of records (8 bytes, big-endian), then each record as name,
//! user name and password, each a length (8 bytes, big-endian) followed by that many
//! bytes of UTF-8, and the two times (8 bytes each, big-endian, two's complement).

use vstd::prelude::*;
use vstd::slice::slice_subrange;
use vstd::utf8::{decode_utf8, encode_utf8, encode_utf8_decode_utf8, encode_utf8_valid_utf8, valid_utf8};
use crate::record::{views, Record, RecordView};
use crate::safe_string::{string_from_utf8, SafeString};
use crate::safe_vec::SafeVec;
use crate::wire::{
    lemma_u64_from_prefix, lemma_u64_round_trip, push_u64, read_u64_be, u64_from_be, u64_to_be,
};

verus! {

/// The bytes of a text: its length in bytes, then its UTF-8 encoding.
#[verifier::opaque]
pub open spec fn text_bytes(text: Seq<char>) -> Seq<u8> {
    u64_to_be(encode_utf8(text).len() as u64) + encode_utf8(text)
}

/// The bytes of a time.
pub open spec fn time_bytes(time: i64) -> Seq<u8> {
    u64_to_be(time as u64)
}

/// The bytes of a record.
#[verifier::opaque]
pub open spec fn record_bytes(record: RecordView) -> Seq<u8> {
    text_bytes(record.name) + text_bytes(record.username) + text_bytes(record.password)
        + time_bytes(record.created_at) + time_bytes(record.updated_at)
}

/// The bytes of a run of records, one after the other.
pub open spec fn records_bytes(records: Seq<RecordView>) -> Seq<u8>
    decreases records.len(),
{
    if records.len() == 0 {
        Seq::empty()
    } else {
        record_bytes(records[0]) + records_bytes(records.drop_first())
    }
}

/// The plaintext that stands for `records`.
pub open spec fn serialized(records: Seq<RecordView>) -> Seq<u8> {
    u64_to_be(records.len() as u64) + records_bytes(records)
}

/// True when the length of each text of `record` fits the eight bytes that the layout
/// gives it.
pub open spec fn fits(record: RecordView) -> bool {
    &&& encode_utf8(record.name).len() <= u64::MAX
    &&& encode_utf8(record.username).len() <= u64::MAX
    &&& encode_utf8(record.password).len() <= u64::MAX
}

/// True when every length that the layout writes fits its eight bytes.
pub open spec fn representable(records: Seq<RecordView>) -> bool {
    &&& records.len() <= u64::MAX
    &&& forall|i: int| 0 <= i < records.len() ==> fits(#[trigger] records[i])
}

/// The text in front of `bytes` and the number of bytes that it takes, if a text
/// stands there.
#[verifier::opaque]
pub open spec fn parsed_text(bytes: Seq<u8>) -> Option<(Seq<char>, int)> {
    if bytes.len() < 8 {
        None
    } else {
        let n = u64_from_be(bytes) as int;
        if bytes.len() - 8 < n {
            None
        } else if valid_utf8(bytes.subrange(8, 8 + n)) {
            Some((decode_utf8(bytes.subrange(8, 8 + n)), 8 + n))
        } else {
            None
        }
    }
}

/// The record in front of `bytes` and the number of bytes that it takes, if a record
/// stands there.
#[verifier::opaque]
pub open spec fn parsed_record(bytes: Seq<u8>) -> Option<(RecordView, int)> {
    match parsed_text(bytes) {
        None => None,
        Some((name, a)) => match parsed_text(bytes.skip(a)) {
            None => None,
            Some((username, b)) => match parsed_text(bytes.skip(a + b)) {
                None => None,
                Some((password, c)) => {
                    let times = bytes.skip(a + b + c);
                    if times.len() < 16 {
                        None
                    } else {
                        Some(
                            (
                                RecordView {
                                    name,
                                    username,
                                    password,
                                    created_at: u64_from_be(times) as i64,
                                    updated_at: u64_from_be(times.skip(8)) as i64,
                                },
                                a + b + c + 16,
                            ),
                        )
                    }
                },
            },
        },
    }
}

/// The `count` records that `bytes` consist of, if they consist of exactly that.
pub open spec fn parsed_records(bytes: Seq<u8>, count: nat) -> Option<Seq<RecordView>>
    decreases count,
{
    if count == 0 {
        if bytes.len() == 0 {
            Some(Seq::empty())
        } else {
            None
        }
    } else {
        match parsed_record(bytes) {
            None => None,
            Some((record, used)) => match parsed_records(bytes.skip(used), (count - 1) as nat) {
                None => None,
                Some(rest) => Some(seq![record] + rest),
            },
        }
    }
}

/// The records that the plaintext `bytes` stands for, if it is well formed.
pub open spec fn deserialized(bytes: Seq<u8>) -> Option<Seq<RecordView>> {
    if bytes.len() < 8 {
        None
    } else {
        parsed_records(bytes.skip(8), u64_from_be(bytes) as nat)
    }
}

/// A text is read back from its bytes, whatever follows them.
pub proof fn lemma_parsed_text(text: Seq<char>, tail: Seq<u8>)
    requires
        encode_utf8(text).len() <= u64::MAX,
    ensures
        parsed_text(text_bytes(text) + tail) == Some((text, text_bytes(text).len() as int)),
        text_bytes(text).len() == 8 + encode_utf8(text).len(),
{
    reveal(text_bytes);
    reveal(parsed_text);
    let raw = encode_utf8(text);
    let n = raw.len() as u64;
    let bytes = text_bytes(text) + tail;
    lemma_u64_round_trip(n);
    lemma_u64_from_prefix(u64_to_be(n), raw + tail);
    assert(bytes =~= u64_to_be(n) + (raw + tail));
    assert(bytes.subrange(8, 8 + n) =~= raw);
    encode_utf8_valid_utf8(text);
    encode_utf8_decode_utf8(text);
}

/// A time is read back from its bytes, whatever follows them.
pub proof fn lemma_parsed_time(time: i64, tail: Seq<u8>)
    ensures
        time_bytes(time).len() == 8,
        u64_from_be(time_bytes(time) + tail) as i64 == time,
{
    lemma_u64_round_trip(time as u64);
    lemma_u64_from_prefix(time_bytes(time), tail);
    assert((time as u64) as i64 == time) by (bit_vector);
}

/// A record is read back from its bytes, whatever follows them.
pub proof fn lemma_parsed_record(record: RecordView, tail: Seq<u8>)
    requires
        fits(record),
    ensures
        parsed_record(record_bytes(record) + tail) == Some((record, record_bytes(record).len() as int)),
        (record_bytes(record) + tail).skip(record_bytes(record).len() as int) == tail,
{
    reveal(record_bytes);
    reveal(parsed_record);
    let name = text_bytes(record.name);
    let username = text_bytes(record.username);
    let password = text_bytes(record.password);
    let created = time_bytes(record.created_at);
    let updated = time_bytes(record.updated_at);
    let bytes = record_bytes(record) + tail;
    let a = name.len() as int;
    let b = username.len() as int;
    let c = password.len() as int;
    lemma_parsed_text(record.name, username + password + created + updated + tail);
    assert(bytes =~= name + (username + password + created + updated + tail));
    lemma_parsed_text(record.username, password + created + updated + tail);
    assert(bytes.skip(a) =~= username + (password + created + updated + tail));
    lemma_parsed_text(record.password, created + updated + tail);
    assert(bytes.skip(a + b) =~= password + (created + updated + tail));
    lemma_parsed_time(record.created_at, updated + tail);
    assert(bytes.skip(a + b + c) =~= created + (updated + tail));
    lemma_parsed_time(record.updated_at, tail);
    assert(bytes.skip(a + b + c).skip(8) =~= updated + tail);
    assert(bytes.skip(record_bytes(record).len() as int) =~= tail);
}

/// Records are read back from their bytes.
pub proof fn lemma_parsed_records(records: Seq<RecordView>)
    requires
        representable(records),
    ensures
        parsed_records(records_bytes(records), records.len()) == Some(records),
    decreases records.len(),
{
    if records.len() > 0 {
        let first = records[0];
        let rest = records.drop_first();
        assert(representable(rest)) by {
            assert forall|i: int| 0 <= i < rest.len() implies fits(#[trigger] rest[i]) by {
                assert(rest[i] == records[i + 1]);
            }
        }
        lemma_parsed_record(first, records_bytes(rest));
        lemma_parsed_records(rest);
        assert(seq![first] + rest =~= records);
    }
}

/// Reading what was written gives the records back.
pub proof fn lemma_deserialized_serialized(records: Seq<RecordView>)
    requires
        representable(records),
    ensures
        deserialized(serialized(records)) == Some(records),
{
    let n = records.len() as u64;
    lemma_u64_round_trip(n);
    lemma_u64_from_prefix(u64_to_be(n), records_bytes(records));
    assert(serialized(records).skip(8) =~= records_bytes(records));
    lemma_parsed_records(records);
}

/// The bytes of records with one more at the end are the bytes of the records, then
/// those of the one.
pub proof fn lemma_records_bytes_push(records: Seq<RecordView>, last: RecordView)
    ensures
        records_bytes(records.push(last)) == records_bytes(records) + record_bytes(last),
    decreases records.len(),
{
    if records.len() == 0 {
        assert(records.push(last).drop_first() =~= Seq::<RecordView>::empty());
        assert(records_bytes(records.push(last).drop_first()) =~= Seq::<u8>::empty());
        assert(records.push(last)[0] == last);
        assert(records_bytes(records.push(last)) =~= record_bytes(last));
        assert(records_bytes(records) + record_bytes(last) =~= record_bytes(last));
    } else {
        assert(records.push(last).drop_first() =~= records.drop_first().push(last));
        lemma_records_bytes_push(records.drop_first(), last);
        assert(records_bytes(records.push(last)) =~= records_bytes(records) + record_bytes(last));
    }
}

/// Appends the bytes of `text` to `out`.
fn write_text(out: &mut Vec<u8>, text: &str)
    ensures
        final(out)@ == old(out)@ + text_bytes(text@),
        encode_utf8(text@).len() <= u64::MAX,
{
    let raw = text.as_bytes();
    push_u64(out, raw.len() as u64);
    out.extend_from_slice(raw);
    reveal(text_bytes);
    assert(out@ =~= old(out)@ + text_bytes(text@));
}

/// Appends the bytes of `record` to `out`.
fn write_record(out: &mut Vec<u8>, record: &Record)
    ensures
        final(out)@ == old(out)@ + record_bytes(record@),
        fits(record@),
{
    write_text(out, record.name.as_str());
    write_text(out, record.username.as_str());
    write_text(out, record.password.as_str());
    push_u64(out, record.created_at as u64);
    push_u64(out, record.updated_at as u64);
    reveal(record_bytes);
    assert(out@ =~= old(out)@ + record_bytes(record@));
}

/// Writes `records` as a plaintext.
pub fn serialize(records: &Vec<Record>) -> (r: SafeVec)
    ensures
        r@ == serialized(views(records@)),
        deserialized(r@) == Some(views(records@)),
{
    let n = records.len();
    let mut out = SafeVec::new(Vec::new());
    push_u64(&mut out.inner, n as u64);
    let mut i: usize = 0;
    assert(views(records@).take(0) =~= Seq::<RecordView>::empty());
    while i < n
        invariant
            n == records@.len(),
            i <= n,
            out@ == u64_to_be(n as u64) + records_bytes(views(records@).take(i as int)),
            forall|k: int| 0 <= k < i ==> fits(#[trigger] views(records@)[k]),
        decreases n - i,
    {
        write_record(&mut out.inner, &records[i]);
        proof {
            lemma_records_bytes_push(views(records@).take(i as int), records@[i as int]@);
            assert(views(records@).take(i + 1) =~= views(records@).take(i as int).push(
                records@[i as int]@,
            ));
        }
        i += 1;
    }
    proof {
        assert(views(records@).take(n as int) =~= views(records@));
        lemma_deserialized_serialized(views(records@));
    }
    out
}

/// Reads the text that stands at `pos`, and tells where it ends.
pub(crate) fn read_text(bytes: &[u8], pos: usize) -> (r: Option<(String, usize)>)
    requires
        pos <= bytes@.len(),
    ensures
        match r {
            Some((text, next)) => {
                &&& pos <= next <= bytes@.len()
                &&& parsed_text(bytes@.skip(pos as int)) == Some((text@, next - pos))
            },
            None => parsed_text(bytes@.skip(pos as int)) is None,
        },
{
    reveal(parsed_text);
    let len = bytes.len();
    let ghost rest = bytes@.skip(pos as int);
    if len - pos < 8 {
        return None;
    }
    let tail = slice_subrange(bytes, pos, len);
    assert(tail@ =~= rest);
    let n = read_u64_be(tail);
    if ((len - pos - 8) as u64) < n {
        return None;
    }
    let start: usize = pos + 8;
    let end: usize = start + n as usize;
    let mut raw: Vec<u8> = Vec::new();
    raw.extend_from_slice(slice_subrange(bytes, start, end));
    assert(raw@ =~= rest.subrange(8, 8 + n));
    match string_from_utf8(raw) {
        Some(text) => Some((text, end)),
        None => None,
    }
}

/// Reads the record that stands at `pos`, and tells where it ends.
fn read_record(bytes: &[u8], pos: usize) -> (r: Option<(Record, usize)>)
    requires
        pos <= bytes@.len(),
    ensures
        match r {
            Some((record, next)) => {
                &&& pos < next <= bytes@.len()
                &&& parsed_record(bytes@.skip(pos as int)) == Some((record@, next - pos))
            },
            None => parsed_record(bytes@.skip(pos as int)) is None,
        },
{
    reveal(parsed_record);
    let len = bytes.len();
    let ghost rest = bytes@.skip(pos as int);
    let (name, after_name) = match read_text(bytes, pos) {
        Some(found) => found,
        None => {
            return None;
        },
    };
    assert(bytes@.skip(after_name as int) =~= rest.skip(after_name - pos));
    let (username, after_username) = match read_text(bytes, after_name) {
        Some(found) => found,
        None => {
            return None;
        },
    };
    assert(bytes@.skip(after_username as int) =~= rest.skip((after_name - pos) + (after_username
        - after_name)));
    let (password, after_password) = match read_text(bytes, after_username) {
        Some(found) => found,
        None => {
            return None;
        },
    };
    let password = SafeString::new(password);
    let ghost times = rest.skip((after_name - pos) + (after_username - after_name) + (after_password
        - after_username));
    assert(bytes@.skip(after_password as int) =~= times);
    if len - after_password < 16 {
        return None;
    }
    let created = slice_subrange(bytes, after_password, len);
    assert(created@ =~= times);
    let updated = slice_subrange(bytes, after_password + 8, len);
    assert(updated@ =~= times.skip(8));
    let created_at = read_u64_be(created) as i64;
    let updated_at = read_u64_be(updated) as i64;
    Some((Record { name, username, password, created_at, updated_at }, after_password + 16))
}

/// Reads a plaintext as records; nothing when it is not well formed.
pub fn deserialize(bytes: &[u8]) -> (r: Option<Vec<Record>>)
    ensures
        match r {
            Some(records) => deserialized(bytes@) == Some(views(records@)),
            None => deserialized(bytes@) is None,
        },
{
    let len = bytes.len();
    if len < 8 {
        return None;
    }
    let count = read_u64_be(bytes);
    let mut out: Vec<Record> = Vec::new();
    let mut pos: usize = 8;
    let mut done: u64 = 0;
    assert(views(out@) =~= Seq::<RecordView>::empty());
    proof {
        let all = parsed_records(bytes@.skip(8), count as nat);
        if all is Some {
            assert(Seq::<RecordView>::empty() + all.unwrap() =~= all.unwrap());
        }
    }
    while done < count
        invariant
            len == bytes@.len(),
            8 <= pos <= len,
            done <= count,
            count == u64_from_be(bytes@),
            parsed_records(bytes@.skip(8), count as nat) == match parsed_records(
                bytes@.skip(pos as int),
                (count - done) as nat,
            ) {
                Some(rest) => Some(views(out@) + rest),
                None => None,
            },
        decreases count - done,
    {
        let ghost before = out@;
        match read_record(bytes, pos) {
            None => {
                return None;
            },
            Some((record, next)) => {
                proof {
                    assert(bytes@.skip(next as int) =~= bytes@.skip(pos as int).skip(next - pos));
                    let tail = parsed_records(bytes@.skip(next as int), (count - done - 1) as nat);
                    if tail is Some {
                        assert(views(before.push(record)) + tail.unwrap() =~= views(before) + (
                        seq![record@] + tail.unwrap()));
                    }
                }
                out.push(record);
                pos = next;
                done += 1;
            },
        }
    }
    if pos != len {
        return None;
    }
    assert(bytes@.skip(pos as int) =~= Seq::<u8>::empty());
    assert(views(out@) + Seq::<RecordView>::empty() =~= views(out@));
    Some(out)
}

} // verus!

//! The vault: the records of one user, in the order in which they were added, no two
//! under the same name.
//!
//! Names are compared exactly, character by character: `GitHub` and `github` are two
//! names.

use vstd::prelude::*;
use crate::cipher::{sealed, tag_of, IV_LEN, SALT_LEN};
use crate::codec::{
    assembled, body_of, decode, decoded, encode, encode_with, lemma_tampered_ciphertext_rejected,
    lemma_tampered_tag_rejected, CodecError, CURRENT_VERSION, HEADER_LEN,
};
use crate::payload::{deserialize, deserialized, serialize, serialized};
use crate::record::{fresh, stamped, views, Record, RecordView};
use crate::safe_string::SafeString;

verus! {

/// Why a vault operation changed nothing.
#[derive(Debug, Clone, Copy, PartialEq, Eq)]
pub enum VaultError {
    /// A record of that name is already there.
    DuplicateName,
    /// No record of that name is there.
    NotFound,
}

/// True when some record of `records` goes by `name`.
pub open spec fn has_name(records: Seq<RecordView>, name: Seq<char>) -> bool {
    exists|i: int| 0 <= i < records.len() && #[trigger] records[i].name == name
}

/// True when no two records of `records` share a name.
pub open spec fn unique_names(records: Seq<RecordView>) -> bool {
    forall|i: int, j: int|
        0 <= i < records.len() && 0 <= j < records.len() && i != j ==> #[trigger] records[i].name
            != #[trigger] records[j].name
}

/// The names of `records`, in order.
pub open spec fn names(records: Seq<RecordView>) -> Seq<Seq<char>> {
    records.map_values(|r: RecordView| r.name)
}

/// The records of `records` that go by `name`, in order: at most one where names are
/// unique.
pub open spec fn matching(records: Seq<RecordView>, name: Seq<char>) -> Seq<RecordView> {
    records.filter(|r: RecordView| r.name == name)
}

/// True when `after` is what `transform` can make of a record that reads `before`,
/// with the time of last change set to `now`.
pub open spec fn is_replacement<F: Fn(Record) -> Record>(
    transform: F,
    before: RecordView,
    after: RecordView,
    now: i64,
) -> bool {
    exists|given: Record, made: Record|
        given@ == before && #[trigger] call_ensures(transform, (given,), made) && after == stamped(
            made@,
            now,
        )
}

/// What loading the container `bytes` under `password` gives: the records that its
/// plaintext stands for. A plaintext that is not well formed, or that holds a name
/// twice, makes the container `Corrupt`.
pub open spec fn loaded(bytes: Seq<u8>, password: Seq<char>) -> Result<Seq<RecordView>, CodecError> {
    match decoded(bytes, password) {
        Err(e) => Err(e),
        Ok(plaintext) => match deserialized(plaintext) {
            Some(records) => if unique_names(records) {
                Ok(records)
            } else {
                Err(CodecError::Corrupt)
            },
            None => Err(CodecError::Corrupt),
        },
    }
}

/// The in-memory set of records, with the master password that keys it.
pub struct Vault {
    master_password: SafeString,
    records: Vec<Record>,
}

impl View for Vault {
    type V = Seq<RecordView>;

    closed spec fn view(&self) -> Seq<RecordView> {
        views(self.records@)
    }
}

impl Vault {
    #[verifier::type_invariant]
    spec fn names_are_unique(&self) -> bool {
        unique_names(views(self.records@))
    }

    /// The master password that keys this vault.
    pub closed spec fn password(&self) -> Seq<char> {
        self.master_password@
    }

    /// An empty vault keyed by `master_password`.
    pub fn new(master_password: SafeString) -> (r: Vault)
        ensures
            r@ == Seq::<RecordView>::empty(),
            r.password() == master_password@,
    {
        let records: Vec<Record> = Vec::new();
        assert(views(records@) =~= Seq::<RecordView>::empty());
        Vault { master_password, records }
    }

    /// A vault keyed by `master_password` that holds `records`, in their order; fails
    /// with `DuplicateName` exactly when two of them share a name.
    pub fn from_records(master_password: SafeString, records: Vec<Record>) -> (r: Result<Vault, VaultError>)
        ensures
            match r {
                Ok(vault) => {
                    &&& unique_names(views(records@))
                    &&& vault@ == views(records@)
                    &&& vault.password() == master_password@
                },
                Err(e) => e == VaultError::DuplicateName && !unique_names(views(records@)),
            },
    {
        let n = records.len();
        let mut i: usize = 0;
        while i < n
            invariant
                n == records@.len(),
                i <= n,
                forall|a: int, b: int|
                    0 <= a < b < i ==> #[trigger] views(records@)[a].name != #[trigger] views(
                        records@,
                    )[b].name,
            decreases n - i,
        {
            let mut j: usize = 0;
            while j < i
                invariant
                    n == records@.len(),
                    j <= i < n,
                    forall|a: int| 0 <= a < j ==> #[trigger] views(records@)[a].name != views(records@)[i as int].name,
                decreases i - j,
            {
                if records[j].name == records[i].name {
                    assert(views(records@)[j as int].name == views(records@)[i as int].name);
                    return Err(VaultError::DuplicateName);
                }
                j += 1;
            }
            i += 1;
        }
        Ok(Vault { master_password, records })
    }

    /// Loads the vault that the container `bytes` holds under `master_password`.
    pub fn from_bytes(master_password: SafeString, bytes: &[u8]) -> (r: Result<Vault, CodecError>)
        ensures
            match r {
                Ok(vault) => {
                    &&& loaded(bytes@, master_password@) == Ok::<Seq<RecordView>, CodecError>(vault@)
                    &&& vault.password() == master_password@
                },
                Err(e) => loaded(bytes@, master_password@) == Err::<Seq<RecordView>, CodecError>(e),
            },
    {
        let plaintext = match decode(bytes, &master_password) {
            Ok(plaintext) => plaintext,
            Err(e) => {
                return Err(e);
            },
        };
        let records = match deserialize(plaintext.as_slice()) {
            Some(records) => records,
            None => {
                return Err(CodecError::Corrupt);
            },
        };
        match Vault::from_records(master_password, records) {
            Ok(vault) => Ok(vault),
            Err(_) => Err(CodecError::Corrupt),
        }
    }

    /// The container that holds this vault, sealed with the given salt and iv. Loading
    /// it under the master password gives these records again.
    pub fn to_bytes_with(&self, salt: Vec<u8>, iv: Vec<u8>) -> (r: Vec<u8>)
        requires
            salt@.len() == SALT_LEN,
            iv@.len() == IV_LEN,
        ensures
            r@ == assembled(
                CURRENT_VERSION,
                sealed(serialized(self@), self.password(), salt@, iv@),
            ),
            loaded(r@, self.password()) == Ok::<Seq<RecordView>, CodecError>(self@),
    {
        proof {
            use_type_invariant(self);
        }
        let plaintext = serialize(&self.records);
        encode_with(&plaintext, &self.master_password, salt, iv)
    }

    /// The container that holds this vault, sealed with a fresh salt and iv. Loading it
    /// under the master password gives these records again.
    ///
    /// Fails only when the operating system delivers no random bytes.
    pub fn to_bytes(&self) -> (r: Result<Vec<u8>, CodecError>)
        ensures
            match r {
                Ok(bytes) => loaded(bytes@, self.password()) == Ok::<Seq<RecordView>, CodecError>(
                    self@,
                ),
                Err(e) => e == CodecError::RandomSourceFailed,
            },
    {
        proof {
            use_type_invariant(self);
        }
        let plaintext = serialize(&self.records);
        encode(&plaintext, &self.master_password)
    }

    /// Replaces the whole content of `target` by the container that holds this vault.
    /// On failure `target` is left as it was.
    pub fn sync(&self, target: &mut Vec<u8>) -> (r: Result<(), CodecError>)
        ensures
            match r {
                Ok(()) => loaded(final(target)@, self.password()) == Ok::<
                    Seq<RecordView>,
                    CodecError,
                >(self@),
                Err(e) => e == CodecError::RandomSourceFailed && final(target)@ == old(target)@,
            },
    {
        match self.to_bytes() {
            Ok(bytes) => {
                *target = bytes;
                Ok(())
            },
            Err(e) => Err(e),
        }
    }

    /// The master password that keys this vault.
    pub fn master_password(&self) -> (r: &SafeString)
        ensures
            r@ == self.password(),
    {
        &self.master_password
    }

    /// The number of records.
    pub fn len(&self) -> (r: usize)
        ensures
            r == self@.len(),
    {
        self.records.len()
    }

    /// Moves the records out, leaving none behind.
    fn take_records(&mut self) -> (r: Vec<Record>)
        ensures
            r == old(self).records,
            final(self).records@.len() == 0,
            final(self).master_password == old(self).master_password,
    {
        let mut records: Vec<Record> = Vec::new();
        assert(views(records@) =~= Seq::<RecordView>::empty());
        core::mem::swap(&mut self.records, &mut records);
        records
    }

    /// Where the record named `name` stands, if there is one.
    fn position(&self, name: &String) -> (r: Option<usize>)
        ensures
            match r {
                Some(i) => i < self@.len() && self@[i as int].name == name@,
                None => !has_name(self@, name@),
            },
    {
        let n = self.records.len();
        let mut i: usize = 0;
        while i < n
            invariant
                n == self.records@.len(),
                i <= n,
                forall|k: int| 0 <= k < i ==> (#[trigger] views(self.records@)[k]).name != name@,
            decreases n - i,
        {
            if self.records[i].name == *name {
                return Some(i);
            }
            i += 1;
        }
        None
    }

    /// True when a record goes by `name`.
    pub fn contains(&self, name: &str) -> (r: bool)
        ensures
            r == has_name(self@, name@),
    {
        let wanted = name.to_owned();
        self.position(&wanted).is_some()
    }

    /// Appends a record made at `now`; fails with `DuplicateName`, changing nothing,
    /// exactly when a record already goes by `name`.
    pub fn add(&mut self, name: &str, username: &str, password: SafeString, now: i64) -> (r: Result<
        (),
        VaultError,
    >)
        ensures
            final(self).password() == old(self).password(),
            unique_names(old(self)@),
            unique_names(final(self)@),
            match r {
                Ok(()) => {
                    &&& !has_name(old(self)@, name@)
                    &&& final(self)@ == old(self)@.push(fresh(name@, username@, password@, now))
                },
                Err(e) => {
                    &&& e == VaultError::DuplicateName
                    &&& has_name(old(self)@, name@)
                    &&& final(self)@ == old(self)@
                },
            },
    {
        proof {
            use_type_invariant(&*self);
        }
        let wanted = name.to_owned();
        if self.position(&wanted).is_some() {
            return Err(VaultError::DuplicateName);
        }
        let record = Record::new(wanted, username.to_owned(), password, now);
        let ghost before = self.records@;
        let mut records = self.take_records();
        records.push(record);
        assert(views(records@) =~= views(before).push(record@));
        self.records = records;
        proof {
            use_type_invariant(&*self);
        }
        Ok(())
    }

    /// Copies of the records that go by `name`: one, or none.
    pub fn find(&self, name: &str) -> (r: Vec<Record>)
        ensures
            views(r@) == matching(self@, name@),
            r@.len() <= 1,
            r@.len() == 1 <==> has_name(self@, name@),
            forall|i: int| 0 <= i < self@.len() && #[trigger] self@[i].name == name@ ==> views(r@) == seq![self@[i]],
    {
        proof {
            use_type_invariant(self);
        }
        let wanted = name.to_owned();
        let mut found: Vec<Record> = Vec::new();
        match self.position(&wanted) {
            Some(i) => {
                found.push(self.records[i].duplicate());
                proof {
                    lemma_matching_unique(self@, i as int);
                    assert(views(found@) =~= seq![self@[i as int]]);
                }
            },
            None => {
                proof {
                    lemma_matching_absent(self@, name@);
                    assert(views(found@) =~= Seq::<RecordView>::empty());
                }
            },
        }
        found
    }

    /// Copies of all records, in the order in which they were added. No two of them
    /// share a name.
    pub fn list(&self) -> (r: Vec<Record>)
        ensures
            views(r@) == self@,
            unique_names(self@),
    {
        proof {
            use_type_invariant(self);
        }
        let n = self.records.len();
        let mut out: Vec<Record> = Vec::new();
        let mut i: usize = 0;
        while i < n
            invariant
                n == self.records@.len(),
                i <= n,
                out@.len() == i,
                views(out@) == views(self.records@).subrange(0, i as int),
            decreases n - i,
        {
            let ghost before = out@;
            let copy = self.records[i].duplicate();
            out.push(copy);
            assert forall|k: int| 0 <= k < i + 1 implies views(out@)[k] == views(self.records@)[k] by {
                if k < i {
                    assert(views(before)[k] == views(self.records@).subrange(0, i as int)[k]);
                }
            }
            assert(views(out@) =~= views(self.records@).subrange(0, i + 1));
            i += 1;
        }
        assert(views(self.records@).subrange(0, n as int) =~= views(self.records@));
        out
    }

    /// Removes the record named `name` and returns it; fails with `NotFound`, changing
    /// nothing, exactly when no record goes by that name.
    pub fn delete(&mut self, name: &str) -> (r: Result<Record, VaultError>)
        ensures
            final(self).password() == old(self).password(),
            unique_names(old(self)@),
            unique_names(final(self)@),
            match r {
                Ok(record) => exists|i: int|
                    {
                        &&& 0 <= i < old(self)@.len()
                        &&& #[trigger] old(self)@[i] == record@
                        &&& record@.name == name@
                        &&& final(self)@ == old(self)@.remove(i)
                    },
                Err(e) => {
                    &&& e == VaultError::NotFound
                    &&& !has_name(old(self)@, name@)
                    &&& final(self)@ == old(self)@
                },
            },
    {
        proof {
            use_type_invariant(&*self);
        }
        let wanted = name.to_owned();
        match self.position(&wanted) {
            None => Err(VaultError::NotFound),
            Some(i) => {
                let ghost before = self.records@;
                assert(views(before.remove(i as int)) =~= views(before).remove(i as int));
                let mut records = self.take_records();
                let record = records.remove(i);
                self.records = records;
                assert(views(before)[i as int] == record@);
                proof {
                    use_type_invariant(&*self);
                }
                Ok(record)
            },
        }
    }

    /// Replaces the record named `name` by what `transform` makes of it, with the time
    /// of last change set to `now`; the record keeps its place.
    ///
    /// Fails with `NotFound` exactly when no record goes by `name`, and with
    /// `DuplicateName` when the replacement takes the name of another record. A
    /// failure changes nothing.
    pub fn change<F: Fn(Record) -> Record>(&mut self, name: &str, transform: F, now: i64) -> (r: Result<
        Record,
        VaultError,
    >)
        requires
            forall|given: Record| call_requires(transform, (given,)),
        ensures
            final(self).password() == old(self).password(),
            unique_names(old(self)@),
            unique_names(final(self)@),
            match r {
                Ok(record) => exists|i: int|
                    {
                        &&& 0 <= i < old(self)@.len()
                        &&& (#[trigger] old(self)@[i]).name == name@
                        &&& is_replacement(transform, old(self)@[i], record@, now)
                        &&& final(self)@ == old(self)@.update(i, record@)
                    },
                Err(VaultError::NotFound) => !has_name(old(self)@, name@) && final(self)@ == old(self)@,
                Err(VaultError::DuplicateName) => {
                    &&& final(self)@ == old(self)@
                    &&& exists|i: int, taken: RecordView|
                        {
                            &&& 0 <= i < old(self)@.len()
                            &&& (#[trigger] old(self)@[i]).name == name@
                            &&& #[trigger] is_replacement(transform, old(self)@[i], taken, now)
                            &&& taken.name != name@
                            &&& has_name(old(self)@, taken.name)
                        }
                },
            },
    {
        proof {
            use_type_invariant(&*self);
        }
        let wanted = name.to_owned();
        match self.position(&wanted) {
            None => Err(VaultError::NotFound),
            Some(i) => {
                let ghost before = self.records@;
                let given = self.records[i].duplicate();
                let made = transform(given);
                let replacement = Record {
                    name: made.name,
                    username: made.username,
                    password: made.password,
                    created_at: made.created_at,
                    updated_at: now,
                };
                assert(replacement@ == stamped(made@, now));
                assert(is_replacement(transform, views(before)[i as int], replacement@, now));
                if replacement.name != wanted && self.position(&replacement.name).is_some() {
                    return Err(VaultError::DuplicateName);
                }
                let result = replacement.duplicate();
                let mut records = self.take_records();
                records.remove(i);
                records.insert(i, replacement);
                assert(views(records@) =~= views(before).update(i as int, replacement@));
                self.records = records;
                proof {
                    use_type_invariant(&*self);
                }
                Ok(result)
            },
        }
    }
}

/// No vault is loaded from a container of which one byte of the integrity tag or of
/// the ciphertext was changed, unless the altered ciphertext happens to carry the
/// integrity tag that is stored.
pub proof fn lemma_tampered_container_not_loaded(bytes: Seq<u8>, password: Seq<char>, at: int, byte: u8)
    requires
        loaded(bytes, password) is Ok,
        52 <= at < bytes.len(),
        byte != bytes[at],
        at >= HEADER_LEN ==> tag_of(
            password,
            body_of(bytes).salt,
            body_of(bytes).iv,
            body_of(bytes).ciphertext.update(at - 116, byte),
        ) != body_of(bytes).integrity_tag,
    ensures
        loaded(bytes.update(at, byte), password) == Err::<Seq<RecordView>, CodecError>(
            CodecError::WrongPassword,
        ),
{
    if at < HEADER_LEN {
        lemma_tampered_tag_rejected(bytes, password, at, byte);
    } else {
        lemma_tampered_ciphertext_rejected(bytes, password, at, byte);
    }
}

/// Once a record was added under a name, the name is taken: adding under it again
/// fails with `DuplicateName`.
pub proof fn lemma_added_name_is_taken(records: Seq<RecordView>, record: RecordView)
    ensures
        has_name(records.push(record), record.name),
{
    assert(records.push(record)[records.len() as int].name == record.name);
}

/// A change keeps the time at which the record was made, where the transform keeps it,
/// and sets the time of last change to `now`: later than or equal to the one before,
/// where the clock did not go back.
pub proof fn lemma_change_times<F: Fn(Record) -> Record>(
    transform: F,
    before: RecordView,
    after: RecordView,
    now: i64,
)
    requires
        is_replacement(transform, before, after, now),
        forall|given: Record, made: Record| #[trigger]
            call_ensures(transform, (given,), made) ==> made@.created_at == given@.created_at,
        before.updated_at <= now,
    ensures
        after.created_at == before.created_at,
        after.updated_at == now,
        before.updated_at <= after.updated_at,
{
}

/// Once the record of a name was deleted, no record goes by that name: looking for it
/// finds nothing.
pub proof fn lemma_deleted_name_is_gone(records: Seq<RecordView>, i: int)
    requires
        unique_names(records),
        0 <= i < records.len(),
    ensures
        !has_name(records.remove(i), records[i].name),
        matching(records.remove(i), records[i].name) == Seq::<RecordView>::empty(),
        unique_names(records.remove(i)),
{
    let rest = records.remove(i);
    let name = records[i].name;
    assert forall|k: int| 0 <= k < rest.len() implies (#[trigger] rest[k]).name != name by {
        if k < i {
            assert(rest[k] == records[k]);
        } else {
            assert(rest[k] == records[k + 1]);
        }
    }
    lemma_matching_absent(rest, name);
    assert forall|a: int, b: int| 0 <= a < rest.len() && 0 <= b < rest.len() && a != b implies (
    #[trigger] rest[a]).name != (#[trigger] rest[b]).name by {
        let a0 = if a < i { a } else { a + 1 };
        let b0 = if b < i { b } else { b + 1 };
        assert(rest[a] == records[a0]);
        assert(rest[b] == records[b0]);
    }
}

/// A change that keeps the name of the record keeps the names of all records, in
/// their order.
pub proof fn lemma_change_keeps_order(records: Seq<RecordView>, i: int, replacement: RecordView)
    requires
        0 <= i < records.len(),
        replacement.name == records[i].name,
    ensures
        names(records.update(i, replacement)) == names(records),
        unique_names(records) ==> unique_names(records.update(i, replacement)),
{
    let changed = records.update(i, replacement);
    assert(names(changed) =~= names(records));
    if unique_names(records) {
        assert forall|a: int, b: int|
            0 <= a < changed.len() && 0 <= b < changed.len() && a != b implies (#[trigger] changed[a]).name
            != (#[trigger] changed[b]).name by {
            assert(changed[a].name == records[a].name);
            assert(changed[b].name == records[b].name);
        }
    }
}

/// Where names are unique, the records that go by the name of the record at `i` are
/// that record alone.
pub proof fn lemma_matching_unique(records: Seq<RecordView>, i: int)
    requires
        unique_names(records),
        0 <= i < records.len(),
    ensures
        matching(records, records[i].name) == seq![records[i]],
    decreases records.len(),
{
    let name = records[i].name;
    let pred = |r: RecordView| r.name == name;
    reveal(Seq::filter);
    let front = records.drop_last();
    let last = records.last();
    if i == records.len() - 1 {
        assert(!has_name(front, name)) by {
            if has_name(front, name) {
                let k = choose|k: int| 0 <= k < front.len() && #[trigger] front[k].name == name;
                assert(records[k].name == records[i].name);
            }
        }
        lemma_matching_absent(front, name);
        assert(records.filter(pred) =~= front.filter(pred).push(last));
    } else {
        assert(front[i] == records[i]);
        assert(unique_names(front)) by {
            assert forall|a: int, b: int|
                0 <= a < front.len() && 0 <= b < front.len() && a != b implies #[trigger] front[a].name
                != #[trigger] front[b].name by {
                assert(records[a].name != records[b].name);
            }
        }
        lemma_matching_unique(front, i);
        assert(records[records.len() - 1].name != records[i].name);
        assert(records.filter(pred) =~= front.filter(pred));
    }
}

/// Where no record goes by `name`, none matches it.
pub proof fn lemma_matching_absent(records: Seq<RecordView>, name: Seq<char>)
    requires
        !has_name(records, name),
    ensures
        matching(records, name) == Seq::<RecordView>::empty(),
    decreases records.len(),
{
    let pred = |r: RecordView| r.name == name;
    reveal(Seq::filter);
    if records.len() > 0 {
        let front = records.drop_last();
        assert(!has_name(front, name)) by {
            if has_name(front, name) {
                let k = choose|k: int| 0 <= k < front.len() && #[trigger] front[k].name == name;
                assert(records[k].name == name);
            }
        }
        lemma_matching_absent(front, name);
        assert(records[records.len() - 1].name != name);
        assert(records.filter(pred) =~= front.filter(pred));
    }
}

} // verus!

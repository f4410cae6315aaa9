//! A credential record: an application name, a user name and a password, with the
//! times at which the record was made and last changed.

use vstd::prelude::*;
use crate::safe_string::SafeString;

verus! {

/// One stored credential. Its identity is `name`.
#[derive(Debug, PartialEq, Eq)]
pub struct Record {
    pub name: String,
    pub username: String,
    pub password: SafeString,
    pub created_at: i64,
    pub updated_at: i64,
}

/// The mathematical content of a [`Record`].
pub struct RecordView {
    pub name: Seq<char>,
    pub username: Seq<char>,
    pub password: Seq<char>,
    pub created_at: i64,
    pub updated_at: i64,
}

impl View for Record {
    type V = RecordView;

    open spec fn view(&self) -> RecordView {
        RecordView {
            name: self.name@,
            username: self.username@,
            password: self.password@,
            created_at: self.created_at,
            updated_at: self.updated_at,
        }
    }
}

/// `record` with its time of last change set to `now`.
pub open spec fn stamped(record: RecordView, now: i64) -> RecordView {
    RecordView { updated_at: now, ..record }
}

/// A record made at `now`.
pub open spec fn fresh(name: Seq<char>, username: Seq<char>, password: Seq<char>, now: i64) -> RecordView {
    RecordView { name, username, password, created_at: now, updated_at: now }
}

/// The views of a run of records, in order.
pub open spec fn views(records: Seq<Record>) -> Seq<RecordView> {
    records.map_values(|r: Record| r@)
}

impl Record {
    /// A record made at `now`.
    pub fn new(name: String, username: String, password: SafeString, now: i64) -> (r: Record)
        ensures
            r@ == fresh(name@, username@, password@, now),
    {
        Record { name, username, password, created_at: now, updated_at: now }
    }

    /// An independently owned copy.
    pub fn duplicate(&self) -> (r: Record)
        ensures
            r@ == self@,
    {
        Record {
            name: self.name.clone(),
            username: self.username.clone(),
            password: self.password.duplicate(),
            created_at: self.created_at,
            updated_at: self.updated_at,
        }
    }

    /// This record under another name, changed at `now`.
    pub fn renamed(self, new_name: String, now: i64) -> (r: Record)
        ensures
            r@ == (RecordView { name: new_name@, updated_at: now, ..self@ }),
    {
        Record {
            name: new_name,
            username: self.username,
            password: self.password,
            created_at: self.created_at,
            updated_at: now,
        }
    }

    /// This record with another password, changed at `now`.
    pub fn with_password(self, new_password: SafeString, now: i64) -> (r: Record)
        ensures
            r@ == (RecordView { password: new_password@, updated_at: now, ..self@ }),
    {
        Record {
            name: self.name,
            username: self.username,
            password: new_password,
            created_at: self.created_at,
            updated_at: now,
        }
    }
}

impl Clone for Record {
    fn clone(&self) -> (r: Record)
        ensures
            r@ == self@,
    {
        self.duplicate()
    }
}

} // verus!

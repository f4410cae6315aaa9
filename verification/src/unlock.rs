//! Opening a vault file: what to do next after each attempt.
//!
//! The caller asks for the master password and tries to load the file; the outcome
//! goes to [`Unlock::step`], which answers with the next thing to do. A wrong password
//! leads to another prompt, three prompts at most. A file of the older format leads
//! to one migration under the same password. A corrupt file, or one of an unknown
//! format, ends the run at once.

use vstd::prelude::*;
use crate::codec::CodecError;
use crate::migrate::MigrationError;

verus! {

/// How often the master password is asked for, at most.
pub const MAX_ATTEMPTS: u8 = 3;

/// What an attempt came to.
#[derive(Debug, Clone, Copy, PartialEq, Eq)]
pub enum Event {
    /// The file was loaded.
    Loaded,
    /// Loading the file failed.
    LoadFailed(CodecError),
    /// The file was migrated.
    Migrated,
    /// Migrating the file failed.
    MigrationFailed(MigrationError),
}

/// Why the run ended without a vault.
#[derive(Debug, Clone, Copy, PartialEq, Eq)]
pub enum Failure {
    /// The password was wrong at every prompt.
    WrongPassword,
    /// The file is corrupt.
    Corrupt,
    /// The file is of a format that is not known.
    UnsupportedVersion,
}

/// What to do next.
#[derive(Debug, Clone, Copy, PartialEq, Eq)]
pub enum Action {
    /// Ask for the master password and try to load the file.
    AskPassword,
    /// Try to migrate the file under the password that was just given.
    Migrate,
    /// The vault is open.
    Done,
    /// Stop, for the given reason.
    GiveUp(Failure),
}

/// How many prompts are still allowed.
#[derive(Debug, Clone, Copy, PartialEq, Eq)]
pub struct Unlock {
    pub prompts_left: u8,
}

/// The state after `event`, and what to do next.
pub open spec fn next(state: Unlock, event: Event) -> (Unlock, Action) {
    match event {
        Event::Loaded | Event::Migrated => (state, Action::Done),
        Event::LoadFailed(CodecError::OutdatedFormat) => (state, Action::Migrate),
        Event::LoadFailed(CodecError::WrongPassword) | Event::MigrationFailed(
            MigrationError::WrongPassword,
        ) => if state.prompts_left > 0 {
            (Unlock { prompts_left: (state.prompts_left - 1) as u8 }, Action::AskPassword)
        } else {
            (state, Action::GiveUp(Failure::WrongPassword))
        },
        Event::LoadFailed(_) => (state, Action::GiveUp(Failure::Corrupt)),
        Event::MigrationFailed(MigrationError::UnsupportedVersion) => (
            state,
            Action::GiveUp(Failure::UnsupportedVersion),
        ),
    }
}

/// How often the password is asked for while `events` come in, starting from `state`
/// and stopping at the first event that ends the run.
pub open spec fn prompts(state: Unlock, events: Seq<Event>) -> nat
    decreases events.len(),
{
    if events.len() == 0 {
        0
    } else {
        match next(state, events[0]) {
            (after, Action::AskPassword) => 1 + prompts(after, events.drop_first()),
            (after, Action::Migrate) => prompts(after, events.drop_first()),
            _ => 0,
        }
    }
}

/// Whatever comes in, the password is asked for no more often than the state allows.
pub proof fn lemma_prompts_bounded(state: Unlock, events: Seq<Event>)
    ensures
        prompts(state, events) <= state.prompts_left,
    decreases events.len(),
{
    if events.len() > 0 {
        lemma_prompts_bounded(next(state, events[0]).0, events.drop_first());
    }
}

impl Unlock {
    /// The state in which the first prompt has been made: two more are allowed.
    pub fn start() -> (r: (Unlock, Action))
        ensures
            r.0.prompts_left == MAX_ATTEMPTS - 1,
            r.1 == Action::AskPassword,
    {
        (Unlock { prompts_left: MAX_ATTEMPTS - 1 }, Action::AskPassword)
    }

    /// Takes the outcome of the last attempt and answers with what to do next.
    pub fn step(self, event: Event) -> (r: (Unlock, Action))
        ensures
            r == next(self, event),
            r.0.prompts_left <= self.prompts_left,
            r.1 == Action::AskPassword ==> r.0.prompts_left + 1 == self.prompts_left,
    {
        match event {
            Event::Loaded => (self, Action::Done),
            Event::Migrated => (self, Action::Done),
            Event::LoadFailed(CodecError::OutdatedFormat) => (self, Action::Migrate),
            Event::LoadFailed(CodecError::WrongPassword) => self.retry(),
            Event::MigrationFailed(MigrationError::WrongPassword) => self.retry(),
            Event::LoadFailed(_) => (self, Action::GiveUp(Failure::Corrupt)),
            Event::MigrationFailed(MigrationError::UnsupportedVersion) => (
                self,
                Action::GiveUp(Failure::UnsupportedVersion),
            ),
        }
    }

    /// Another prompt where one is left, the end of the run where none is.
    fn retry(self) -> (r: (Unlock, Action))
        ensures
            r == if self.prompts_left > 0 {
                (Unlock { prompts_left: (self.prompts_left - 1) as u8 }, Action::AskPassword)
            } else {
                (self, Action::GiveUp(Failure::WrongPassword))
            },
    {
        if self.prompts_left > 0 {
            (Unlock { prompts_left: self.prompts_left - 1 }, Action::AskPassword)
        } else {
            (self, Action::GiveUp(Failure::WrongPassword))
        }
    }
}

/// The exit code of a run: zero for an open vault, one for any failure.
pub fn exit_code(outcome: Action) -> (r: i32)
    ensures
        r == 0 <==> outcome == Action::Done,
        r == 0 || r == 1,
{
    match outcome {
        Action::Done => 0,
        _ => 1,
    }
}

} // verus!

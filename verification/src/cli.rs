//! The small decisions of the command line: which command a word names, whether an
//! answer means yes, where the vault file lies.

use vstd::prelude::*;
use vstd::string::{StrSliceExecFns, StringExecFns};

verus! {

/// The commands of the program.
#[derive(Debug, Clone, Copy, PartialEq, Eq)]
pub enum Command {
    Get,
    Add,
    Delete,
    Generate,
    Regenerate,
    List,
    Export,
    ChangeMasterPassword,
    Rename,
    Change,
    Uninstall,
}

/// The command that `name` names, if it names one.
pub open spec fn command_named(name: Seq<char>) -> Option<Command> {
    if name == "get"@ {
        Some(Command::Get)
    } else if name == "add"@ {
        Some(Command::Add)
    } else if name == "delete"@ {
        Some(Command::Delete)
    } else if name == "generate"@ {
        Some(Command::Generate)
    } else if name == "regenerate"@ {
        Some(Command::Regenerate)
    } else if name == "list"@ {
        Some(Command::List)
    } else if name == "export"@ {
        Some(Command::Export)
    } else if name == "change-master-password"@ {
        Some(Command::ChangeMasterPassword)
    } else if name == "rename"@ {
        Some(Command::Rename)
    } else if name == "change"@ {
        Some(Command::Change)
    } else if name == "uninstall"@ {
        Some(Command::Uninstall)
    } else {
        None
    }
}

/// True when `text` reads exactly as `word`.
fn is_word(text: &String, word: &str) -> (r: bool)
    ensures
        r == (text@ == word@),
{
    *text == word.to_owned()
}

/// Looks up the command that `name` names.
pub fn command_from_name(name: &str) -> (r: Option<Command>)
    ensures
        r == command_named(name@),
{
    let name = name.to_owned();
    if is_word(&name, "get") {
        Some(Command::Get)
    } else if is_word(&name, "add") {
        Some(Command::Add)
    } else if is_word(&name, "delete") {
        Some(Command::Delete)
    } else if is_word(&name, "generate") {
        Some(Command::Generate)
    } else if is_word(&name, "regenerate") {
        Some(Command::Regenerate)
    } else if is_word(&name, "list") {
        Some(Command::List)
    } else if is_word(&name, "export") {
        Some(Command::Export)
    } else if is_word(&name, "change-master-password") {
        Some(Command::ChangeMasterPassword)
    } else if is_word(&name, "rename") {
        Some(Command::Rename)
    } else if is_word(&name, "change") {
        Some(Command::Change)
    } else if is_word(&name, "uninstall") {
        Some(Command::Uninstall)
    } else {
        None
    }
}

impl Command {
    /// True for the commands that work on the opened vault: all but `uninstall`.
    pub fn needs_vault(self) -> (r: bool)
        ensures
            r == (self != Command::Uninstall),
    {
        match self {
            Command::Uninstall => false,
            _ => true,
        }
    }
}

/// How many free arguments a command needs, the command word counted: three where a
/// second name follows the first (`add`, `generate`, `rename`), two where one name or
/// query is given, one where the command word is all.
pub open spec fn free_args_needed(command: Command) -> nat {
    match command {
        Command::Add | Command::Generate | Command::Rename => 3,
        Command::Get | Command::Delete | Command::Regenerate | Command::Change => 2,
        Command::List | Command::Export | Command::ChangeMasterPassword | Command::Uninstall => 1,
    }
}

/// Checks the free arguments of `rename`: the command word, a query and a new name.
/// With fewer than three the answer is the exit code 1.
pub fn check_args(free: &Vec<String>) -> (r: Result<(), i32>)
    ensures
        r == if free@.len() < 3 {
            Err::<(), i32>(1)
        } else {
            Ok::<(), i32>(())
        },
{
    check_command_args(Command::Rename, free)
}

/// Checks that `command` got the free arguments that it needs. With fewer the answer
/// is the exit code 1.
pub fn check_command_args(command: Command, free: &Vec<String>) -> (r: Result<(), i32>)
    ensures
        r == if free@.len() < free_args_needed(command) {
            Err::<(), i32>(1)
        } else {
            Ok::<(), i32>(())
        },
{
    let needed: usize = match command {
        Command::Add => 3,
        Command::Generate => 3,
        Command::Rename => 3,
        Command::Get => 2,
        Command::Delete => 2,
        Command::Regenerate => 2,
        Command::Change => 2,
        Command::List => 1,
        Command::Export => 1,
        Command::ChangeMasterPassword => 1,
        Command::Uninstall => 1,
    };
    if free.len() < needed {
        Err(1)
    } else {
        Ok(())
    }
}

/// What an answer to a yes-or-no question means.
#[derive(Debug, Clone, Copy, PartialEq, Eq)]
pub enum Confirmation {
    Yes,
    No,
    Unclear,
}

/// What `line` means as an answer: yes where it starts with `y`, no where it starts
/// with `n`, and nothing clear otherwise.
pub open spec fn confirmation_of(line: Seq<char>) -> Confirmation {
    if line.len() > 0 && line[0] == 'y' {
        Confirmation::Yes
    } else if line.len() > 0 && line[0] == 'n' {
        Confirmation::No
    } else {
        Confirmation::Unclear
    }
}

/// Reads an answer to a yes-or-no question.
pub fn parse_confirmation(line: &str) -> (r: Confirmation)
    ensures
        r == confirmation_of(line@),
{
    if line.unicode_len() == 0 {
        return Confirmation::Unclear;
    }
    let first = line.get_char(0);
    if first == 'y' {
        Confirmation::Yes
    } else if first == 'n' {
        Confirmation::No
    } else {
        Confirmation::Unclear
    }
}

/// Where the vault file lies: where the environment says, if it says so; else
/// `.passwords.rooster` in the home directory; nowhere without a home directory.
pub open spec fn file_path(configured: Option<Seq<char>>, home: Option<Seq<char>>, separator: Seq<char>) -> Option<
    Seq<char>,
> {
    match configured {
        Some(path) => Some(path),
        None => match home {
            Some(home) => Some(home + separator + ".passwords.rooster"@),
            None => None,
        },
    }
}

/// Works out where the vault file lies, from what the environment configures and
/// where the home directory is. Without either the answer is the exit code 1.
pub fn get_password_file_path(configured: Option<String>, home: Option<String>, separator: &str) -> (r: Result<
    String,
    i32,
>)
    ensures
        match r {
            Ok(path) => file_path(
                match configured {
                    Some(c) => Some(c@),
                    None => None,
                },
                match home {
                    Some(h) => Some(h@),
                    None => None,
                },
                separator@,
            ) == Some(path@),
            Err(code) => code == 1 && configured is None && home is None,
        },
{
    match configured {
        Some(path) => Ok(path),
        None => match home {
            Some(home) => {
                let mut path = home;
                path.append(separator);
                path.append(".passwords.rooster");
                Ok(path)
            },
            None => Err(1),
        },
    }
}

} // verus!

//! What is told to the user about a retrieved password, and the shell command that
//! hands a password to a clipboard tool.

use vstd::prelude::*;
use vstd::string::StringExecFns;
use std::borrow::Cow;
use crate::record::{Record, RecordView};
use crate::safe_string::SafeString;

verus! {

/// True for the characters that a Unix shell takes literally: letters, digits and
/// `-`, `_`, `=`, `/`, `,`, `.`, `+`.
pub open spec fn shell_literal(c: char) -> bool {
    ||| 'a' <= c <= 'z'
    ||| 'A' <= c <= 'Z'
    ||| '0' <= c <= '9'
    ||| c == '-'
    ||| c == '_'
    ||| c == '='
    ||| c == '/'
    ||| c == ','
    ||| c == '.'
    ||| c == '+'
}

/// `text` as it stands between single quotes: each `'` and each `!` leaves the quotes,
/// stands behind a backslash and enters them again.
pub open spec fn quoted(text: Seq<char>) -> Seq<char>
    decreases text.len(),
{
    if text.len() == 0 {
        Seq::empty()
    } else if text[0] == '\'' || text[0] == '!' {
        seq!['\'', '\\', text[0], '\''] + quoted(text.drop_first())
    } else {
        seq![text[0]] + quoted(text.drop_first())
    }
}

/// `text` escaped for a Unix shell: the text itself where it is not empty and holds
/// only characters that a shell takes literally, and its single-quoted form otherwise.
pub open spec fn unix_shell_escaped(text: Seq<char>) -> Seq<char> {
    if text.len() > 0 && forall|i: int| 0 <= i < text.len() ==> shell_literal(#[trigger] text[i]) {
        text
    } else {
        seq!['\''] + quoted(text) + seq!['\'']
    }
}

/// Escapes `text` for a Unix shell.
///
/// Trusted: calls `shell_escape::unix::escape`, which hands back a text of literal
/// characters as it is and puts any other between single quotes, with `'` and `!`
/// escaped outside them.
#[verifier::external_body]
pub(crate) fn shell_escape_unix(text: &str) -> (r: String)
    ensures
        r@ == unix_shell_escaped(text@),
{
    shell_escape::unix::escape(Cow::Borrowed(text)).into_owned()
}

/// The keys that paste from the clipboard.
pub open spec fn paste_keys_text(macos: bool) -> Seq<char> {
    if macos {
        "Cmd+V"@
    } else {
        "Ctrl+V"@
    }
}

/// The keys that paste from the clipboard: `Cmd+V` on macOS, `Ctrl+V` elsewhere.
pub fn paste_keys(macos: bool) -> (r: String)
    ensures
        r@ == paste_keys_text(macos),
{
    if macos {
        "Cmd+V".to_owned()
    } else {
        "Ctrl+V".to_owned()
    }
}

/// The command line that pipes an escaped password into a clipboard tool: `xsel` where
/// it was found, else `xclip`; nothing where neither was.
pub open spec fn pipe_command_text(escaped: Seq<char>, xsel: Option<Seq<char>>, xclip: Option<Seq<char>>) -> Option<
    Seq<char>,
> {
    match xsel {
        Some(path) => Some("printf '%s' "@ + escaped + " | "@ + path + " -ib 2> /dev/null"@),
        None => match xclip {
            Some(path) => Some(
                "printf '%s' "@ + escaped + " | "@ + path + " -selection clipboard 2> /dev/null"@,
            ),
            None => None,
        },
    }
}

/// Builds the command line that pipes an escaped password into a clipboard tool, given
/// where `xsel` and `xclip` were found.
pub fn pipe_command(escaped: &str, xsel: Option<&str>, xclip: Option<&str>) -> (r: Option<SafeString>)
    ensures
        match r {
            Some(command) => pipe_command_text(
                escaped@,
                match xsel {
                    Some(p) => Some(p@),
                    None => None,
                },
                match xclip {
                    Some(p) => Some(p@),
                    None => None,
                },
            ) == Some(command@),
            None => xsel is None && xclip is None,
        },
{
    let (path, options) = match xsel {
        Some(path) => (path, " -ib 2> /dev/null"),
        None => match xclip {
            Some(path) => (path, " -selection clipboard 2> /dev/null"),
            None => {
                return None;
            },
        },
    };
    let mut command = SafeString::new("printf '%s' ".to_owned());
    command.inner.append(escaped);
    command.inner.append(" | ");
    command.inner.append(path);
    command.inner.append(options);
    Some(command)
}

/// Builds the command line that copies `password` to the clipboard, given where `xsel`
/// and `xclip` were found; nothing where neither was.
pub fn copy_command(password: &SafeString, xsel: Option<&str>, xclip: Option<&str>) -> (r: Option<
    SafeString,
>)
    ensures
        match r {
            Some(command) => pipe_command_text(
                unix_shell_escaped(password@),
                match xsel {
                    Some(p) => Some(p@),
                    None => None,
                },
                match xclip {
                    Some(p) => Some(p@),
                    None => None,
                },
            ) == Some(command@),
            None => xsel is None && xclip is None,
        },
{
    let escaped = SafeString::new(shell_escape_unix(password.as_str()));
    pipe_command(escaped.as_str(), xsel, xclip)
}

/// The lines that confirm a retrieved password.
///
/// With `show`, the password is spelled out. Without it, the lines say that the
/// password was copied and how to paste it, or, where copying failed, how to have it
/// shown.
pub open spec fn confirmation(show: bool, copied: bool, macos: bool, record: RecordView) -> Seq<Seq<char>> {
    if show {
        seq![
            "Alright! Here is your password for "@ + record.name + ":"@,
            "Username: "@ + record.username,
            "Password: "@ + record.password,
        ]
    } else if !copied {
        seq![
            "Hmm, I tried to copy your new password to your clipboard, but something went wrong. You can see it with `rooster get '"@
                + record.name + "' --show`"@,
        ]
    } else {
        seq![
            "Alright! Here is your password for "@ + record.name + ":"@,
            "Username: "@ + record.username,
            "Password: ******** (copied to clipboard, paste with "@ + paste_keys_text(macos) + ")"@,
        ]
    }
}

/// The views of a run of secret strings, in order.
pub open spec fn texts(lines: Seq<SafeString>) -> Seq<Seq<char>> {
    lines.map_values(|line: SafeString| line@)
}

/// Builds the lines that confirm a retrieved password; `copied` tells whether the
/// password reached the clipboard, and is not looked at with `show`. The lines are
/// secret: with `show` one of them spells the password out.
pub fn confirm_password_retrieved(show: bool, copied: bool, macos: bool, password: &Record) -> (r: Vec<
    SafeString,
>)
    ensures
        texts(r@) == confirmation(show, copied, macos, password@),
{
    let mut lines: Vec<SafeString> = Vec::new();
    if !show && !copied {
        let mut line = SafeString::new(
            "Hmm, I tried to copy your new password to your clipboard, but something went wrong. You can see it with `rooster get '".to_owned(),
        );
        line.inner.append(password.name.as_str());
        line.inner.append("' --show`");
        lines.push(line);
        assert(texts(lines@) =~= confirmation(show, copied, macos, password@));
        return lines;
    }
    let mut first = SafeString::new("Alright! Here is your password for ".to_owned());
    first.inner.append(password.name.as_str());
    first.inner.append(":");
    let mut second = SafeString::new("Username: ".to_owned());
    second.inner.append(password.username.as_str());
    let mut third = SafeString::new("Password: ".to_owned());
    if show {
        third.inner.append(password.password.as_str());
    } else {
        let keys = paste_keys(macos);
        third.inner.append("******** (copied to clipboard, paste with ");
        third.inner.append(keys.as_str());
        third.inner.append(")");
        assert(third@ =~= "Password: ******** (copied to clipboard, paste with "@ + paste_keys_text(
            macos,
        ) + ")"@) by {
            reveal_strlit("Password: ");
            reveal_strlit("******** (copied to clipboard, paste with ");
            reveal_strlit("Password: ******** (copied to clipboard, paste with ");
        }
    }
    lines.push(first);
    lines.push(second);
    lines.push(third);
    assert(texts(lines@) =~= confirmation(show, copied, macos, password@));
    lines
}

} // verus!

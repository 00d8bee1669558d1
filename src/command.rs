//! The choices of an interactive session over a repository.

use vstd::prelude::*;
use crate::errors::VersionitisError;
use crate::text::{find_char, has_char, first_index, text_chars};

verus! {

/// What an interactive session does for one line of input.
#[derive(Debug, PartialEq, Eq, Clone, Copy)]
pub enum Command {
    DisplayRepo,
    ListPackages,
    ReadRepo,
    WriteRepo,
    AddVersion,
    SerializeManifest,
    ReadManifest,
    ReadManifestDirectory,
    Quit,
    Invalid,
}

/// The command that a one-letter choice selects.
pub open spec fn command_of(c: Seq<char>) -> Command {
    if c == seq!['d'] {
        Command::DisplayRepo
    } else if c == seq!['p'] {
        Command::ListPackages
    } else if c == seq!['r'] {
        Command::ReadRepo
    } else if c == seq!['w'] {
        Command::WriteRepo
    } else if c == seq!['v'] {
        Command::AddVersion
    } else if c == seq!['m'] {
        Command::SerializeManifest
    } else if c == seq!['n'] {
        Command::ReadManifest
    } else if c == seq!['o'] {
        Command::ReadManifestDirectory
    } else if c == seq!['q'] {
        Command::Quit
    } else {
        Command::Invalid
    }
}

/// The name and version of "<name>-<version>" typed at the prompt: exactly one '-'.
pub open spec fn add_version_input_spec(s: Seq<char>) -> Option<(Seq<char>, Seq<char>)> {
    if has_char(s, '-') && !has_char(s.skip(first_index(s, '-') + 1), '-') {
        Some((s.take(first_index(s, '-')), s.skip(first_index(s, '-') + 1)))
    } else {
        None
    }
}

impl Command {
    /// The command for a line of input.
    pub fn parse(input: &str) -> (r: Command)
        ensures
            r == command_of(input@),
    {
        let cs = text_chars(input);
        if cs.len() != 1 {
            assert(input@.len() != 1);
            return Command::Invalid;
        }
        let c = cs[0];
        assert(input@ =~= seq![c]);
        if c == 'd' {
            Command::DisplayRepo
        } else if c == 'p' {
            Command::ListPackages
        } else if c == 'r' {
            Command::ReadRepo
        } else if c == 'w' {
            Command::WriteRepo
        } else if c == 'v' {
            Command::AddVersion
        } else if c == 'm' {
            Command::SerializeManifest
        } else if c == 'n' {
            Command::ReadManifest
        } else if c == 'o' {
            Command::ReadManifestDirectory
        } else if c == 'q' {
            Command::Quit
        } else {
            Command::Invalid
        }
    }

    /// Whether the session ends after this command.
    pub fn quits(&self) -> (r: bool)
        ensures
            r == (*self == Command::Quit),
    {
        match self {
            Command::Quit => true,
            _ => false,
        }
    }
}

/// Splits "<name>-<version>" typed at the prompt into name and version.
pub fn split_add_version_input(input: &str) -> (r: Result<(&str, &str), VersionitisError>)
    ensures
        match add_version_input_spec(input@) {
            Some(p) => r is Ok && r->Ok_0.0@ == p.0 && r->Ok_0.1@ == p.1,
            None => r matches Err(VersionitisError::AddVersionError(t)) && t@ == input@,
        },
{
    let cs = text_chars(input);
    let n = cs.len();
    assert(cs@.subrange(0, n as int) =~= input@);
    if let Some(k) = find_char(&cs, 0, n, '-') {
        assert(cs@.subrange(k + 1, n as int) =~= input@.skip(k + 1));
        if find_char(&cs, k + 1, n, '-').is_none() {
            let name = input.substring_char(0, k);
            let version = input.substring_char(k + 1, n);
            return Ok((name, version));
        }
    }
    Err(VersionitisError::AddVersionError(String::from_str(input)))
}

} // verus!

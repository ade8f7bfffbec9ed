//! Command execution records: parsing a command line into a program and its
//! arguments, and the record of what a run produced.
//!
//! Running the program and appending the encoded record to the log are the
//! surrounding shell's transport concerns; the parsing decision and the
//! record's shape live here.

use vstd::prelude::*;

verus! {

/// What `shlex::split` returns for a command line: the words under
/// POSIX-like shell quoting, or nothing for erroneous input (an unclosed
/// quote); it depends on the text alone.
pub uninterp spec fn shlex_of(s: Seq<char>) -> Option<Seq<Seq<char>>>;

/// Relies on `shlex::split`: POSIX-like word splitting of the command line,
/// `None` exactly on erroneous input; the result depends on the text alone.
#[verifier::external_body]
fn shlex_split(s: &str) -> (r: Option<Vec<String>>)
    ensures
        match r {
            Some(v) => shlex_of(s@) == Some(v@.map_values(|x: String| x@)),
            None => shlex_of(s@) is None,
        },
{
    shlex::split(s)
}

/// What one run of a command produced.
pub struct CommandOutput {
    pub stdout: String,
    pub stderr: String,
    pub exit_code: i32,
}

/// Why a command line yields no program to run: the line cannot be split at
/// all (erroneous quoting), or it splits into no words.
#[derive(Clone, Copy, PartialEq, Eq, Structural, Debug)]
pub enum CommandError {
    Unparseable,
    NoProgram,
}

/// Splits a word list into the program and its arguments: `None` exactly
/// when the list is empty.
pub fn split_program(parts: Vec<String>) -> (r: Option<(String, Vec<String>)>)
    ensures
        match r {
            Some(p) => parts@.len() > 0 && p.0@ == parts@[0]@ && p.1@.len() == parts@.len() - 1
                && (forall|k: int| 0 <= k < p.1@.len() ==> p.1@[k]@ == parts@[k + 1]@),
            None => parts@.len() == 0,
        },
{
    let mut parts = parts;
    if parts.len() == 0 {
        return None;
    }
    let program = parts.remove(0);
    Some((program, parts))
}

/// Parses a command line: the program and its arguments under POSIX-like
/// shell quoting. A line that cannot be split is `Unparseable`; one that
/// splits into no words names `NoProgram`; the two never overlap.
pub fn parse_command(cmd: &str) -> (r: Result<(String, Vec<String>), CommandError>)
    ensures
        r == Err::<(String, Vec<String>), CommandError>(CommandError::Unparseable) <==> shlex_of(
            cmd@,
        ) is None,
        r == Err::<(String, Vec<String>), CommandError>(CommandError::NoProgram) <==> shlex_of(
            cmd@,
        ) == Some(Seq::<Seq<char>>::empty()),
        r matches Ok(p) ==> shlex_of(cmd@) matches Some(words) && words.len() > 0 && p.0@
            == words[0] && p.1@.len() == words.len() - 1 && (forall|k: int|
            0 <= k < p.1@.len() ==> p.1@[k]@ == words[k + 1]),
{
    let parts = match shlex_split(cmd) {
        Some(parts) => parts,
        None => {
            return Err(CommandError::Unparseable);
        },
    };
    let ghost words = parts@.map_values(|x: String| x@);
    match split_program(parts) {
        Some(p) => {
            proof {
                assert(words.len() > 0);
                assert(words[0] == p.0@);
            }
            Ok(p)
        },
        None => {
            proof {
                assert(words =~= Seq::<Seq<char>>::empty());
            }
            Err(CommandError::NoProgram)
        },
    }
}

} // verus!

//! The external commands that a scan and a trim run, as plain values: the
//! program, its arguments, and what is written to its standard input.

use crate::scanner::REMOVABLE_ARCH;
use crate::text::{decimal_digits, decimal_string};
use vstd::prelude::*;
use vstd::string::*;

verus! {

/// The tool that describes and rewrites universal files.
pub const LIPO: &'static str = "lipo";

/// The program that runs a command with privileges.
pub const SUDO: &'static str = "sudo";

/// The program that changes a file's owner.
pub const CHOWN: &'static str = "chown";

/// One run of an external program.
#[derive(Debug)]
pub struct Invocation {
    /// The program's name.
    pub program: String,
    /// Its arguments, in order.
    pub arguments: Vec<String>,
    /// What is written to its standard input before that is closed; with
    /// `None` the program gets no input.
    pub input: Option<String>,
}

/// The mathematical value of an `Invocation`.
pub struct Call {
    pub program: Seq<char>,
    pub arguments: Seq<Seq<char>>,
    pub input: Option<Seq<char>>,
}

/// The texts held in a vector of strings.
pub open spec fn texts(v: Seq<String>) -> Seq<Seq<char>> {
    v.map_values(|s: String| s@)
}

impl View for Invocation {
    type V = Call;

    open spec fn view(&self) -> Call {
        Call {
            program: self.program@,
            arguments: texts(self.arguments@),
            input: match self.input {
                Some(s) => Some(s@),
                None => None,
            },
        }
    }
}

/// The command that describes the architectures of the file at `path` in
/// detail.
pub open spec fn describe_call(path: Seq<char>) -> Call {
    Call { program: LIPO@, arguments: seq!["-detailed_info"@, path], input: None }
}

/// The command that lists the architectures of the file at `path`.
pub open spec fn list_call(path: Seq<char>) -> Call {
    Call { program: LIPO@, arguments: seq!["-archs"@, path], input: None }
}

/// The command that removes the removable architecture from the file at
/// `path` and writes the result to the same path. It runs with privileges,
/// and reads the credential from its standard input, as one line.
pub open spec fn strip_call(path: Seq<char>, credential: Seq<char>) -> Call {
    Call {
        program: SUDO@,
        arguments: seq!["-S"@, LIPO@, path, "-remove"@, REMOVABLE_ARCH@, "-output"@, path],
        input: Some(credential.push('\n')),
    }
}

/// The user and the group of an owner as `chown` takes them: the two
/// numbers in decimal with a colon between them.
pub open spec fn owner_text(uid: u32, gid: u32) -> Seq<char> {
    decimal_digits(uid as nat).push(':') + decimal_digits(gid as nat)
}

/// The command that gives the file at `path` to the given user and group.
/// It runs with the privileges that an earlier command has obtained, and
/// asks for no credential.
pub open spec fn restore_call(uid: u32, gid: u32, path: Seq<char>) -> Call {
    Call {
        program: SUDO@,
        arguments: seq!["-n"@, CHOWN@, owner_text(uid, gid), path],
        input: None,
    }
}

/// Builds the command that describes the architectures of a file in detail.
pub fn describe_command(path: &str) -> (r: Invocation)
    ensures
        r@ == describe_call(path@),
{
    let mut arguments: Vec<String> = Vec::new();
    arguments.push("-detailed_info".to_owned());
    arguments.push(path.to_owned());
    assert(texts(arguments@) =~= describe_call(path@).arguments);
    Invocation { program: LIPO.to_owned(), arguments, input: None }
}

/// Builds the command that lists the architectures of a file.
pub fn list_command(path: &str) -> (r: Invocation)
    ensures
        r@ == list_call(path@),
{
    let mut arguments: Vec<String> = Vec::new();
    arguments.push("-archs".to_owned());
    arguments.push(path.to_owned());
    assert(texts(arguments@) =~= list_call(path@).arguments);
    Invocation { program: LIPO.to_owned(), arguments, input: None }
}

/// Builds the command that removes the removable architecture from a file
/// in place.
pub fn strip_command(path: &str, credential: &str) -> (r: Invocation)
    ensures
        r@ == strip_call(path@, credential@),
{
    let mut arguments: Vec<String> = Vec::new();
    arguments.push("-S".to_owned());
    arguments.push(LIPO.to_owned());
    arguments.push(path.to_owned());
    arguments.push("-remove".to_owned());
    arguments.push(REMOVABLE_ARCH.to_owned());
    arguments.push("-output".to_owned());
    arguments.push(path.to_owned());
    assert(texts(arguments@) =~= strip_call(path@, credential@).arguments);
    let mut line = credential.to_owned();
    line.push('\n');
    Invocation { program: SUDO.to_owned(), arguments, input: Some(line) }
}

/// Builds the command that gives a file to the given user and group.
pub fn restore_command(uid: u32, gid: u32, path: &str) -> (r: Invocation)
    ensures
        r@ == restore_call(uid, gid, path@),
{
    let mut owner = decimal_string(uid as u64);
    owner.push(':');
    let group = decimal_string(gid as u64);
    owner.append(group.as_str());
    let mut arguments: Vec<String> = Vec::new();
    arguments.push("-n".to_owned());
    arguments.push(CHOWN.to_owned());
    arguments.push(owner);
    arguments.push(path.to_owned());
    assert(texts(arguments@) =~= restore_call(uid, gid, path@).arguments);
    Invocation { program: SUDO.to_owned(), arguments, input: None }
}

} // verus!

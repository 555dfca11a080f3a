//! The executable resolver: classifies a command name as a builtin, as an
//! executable regular file found in the search path's order, or as unresolved.
//! Each resolution re-scans the filesystem; nothing is cached.

use vstd::prelude::*;

use crate::text::str_eq;

verus! {

/// The fixed set of builtin command names.
pub open spec fn is_builtin_name(s: Seq<char>) -> bool {
    s == "exit"@ || s == "echo"@ || s == "pwd"@ || s == "type"@ || s == "cd"@ || s
        == "history"@
}

/// Whether a command name is one of the fixed builtin set.
pub fn is_builtin(cmd: &str) -> (r: bool)
    ensures
        r == is_builtin_name(cmd@),
{
    str_eq(cmd, "exit") || str_eq(cmd, "echo") || str_eq(cmd, "pwd") || str_eq(cmd, "type")
        || str_eq(cmd, "cd") || str_eq(cmd, "history")
}

/// A candidate path: the directory, a separator, and the file name.
pub open spec fn joined_path(dir: Seq<char>, name: Seq<char>) -> Seq<char> {
    dir + seq!['/'] + name
}

/// Joins a search directory and a command name into a candidate path.
pub fn join_path(dir: &str, name: &str) -> (r: String)
    ensures
        r@ == joined_path(dir@, name@),
{
    let mut r = String::from_str(dir);
    r.append("/");
    r.append(name);
    proof {
        reveal_strlit("/");
        assert(r@ =~= joined_path(dir@, name@));
    }
    r
}

/// Relies on `is_executable::is_executable`: true exactly when a regular file
/// exists at the path and is executable by the current user. The answer
/// depends on the filesystem at the moment of the call, so nothing is
/// promised of it.
#[verifier::external_body]
fn probe_executable(path: &String) -> bool {
    is_executable::is_executable(path.as_str())
}

/// Scans the search directories in order and returns the first candidate path
/// the filesystem reports as an executable regular file. A returned path is
/// always some listed directory joined with the name; whether one is found at
/// all depends on the filesystem, and a directory that cannot be read is
/// skipped silently as "no match here".
pub fn find_executable_in_path(name: &str, dirs: &Vec<String>) -> (r: Option<String>)
    ensures
        match r {
            Some(p) => exists|i: int|
                0 <= i < dirs@.len() && p@ == #[trigger] joined_path(dirs@[i]@, name@),
            None => true,
        },
{
    let mut i: usize = 0;
    while i < dirs.len()
        invariant
            i <= dirs@.len(),
        decreases dirs@.len() - i,
    {
        let candidate = join_path(dirs[i].as_str(), name);
        if probe_executable(&candidate) {
            proof {
                assert(candidate@ == joined_path(dirs@[i as int]@, name@));
            }
            return Some(candidate);
        }
        i += 1;
    }
    None
}

/// How a command name resolves: a builtin, an executable file at a path, or
/// not found.
#[derive(Debug, Clone, PartialEq)]
pub enum Resolution {
    Builtin,
    External(String),
    NotFound,
}

/// Classifies a command name: the builtin set is consulted first, then the
/// search directories in order. A non-builtin resolves externally only to a
/// candidate path built from a listed directory; which one, or whether any,
/// depends on the filesystem at the moment of the call.
pub fn resolve(name: &str, dirs: &Vec<String>) -> (r: Resolution)
    ensures
        r is Builtin <==> is_builtin_name(name@),
        match r {
            Resolution::Builtin => true,
            Resolution::External(p) => exists|i: int|
                0 <= i < dirs@.len() && p@ == #[trigger] joined_path(dirs@[i]@, name@),
            Resolution::NotFound => true,
        },
{
    if is_builtin(name) {
        Resolution::Builtin
    } else {
        match find_executable_in_path(name, dirs) {
            Some(p) => Resolution::External(p),
            None => Resolution::NotFound,
        }
    }
}

/// The report for a name that resolves neither as builtin nor externally.
pub fn not_found_message(name: &str) -> (r: String)
    ensures
        r@ == name@ + ": command not found"@,
{
    let mut r = String::from_str(name);
    r.append(": command not found");
    r
}

} // verus!

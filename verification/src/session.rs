//! Session state owned by the top-level control loop: the working directory
//! and the in-memory log of accepted input lines. Only the control loop
//! mutates it — a working-directory change from a single-stage `cd`, and one
//! history append per accepted line — never a pipeline stage.

use vstd::prelude::*;

use crate::text::str_eq;
use crate::tokenizer::views_of;

verus! {

/// The view of an optional owned string.
pub open spec fn opt_view(o: Option<String>) -> Option<Seq<char>> {
    match o {
        Some(s) => Some(s@),
        None => None,
    }
}

/// One interactive session: its working directory (`None` when it could not
/// be determined) and its accepted-line log.
#[derive(Debug, Clone)]
pub struct Session {
    pub cwd: Option<String>,
    pub history: Vec<String>,
}

impl Session {
    /// A fresh session with an empty history log.
    pub fn new(cwd: Option<String>) -> (s: Session)
        ensures
            s.history@.len() == 0,
            s.cwd == cwd,
    {
        Session { cwd, history: Vec::new() }
    }

    /// Records one accepted input line; nothing else changes.
    pub fn accept_line(&mut self, line: String)
        ensures
            final(self).history@ == old(self).history@.push(line),
            final(self).cwd == old(self).cwd,
    {
        self.history.push(line);
    }

    /// Moves the session to a new working directory; the log is untouched.
    /// The control loop calls this only after the operating system accepted
    /// the change, and only for a single-stage `cd` line.
    pub fn set_cwd(&mut self, dir: String)
        ensures
            final(self).cwd == Some(dir),
            final(self).history == old(self).history,
    {
        self.cwd = Some(dir);
    }
}

/// What a single-stage `cd` asks for: nothing, a move to a path, or a report
/// that `~` cannot be resolved.
#[derive(Debug, Clone, PartialEq)]
pub enum CdOutcome {
    NoOp,
    Chdir(String),
    HomeMissing,
}

/// The mathematical value of a `CdOutcome`.
pub enum CdModel {
    NoOp,
    Chdir(Seq<char>),
    HomeMissing,
}

impl View for CdOutcome {
    type V = CdModel;

    open spec fn view(&self) -> CdModel {
        match self {
            CdOutcome::NoOp => CdModel::NoOp,
            CdOutcome::Chdir(p) => CdModel::Chdir(p@),
            CdOutcome::HomeMissing => CdModel::HomeMissing,
        }
    }
}

/// Where `cd` goes: nowhere without an argument; to the home directory for
/// `~`, which is missing when no home is known; else to the argument itself.
pub open spec fn cd_spec(args: Seq<Seq<char>>, home: Option<Seq<char>>) -> CdModel {
    if args.len() == 0 {
        CdModel::NoOp
    } else if args[0] == "~"@ {
        match home {
            Some(h) => CdModel::Chdir(h),
            None => CdModel::HomeMissing,
        }
    } else {
        CdModel::Chdir(args[0])
    }
}

/// Computes the target of a single-stage `cd` from its arguments and the
/// session's home directory.
pub fn cd_target(args: &Vec<String>, home: &Option<String>) -> (r: CdOutcome)
    ensures
        r@ == cd_spec(
            views_of(args@),
            match home {
                Some(h) => Some(h@),
                None => None,
            },
        ),
{
    if args.len() == 0 {
        return CdOutcome::NoOp;
    }
    proof {
        assert(views_of(args@)[0] == args@[0]@);
    }
    if str_eq(args[0].as_str(), "~") {
        match home {
            Some(h) => CdOutcome::Chdir(h.clone()),
            None => CdOutcome::HomeMissing,
        }
    } else {
        CdOutcome::Chdir(args[0].clone())
    }
}

/// The report when a `cd` target does not exist or `~` cannot be resolved.
pub fn cd_error_message(dest: &str) -> (r: String)
    ensures
        r@ == "cd: "@ + dest@ + ": No such file or directory"@,
{
    let mut r = String::from_str("cd: ");
    r.append(dest);
    r.append(": No such file or directory");
    r
}

} // verus!

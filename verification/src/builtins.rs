//! The builtin dispatcher: `echo`, `pwd`, `type`, `cd`, `exit` and `history`,
//! computed as pure output against an explicit session snapshot (working
//! directory, history log, search directories) handed in by the control loop.

use vstd::prelude::*;

use crate::resolver::{is_builtin_name, joined_path, resolve, Resolution};
use crate::session::{cd_error_message, cd_target, CdModel, CdOutcome};
use crate::text::str_eq;
use crate::tokenizer::views_of;

verus! {

/// The character of a decimal digit value.
pub open spec fn dec_digit(d: int) -> char {
    if d == 0 {
        '0'
    } else if d == 1 {
        '1'
    } else if d == 2 {
        '2'
    } else if d == 3 {
        '3'
    } else if d == 4 {
        '4'
    } else if d == 5 {
        '5'
    } else if d == 6 {
        '6'
    } else if d == 7 {
        '7'
    } else if d == 8 {
        '8'
    } else {
        '9'
    }
}

/// The decimal digits of a non-negative number, most significant first.
pub open spec fn dec_rep(n: int) -> Seq<char>
    decreases n,
{
    if n < 10 {
        seq![dec_digit(n)]
    } else {
        dec_rep(n / 10).push(dec_digit(n % 10))
    }
}

fn push_decimal(out: &mut String, n: usize)
    ensures
        final(out)@ == old(out)@ + dec_rep(n as int),
    decreases n,
{
    let ghost entry = out@;
    if n >= 10 {
        push_decimal(out, n / 10);
    }
    let d = n % 10;
    let c = if d == 0 {
        '0'
    } else if d == 1 {
        '1'
    } else if d == 2 {
        '2'
    } else if d == 3 {
        '3'
    } else if d == 4 {
        '4'
    } else if d == 5 {
        '5'
    } else if d == 6 {
        '6'
    } else if d == 7 {
        '7'
    } else if d == 8 {
        '8'
    } else {
        '9'
    };
    out.push(c);
    proof {
        if n < 10 {
            assert(entry + dec_rep(n as int) =~= entry.push(c));
        } else {
            assert(entry + dec_rep(n as int) =~= (entry + dec_rep(n as int / 10)).push(c));
        }
    }
}

/// The decimal rendering of a number.
pub fn decimal_string(n: usize) -> (r: String)
    ensures
        r@ == dec_rep(n as int),
{
    let mut r = String::new();
    push_decimal(&mut r, n);
    proof {
        assert(Seq::<char>::empty() + dec_rep(n as int) =~= dec_rep(n as int));
    }
    r
}

/// `k` space characters.
pub open spec fn spaces(k: int) -> Seq<char>
    decreases k,
{
    if k <= 0 {
        Seq::empty()
    } else {
        spaces(k - 1).push(' ')
    }
}

/// A history entry's 1-based index, right-aligned in a field of width five.
pub open spec fn padded_index(idx: int) -> Seq<char> {
    if dec_rep(idx).len() >= 5 {
        dec_rep(idx)
    } else {
        spaces(5 - dec_rep(idx).len()) + dec_rep(idx)
    }
}

fn push_padded_index(out: &mut String, idx: usize)
    ensures
        final(out)@ == old(out)@ + padded_index(idx as int),
{
    let ghost entry = out@;
    let digits = decimal_string(idx);
    let dlen = digits.as_str().unicode_len();
    let pad: usize = if dlen >= 5 {
        0
    } else {
        5 - dlen
    };
    let mut j: usize = 0;
    while j < pad
        invariant
            j <= pad,
            out@ == entry + spaces(j as int),
        decreases pad - j,
    {
        out.push(' ');
        proof {
            assert(entry + spaces(j as int) + seq![' '] =~= entry + spaces(j as int + 1));
            assert((entry + spaces(j as int)).push(' ') =~= entry + spaces(j as int) + seq![' ']);
        }
        j += 1;
    }
    out.append(digits.as_str());
    proof {
        if pad == 0 {
            assert(entry + spaces(0) + digits@ =~= entry + padded_index(idx as int));
        } else {
            assert(entry + spaces(pad as int) + digits@ =~= entry + padded_index(idx as int));
        }
    }
}

/// One line of the history listing: the padded 1-based index, two spaces, the
/// entry, a newline.
pub open spec fn history_line(idx: int, entry: Seq<char>) -> Seq<char> {
    padded_index(idx) + seq![' ', ' '] + entry + seq!['\n']
}

/// The listing of entries at 0-based positions `start` up to `i`, in order,
/// each under its original 1-based index.
pub open spec fn history_listing_upto(entries: Seq<Seq<char>>, start: int, i: int) -> Seq<char>
    decreases i - start,
{
    if i <= start {
        Seq::empty()
    } else {
        history_listing_upto(entries, start, i - 1) + history_line(i, entries[i - 1])
    }
}

/// Where the listing begins: with a numeric argument `n`, at the last `n`
/// entries (or all of them when `n` exceeds the log); without one, at the
/// first entry.
pub open spec fn history_start(len: int, n: Option<int>) -> int {
    match n {
        Some(k) => if k < len {
            len - k
        } else {
            0
        },
        None => 0,
    }
}

/// The full output of the `history` builtin.
pub open spec fn history_listing(entries: Seq<Seq<char>>, n: Option<int>) -> Seq<char> {
    history_listing_upto(entries, history_start(entries.len() as int, n), entries.len() as int)
}

/// Prints the accepted-line log in order, one entry per line, each prefixed
/// with its original 1-based index right-aligned in a width-five field and
/// two spaces; with `n`, only the last `n` entries.
pub fn history_output(history: &Vec<String>, n: Option<usize>) -> (out: String)
    ensures
        out@ == history_listing(
            views_of(history@),
            match n {
                Some(k) => Some(k as int),
                None => None,
            },
        ),
{
    let len = history.len();
    let start: usize = match n {
        Some(k) => if k < len {
            len - k
        } else {
            0
        },
        None => 0,
    };
    let ghost entries = views_of(history@);
    let mut out = String::new();
    let mut i: usize = start;
    while i < len
        invariant
            start <= i <= len,
            len == history@.len(),
            entries == views_of(history@),
            out@ == history_listing_upto(entries, start as int, i as int),
        decreases len - i,
    {
        let ghost before = out@;
        push_padded_index(&mut out, i + 1);
        out.push(' ');
        out.push(' ');
        out.append(history[i].as_str());
        out.push('\n');
        proof {
            assert(entries[i as int] == history@[i as int]@);
            assert(out@ =~= before + history_line(i as int + 1, entries[i as int]));
        }
        i += 1;
    }
    out
}

/// The space-joined argument list of `echo`.
pub open spec fn join_spaces(args: Seq<Seq<char>>) -> Seq<char>
    decreases args.len(),
{
    if args.len() == 0 {
        Seq::empty()
    } else if args.len() == 1 {
        args[0]
    } else {
        join_spaces(args.drop_last()) + seq![' '] + args.last()
    }
}

/// What `echo` writes: the space-joined arguments followed by a newline.
pub open spec fn echo_line(args: Seq<Seq<char>>) -> Seq<char> {
    join_spaces(args).push('\n')
}

/// Joins the arguments with single spaces and appends a newline.
pub fn echo_output(args: &Vec<String>) -> (r: String)
    ensures
        r@ == echo_line(views_of(args@)),
{
    let ghost argv = views_of(args@);
    let mut r = String::new();
    let mut i: usize = 0;
    while i < args.len()
        invariant
            i <= args@.len(),
            argv == views_of(args@),
            r@ == join_spaces(argv.take(i as int)),
        decreases args@.len() - i,
    {
        let ghost before = r@;
        if i > 0 {
            r.push(' ');
        }
        r.append(args[i].as_str());
        proof {
            assert(argv[i as int] == args@[i as int]@);
            assert(argv.take(i as int + 1).drop_last() =~= argv.take(i as int));
            assert(argv.take(i as int + 1).last() == argv[i as int]);
            if i == 0 {
                assert(r@ =~= join_spaces(argv.take(1)));
            } else {
                assert(r@ =~= join_spaces(argv.take(i as int)) + seq![' '] + argv[i as int]);
            }
        }
        i += 1;
    }
    proof {
        assert(argv.take(argv.len() as int) =~= argv);
    }
    r.push('\n');
    r
}

/// A decimal digit character.
pub open spec fn is_dec_digit(c: char) -> bool {
    48 <= c as u32 <= 57
}

/// The value of a decimal digit character.
pub open spec fn digit_val(c: char) -> int {
    c as u32 - 48
}

/// Every character of the sequence is a decimal digit.
pub open spec fn all_digits(s: Seq<char>) -> bool {
    forall|i: int| 0 <= i < s.len() ==> is_dec_digit(#[trigger] s[i])
}

/// The number a digit sequence denotes, most significant digit first.
pub open spec fn digits_value(s: Seq<char>) -> int
    decreases s.len(),
{
    if s.len() == 0 {
        0
    } else {
        digits_value(s.drop_last()) * 10 + digit_val(s.last())
    }
}

/// What `str::parse::<usize>` accepts here: an optional leading `+`, then at
/// least one digit, denoting a value that fits in `usize`.
pub open spec fn parse_usize_spec(s: Seq<char>) -> Option<int> {
    let body = if s.len() > 0 && s[0] == '+' {
        s.drop_first()
    } else {
        s
    };
    if body.len() > 0 && all_digits(body) && digits_value(body) <= usize::MAX as int {
        Some(digits_value(body))
    } else {
        None
    }
}

proof fn lemma_digits_value_nonneg(s: Seq<char>)
    requires
        all_digits(s),
    ensures
        digits_value(s) >= 0,
    decreases s.len(),
{
    if s.len() > 0 {
        assert(all_digits(s.drop_last()));
        lemma_digits_value_nonneg(s.drop_last());
    }
}

proof fn lemma_digits_value_take_le(s: Seq<char>, k: int)
    requires
        0 <= k <= s.len(),
        all_digits(s),
    ensures
        digits_value(s.take(k)) <= digits_value(s),
    decreases s.len() - k,
{
    if k == s.len() {
        assert(s.take(k) =~= s);
    } else {
        assert(s.take(k + 1).drop_last() =~= s.take(k));
        assert(s.take(k + 1).last() == s[k]);
        assert(all_digits(s.take(k)));
        lemma_digits_value_nonneg(s.take(k));
        assert(digits_value(s.take(k + 1)) == digits_value(s.take(k)) * 10 + digit_val(s[k]));
        lemma_digits_value_take_le(s, k + 1);
    }
}

/// Parses a decimal `usize`, exactly as the `history` builtin reads its
/// argument: an optional leading `+`, then one or more digits; anything else,
/// or a value over `usize::MAX`, is rejected.
pub fn parse_usize(s: &str) -> (r: Option<usize>)
    ensures
        match r {
            Some(v) => parse_usize_spec(s@) == Some(v as int),
            None => parse_usize_spec(s@) is None,
        },
{
    let n = s.unicode_len();
    let start: usize = if n > 0 && s.get_char(0) == '+' {
        1
    } else {
        0
    };
    let ghost body = if s@.len() > 0 && s@[0] == '+' {
        s@.drop_first()
    } else {
        s@
    };
    proof {
        assert(body =~= s@.subrange(start as int, n as int));
    }
    if start >= n {
        return None;
    }
    let mut acc: usize = 0;
    let mut i: usize = start;
    while i < n
        invariant
            start <= i <= n,
            n == s@.len(),
            start < n,
            body == s@.subrange(start as int, n as int),
            body == (if s@.len() > 0 && s@[0] == '+' {
                s@.drop_first()
            } else {
                s@
            }),
            all_digits(body.take(i - start)),
            acc as int == digits_value(body.take(i - start)),
        decreases n - i,
    {
        let c = s.get_char(i);
        let u = c as u32;
        proof {
            assert(body[i - start] == s@[i as int]);
        }
        if u < 48 || u > 57 {
            proof {
                assert(!is_dec_digit(body[i - start]));
                assert(!all_digits(body));
            }
            return None;
        }
        let d = (u - 48) as usize;
        proof {
            assert(body.take(i - start + 1).drop_last() =~= body.take(i - start));
            assert(body.take(i - start + 1).last() == body[i - start]);
            assert(all_digits(body.take(i - start + 1)));
        }
        if acc > usize::MAX / 10 || (acc == usize::MAX / 10 && d > usize::MAX % 10) {
            proof {
                assert(usize::MAX as int == (usize::MAX as int / 10) * 10 + usize::MAX as int
                    % 10);
                assert(digits_value(body.take(i - start + 1)) > usize::MAX as int);
                if all_digits(body) {
                    lemma_digits_value_take_le(body, i - start + 1);
                    assert(digits_value(body) > usize::MAX as int);
                }
                assert(parse_usize_spec(s@) is None);
            }
            return None;
        }
        proof {
            assert(usize::MAX as int == (usize::MAX as int / 10) * 10 + usize::MAX as int % 10);
        }
        acc = acc * 10 + d;
        i += 1;
    }
    proof {
        assert(body.take(n - start) =~= body);
    }
    Some(acc)
}

/// One builtin invocation's result: the text for its output stream, the text
/// for its error stream, and a status code.
#[derive(Debug, Clone)]
pub struct BuiltinOutput {
    pub stdout: String,
    pub stderr: String,
    pub code: i32,
}

/// What `type` reports for a builtin name.
pub open spec fn type_builtin_line(name: Seq<char>) -> Seq<char> {
    name + " is a shell builtin\n"@
}

/// What `type` reports for an externally resolved name.
pub open spec fn type_path_line(name: Seq<char>, path: Seq<char>) -> Seq<char> {
    name + " is "@ + path + seq!['\n']
}

/// What `type` reports for an unresolved name.
pub open spec fn type_not_found_line(name: Seq<char>) -> Seq<char> {
    name + " not found\n"@
}

/// What the `type` builtin may print for a present operand: exactly the
/// builtin line for a builtin name; otherwise either a path line whose path
/// is some search directory joined with the name, or the not-found line —
/// which of the two depends on the filesystem at the moment of the call.
pub open spec fn type_output_ok(name: Seq<char>, dirs: Seq<Seq<char>>, out: Seq<char>) -> bool {
    if is_builtin_name(name) {
        out == type_builtin_line(name)
    } else {
        out == type_not_found_line(name) || exists|i: int|
            0 <= i < dirs.len() && out == type_path_line(
                name,
                joined_path(#[trigger] dirs[i], name),
            )
    }
}

/// The `type` builtin's report for each possible resolution of its operand:
/// the builtin line, the resolved-path line, or the not-found line.
pub fn type_report(target: &str, r: &Resolution) -> (out: String)
    ensures
        out@ == match r {
            Resolution::Builtin => type_builtin_line(target@),
            Resolution::External(p) => type_path_line(target@, p@),
            Resolution::NotFound => type_not_found_line(target@),
        },
{
    match r {
        Resolution::Builtin => {
            let mut out = String::from_str(target);
            out.append(" is a shell builtin\n");
            out
        },
        Resolution::External(p) => {
            let mut out = String::from_str(target);
            out.append(" is ");
            out.append(p.as_str());
            out.push('\n');
            proof {
                assert(out@ =~= type_path_line(target@, p@));
            }
            out
        },
        Resolution::NotFound => {
            let mut out = String::from_str(target);
            out.append(" not found\n");
            out
        },
    }
}

/// The `history` builtin's optional count: a single argument parsed as a
/// number; no argument, extra arguments, or an unparsable one mean the full
/// log.
pub open spec fn history_count_spec(args: Seq<Seq<char>>) -> Option<int> {
    if args.len() == 1 {
        parse_usize_spec(args[0])
    } else {
        None
    }
}

/// Relies on `std::path::Path::is_dir`: true when the path exists on disk and
/// is a directory (following symlinks). The answer depends on the filesystem
/// at the moment of the call, so nothing is promised of it.
#[verifier::external_body]
fn probe_is_dir(path: &String) -> bool {
    std::path::Path::new(path.as_str()).is_dir()
}

/// The outcome of a dispatched `cd` for each answer the filesystem can give
/// about its target: silence and success when the target is a directory, the
/// error line and failure when it is not.
pub fn cd_stage_report(dest: &str, target_is_dir: bool) -> (r: BuiltinOutput)
    ensures
        target_is_dir ==> r.stdout@.len() == 0 && r.stderr@.len() == 0 && r.code == 0,
        !target_is_dir ==> r.stdout@.len() == 0 && r.stderr@ == ("cd: "@ + dest@
            + ": No such file or directory"@).push('\n') && r.code == 1,
{
    if target_is_dir {
        BuiltinOutput { stdout: String::new(), stderr: String::new(), code: 0 }
    } else {
        let mut e = cd_error_message(dest);
        e.push('\n');
        BuiltinOutput { stdout: String::new(), stderr: e, code: 1 }
    }
}

/// Dispatches one builtin against a snapshot of the session: the history log,
/// the working directory (`None` when it cannot be determined), the home
/// directory, and the search directories. Nothing here mutates the session:
/// `cd` as a dispatched stage validates its target but leaves the shared
/// working directory alone, and `exit` is a no-op that succeeds, because only
/// the control loop may terminate the session or change its directory, and
/// only for a single-stage line.
pub fn run_builtin(
    cmd: &str,
    args: &Vec<String>,
    history: &Vec<String>,
    cwd: &Option<String>,
    home: &Option<String>,
    dirs: &Vec<String>,
) -> (r: BuiltinOutput)
    requires
        is_builtin_name(cmd@),
    ensures
        (if cmd@ == "echo"@ {
            r.stdout@ == echo_line(views_of(args@)) && r.stderr@.len() == 0 && r.code == 0
        } else if cmd@ == "pwd"@ {
            match cwd {
                Some(d) => r.stdout@ == d@.push('\n') && r.stderr@.len() == 0 && r.code == 0,
                None => r.stdout@.len() == 0 && r.stderr@
                    == "pwd: cannot determine the current directory\n"@ && r.code == 1,
            }
        } else if cmd@ == "type"@ {
            if args@.len() == 0 {
                r.stdout@.len() == 0 && r.stderr@ == "type: missing operand\n"@ && r.code == 1
            } else {
                type_output_ok(args@[0]@, views_of(dirs@), r.stdout@) && r.stderr@.len() == 0
                    && r.code == 0
            }
        } else if cmd@ == "history"@ {
            r.stdout@ == history_listing(
                views_of(history@),
                history_count_spec(views_of(args@)),
            ) && r.stderr@.len() == 0 && r.code == 0
        } else if cmd@ == "cd"@ {
            // subshell isolation: the target is validated, the shared working
            // directory is never touched from a dispatched stage
            match crate::session::cd_spec(
                views_of(args@),
                match home {
                    Some(h) => Some(h@),
                    None => None,
                },
            ) {
                CdModel::NoOp => r.stdout@.len() == 0 && r.stderr@.len() == 0 && r.code == 0,
                CdModel::HomeMissing => r.stdout@.len() == 0 && r.stderr@ == ("cd: "@ + "~"@
                    + ": No such file or directory"@).push('\n') && r.code == 1,
                CdModel::Chdir(_) => r.stdout@.len() == 0 && ((r.stderr@.len() == 0 && r.code
                    == 0) || (r.stderr@ == ("cd: "@ + args@[0]@
                    + ": No such file or directory"@).push('\n') && r.code == 1)),
            }
        } else {
            // `exit` inside a pipeline: no session effect, success
            r.stdout@.len() == 0 && r.stderr@.len() == 0 && r.code == 0
        }),
{
    if str_eq(cmd, "echo") {
        BuiltinOutput { stdout: echo_output(args), stderr: String::new(), code: 0 }
    } else if str_eq(cmd, "pwd") {
        match cwd {
            Some(d) => {
                let mut out = d.clone();
                out.push('\n');
                BuiltinOutput { stdout: out, stderr: String::new(), code: 0 }
            },
            None => BuiltinOutput {
                stdout: String::new(),
                stderr: String::from_str("pwd: cannot determine the current directory\n"),
                code: 1,
            },
        }
    } else if str_eq(cmd, "type") {
        if args.len() == 0 {
            BuiltinOutput {
                stdout: String::new(),
                stderr: String::from_str("type: missing operand\n"),
                code: 1,
            }
        } else {
            let target = &args[0];
            proof {
                assert(views_of(args@)[0] == args@[0]@);
            }
            let resolution = resolve(target.as_str(), dirs);
            let out = type_report(target.as_str(), &resolution);
            proof {
                if let Resolution::External(p) = &resolution {
                    let i = choose|i: int|
                        0 <= i < dirs@.len() && p@ == #[trigger] joined_path(
                            dirs@[i]@,
                            target@,
                        );
                    assert(views_of(dirs@)[i] == dirs@[i]@);
                    assert(out@ == type_path_line(
                        args@[0]@,
                        joined_path(views_of(dirs@)[i], args@[0]@),
                    ));
                }
            }
            BuiltinOutput { stdout: out, stderr: String::new(), code: 0 }
        }
    } else if str_eq(cmd, "history") {
        let n = if args.len() == 1 {
            proof {
                assert(views_of(args@)[0] == args@[0]@);
            }
            parse_usize(args[0].as_str())
        } else {
            None
        };
        BuiltinOutput { stdout: history_output(history, n), stderr: String::new(), code: 0 }
    } else if str_eq(cmd, "cd") {
        match cd_target(args, home) {
            CdOutcome::NoOp => BuiltinOutput {
                stdout: String::new(),
                stderr: String::new(),
                code: 0,
            },
            CdOutcome::HomeMissing => {
                let mut e = cd_error_message("~");
                e.push('\n');
                BuiltinOutput { stdout: String::new(), stderr: e, code: 1 }
            },
            CdOutcome::Chdir(target) => {
                proof {
                    assert(views_of(args@).len() > 0);
                    assert(views_of(args@)[0] == args@[0]@);
                }
                cd_stage_report(args[0].as_str(), probe_is_dir(&target))
            },
        }
    } else {
        BuiltinOutput { stdout: String::new(), stderr: String::new(), code: 0 }
    }
}

} // verus!

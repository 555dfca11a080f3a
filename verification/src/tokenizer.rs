//! The tokenizer: turns one raw input line into an ordered sequence of string
//! tokens, honoring single quotes, double quotes, backslash escapes, and the
//! unquoted pipe character, which becomes a token of its own.

use vstd::prelude::*;

use crate::text::{is_shell_whitespace, is_whitespace_char};

verus! {

/// The view of a list of owned strings, as a sequence of character sequences.
pub open spec fn views_of(v: Seq<String>) -> Seq<Seq<char>> {
    v.map_values(|s: String| s@)
}

/// The three pieces of scanning state plus the token being built and the
/// tokens already emitted. Used only in specifications.
pub struct ScanState {
    pub in_single: bool,
    pub in_double: bool,
    pub escape: bool,
    pub current: Seq<char>,
    pub tokens: Seq<Seq<char>>,
}

/// The scan starts outside any quoting with nothing accumulated.
pub open spec fn scan_init() -> ScanState {
    ScanState {
        in_single: false,
        in_double: false,
        escape: false,
        current: Seq::empty(),
        tokens: Seq::empty(),
    }
}

/// Inside double quotes a backslash escapes exactly these four characters.
pub open spec fn dq_escapable(c: char) -> bool {
    c == '\\' || c == '"' || c == '$' || c == '`'
}

/// One step of the scan: how a single character changes the state.
pub open spec fn scan_step(st: ScanState, c: char) -> ScanState {
    if st.escape {
        let cur = if st.in_single {
            st.current.push('\\').push(c)
        } else if st.in_double {
            if dq_escapable(c) {
                st.current.push(c)
            } else {
                st.current.push('\\').push(c)
            }
        } else {
            st.current.push(c)
        };
        ScanState { escape: false, current: cur, ..st }
    } else if c == '\\' && !st.in_single {
        ScanState { escape: true, ..st }
    } else if c == '\'' && !st.in_double {
        ScanState { in_single: !st.in_single, ..st }
    } else if c == '"' && !st.in_single {
        ScanState { in_double: !st.in_double, ..st }
    } else if !st.in_single && !st.in_double && c == '|' {
        let toks = if st.current.len() > 0 {
            st.tokens.push(st.current)
        } else {
            st.tokens
        };
        ScanState { current: Seq::empty(), tokens: toks.push(seq!['|']), ..st }
    } else if !st.in_single && !st.in_double && is_shell_whitespace(c) {
        let toks = if st.current.len() > 0 {
            st.tokens.push(st.current)
        } else {
            st.tokens
        };
        ScanState { current: Seq::empty(), tokens: toks, ..st }
    } else {
        ScanState { current: st.current.push(c), ..st }
    }
}

/// The state after scanning the first `n` characters of `line`.
pub open spec fn scan_run(line: Seq<char>, n: int) -> ScanState
    decreases n,
{
    if n <= 0 {
        scan_init()
    } else {
        scan_step(scan_run(line, n - 1), line[n - 1])
    }
}

/// End of line: an unterminated escape keeps its backslash literally, and a
/// non-empty token in progress is emitted.
pub open spec fn scan_finish(st: ScanState) -> Seq<Seq<char>> {
    let cur = if st.escape {
        st.current.push('\\')
    } else {
        st.current
    };
    if cur.len() > 0 {
        st.tokens.push(cur)
    } else {
        st.tokens
    }
}

/// The tokens of a whole line.
pub open spec fn tokens_of(line: Seq<char>) -> Seq<Seq<char>> {
    scan_finish(scan_run(line, line.len() as int))
}

pub proof fn lemma_views_of_push(v: Seq<String>, t: String)
    ensures
        views_of(v.push(t)) == views_of(v).push(t@),
{
    assert(views_of(v.push(t)) =~= views_of(v).push(t@));
}

/// Splits one line of input into tokens, left to right, honoring quoting and
/// escaping; an unquoted `|` becomes a single-character token of its own.
pub fn tokenize(line: &str) -> (tokens: Vec<String>)
    ensures
        views_of(tokens@) == tokens_of(line@),
{
    let n = line.unicode_len();
    let mut toks: Vec<String> = Vec::new();
    let mut current: String = String::new();
    let mut in_single = false;
    let mut in_double = false;
    let mut escape = false;
    let mut i: usize = 0;
    while i < n
        invariant
            i <= n,
            n == line@.len(),
            in_single == scan_run(line@, i as int).in_single,
            in_double == scan_run(line@, i as int).in_double,
            escape == scan_run(line@, i as int).escape,
            current@ == scan_run(line@, i as int).current,
            views_of(toks@) == scan_run(line@, i as int).tokens,
        decreases n - i,
    {
        let ghost pre = scan_run(line@, i as int);
        let c = line.get_char(i);
        if escape {
            if in_single {
                current.push('\\');
                current.push(c);
            } else if in_double {
                if c == '\\' || c == '"' || c == '$' || c == '`' {
                    current.push(c);
                } else {
                    current.push('\\');
                    current.push(c);
                }
            } else {
                current.push(c);
            }
            escape = false;
        } else if c == '\\' && !in_single {
            escape = true;
        } else if c == '\'' && !in_double {
            in_single = !in_single;
        } else if c == '"' && !in_single {
            in_double = !in_double;
        } else if !in_single && !in_double && c == '|' {
            if !current.as_str().is_empty() {
                proof {
                    lemma_views_of_push(toks@, current);
                }
                toks.push(current);
                current = String::new();
            }
            let pipe = String::from_str("|");
            proof {
                reveal_strlit("|");
                assert(pipe@ =~= seq!['|']);
                lemma_views_of_push(toks@, pipe);
            }
            toks.push(pipe);
        } else if !in_single && !in_double && is_whitespace_char(c) {
            if !current.as_str().is_empty() {
                proof {
                    lemma_views_of_push(toks@, current);
                }
                toks.push(current);
                current = String::new();
            }
        } else {
            current.push(c);
        }
        proof {
            assert(scan_run(line@, i + 1) == scan_step(pre, line@[i as int]));
        }
        i += 1;
    }
    if escape {
        current.push('\\');
    }
    if !current.as_str().is_empty() {
        proof {
            lemma_views_of_push(toks@, current);
        }
        toks.push(current);
    }
    toks
}

proof fn lemma_scan_tokens_nonempty(line: Seq<char>, n: int)
    ensures
        forall|k: int|
            0 <= k < scan_run(line, n).tokens.len() ==> #[trigger] scan_run(
                line,
                n,
            ).tokens[k].len() > 0,
    decreases n,
{
    if n > 0 {
        lemma_scan_tokens_nonempty(line, n - 1);
        assert(scan_run(line, n) == scan_step(scan_run(line, n - 1), line[n - 1]));
    }
}

/// A token is never the empty string: the scan emits the token in progress
/// only when it is non-empty, and the pipe token has one character.
pub proof fn lemma_tokens_nonempty(line: Seq<char>)
    ensures
        forall|k: int|
            0 <= k < tokens_of(line).len() ==> #[trigger] tokens_of(line)[k].len() > 0,
{
    lemma_scan_tokens_nonempty(line, line.len() as int);
}

proof fn lemma_single_quote_run(s: Seq<char>, i: int)
    requires
        0 <= i <= s.len(),
        forall|k: int| 0 <= k < s.len() ==> #[trigger] s[k] != '\'',
    ensures
        scan_run(seq!['\''] + s + seq!['\''], 1 + i) == (ScanState {
            in_single: true,
            in_double: false,
            escape: false,
            current: s.take(i),
            tokens: Seq::empty(),
        }),
    decreases i,
{
    let line = seq!['\''] + s + seq!['\''];
    if i == 0 {
        assert(line[0] == '\'');
        assert(scan_run(line, 0) == scan_init());
        assert(scan_run(line, 1) == scan_step(scan_init(), line[0]));
        assert(s.take(0) =~= Seq::<char>::empty());
    } else {
        lemma_single_quote_run(s, i - 1);
        assert(line[i] == s[i - 1]);
        assert(scan_run(line, 1 + i) == scan_step(scan_run(line, i), line[i]));
        assert(s.take(i - 1).push(s[i - 1]) =~= s.take(i));
    }
}

/// Law: inside double quotes a backslash escapes exactly the four characters
/// backslash, double quote, dollar sign and backtick, producing the literal
/// character; before any other character both the backslash and the character
/// come through.
pub proof fn lemma_double_quote_escape(c: char)
    ensures
        tokens_of(seq!['"', '\\', c, '"']) == (if dq_escapable(c) {
            seq![seq![c]]
        } else {
            seq![seq!['\\', c]]
        }),
{
    let line = seq!['"', '\\', c, '"'];
    assert(line[0] == '"' && line[1] == '\\' && line[2] == c && line[3] == '"');
    assert(scan_run(line, 0) == scan_init());
    assert(scan_run(line, 1) == scan_step(scan_run(line, 0), '"'));
    assert(scan_run(line, 2) == scan_step(scan_run(line, 1), '\\'));
    assert(scan_run(line, 3) == scan_step(scan_run(line, 2), c));
    assert(scan_run(line, 4) == scan_step(scan_run(line, 3), '"'));
    if dq_escapable(c) {
        assert(scan_run(line, 3).current =~= seq![c]);
        assert(tokens_of(line) =~= seq![seq![c]]);
    } else {
        assert(scan_run(line, 3).current =~= seq!['\\', c]);
        assert(tokens_of(line) =~= seq![seq!['\\', c]]);
    }
}

/// Law: inside single quotes no character is substituted or given special
/// meaning. A line consisting of any non-empty text without a single-quote
/// character, wrapped in single quotes, tokenizes to exactly that text as one
/// token — backslashes, dollar signs, double quotes, pipes and whitespace
/// included.
pub proof fn lemma_single_quoted_is_literal(s: Seq<char>)
    requires
        s.len() > 0,
        forall|k: int| 0 <= k < s.len() ==> #[trigger] s[k] != '\'',
    ensures
        tokens_of(seq!['\''] + s + seq!['\'']) == seq![s],
{
    let line = seq!['\''] + s + seq!['\''];
    lemma_single_quote_run(s, s.len() as int);
    assert(line.len() == s.len() + 2);
    assert(line[s.len() as int + 1] == '\'');
    assert(scan_run(line, line.len() as int) == scan_step(
        scan_run(line, s.len() as int + 1),
        line[s.len() as int + 1],
    ));
    assert(s.take(s.len() as int) =~= s);
    assert(tokens_of(line) =~= seq![s]);
}

} // verus!

//! The command parser: splits the token sequence into pipeline stages at
//! unquoted pipe tokens, then extracts redirection operators and their path
//! arguments from each stage, producing a structured stage descriptor.

use vstd::prelude::*;

use crate::tokenizer::views_of;

verus! {

/// Where a stage's output or error stream goes: the surrounding context, a
/// file opened with truncation, or a file opened for appending.
#[derive(Debug, Clone, PartialEq)]
pub enum RedirectTarget {
    Inherit,
    Truncate(String),
    Append(String),
}

/// The mathematical value of a `RedirectTarget`.
pub enum RedirModel {
    Inherit,
    Truncate(Seq<char>),
    Append(Seq<char>),
}

impl View for RedirectTarget {
    type V = RedirModel;

    open spec fn view(&self) -> RedirModel {
        match self {
            RedirectTarget::Inherit => RedirModel::Inherit,
            RedirectTarget::Truncate(p) => RedirModel::Truncate(p@),
            RedirectTarget::Append(p) => RedirModel::Append(p@),
        }
    }
}

/// One pipeline stage: a command name, its arguments in order, and one
/// redirect target each for standard output and standard error.
#[derive(Debug, Clone)]
pub struct Stage {
    pub cmd: String,
    pub args: Vec<String>,
    pub stdout: RedirectTarget,
    pub stderr: RedirectTarget,
}

/// The mathematical value of a `Stage`.
pub struct StageModel {
    pub cmd: Seq<char>,
    pub args: Seq<Seq<char>>,
    pub stdout: RedirModel,
    pub stderr: RedirModel,
}

impl View for Stage {
    type V = StageModel;

    open spec fn view(&self) -> StageModel {
        StageModel {
            cmd: self.cmd@,
            args: views_of(self.args@),
            stdout: self.stdout@,
            stderr: self.stderr@,
        }
    }
}

/// A malformed line: an empty stage next to a pipe, or a redirection operator
/// with no path after it (the operator's command name is carried for the
/// report).
#[derive(Debug, Clone, PartialEq)]
pub enum SyntaxError {
    EmptyStage,
    MissingRedirectPath(String),
}

/// The mathematical value of a `SyntaxError`.
pub enum SyntaxErrorModel {
    EmptyStage,
    MissingRedirectPath(Seq<char>),
}

impl View for SyntaxError {
    type V = SyntaxErrorModel;

    open spec fn view(&self) -> SyntaxErrorModel {
        match self {
            SyntaxError::EmptyStage => SyntaxErrorModel::EmptyStage,
            SyntaxError::MissingRedirectPath(c) => SyntaxErrorModel::MissingRedirectPath(c@),
        }
    }
}

/// What a syntax error reports on the real error stream.
pub open spec fn syntax_error_message(e: SyntaxErrorModel) -> Seq<char> {
    match e {
        SyntaxErrorModel::EmptyStage => "syntax error near unexpected token `|`"@,
        SyntaxErrorModel::MissingRedirectPath(cmd) => cmd
            + ": syntax error near unexpected token `newline`"@,
    }
}

impl SyntaxError {
    /// The report for this error, ready to be printed.
    pub fn message(&self) -> (r: String)
        ensures
            r@ == syntax_error_message(self@),
    {
        match self {
            SyntaxError::EmptyStage => String::from_str(
                "syntax error near unexpected token `|`",
            ),
            SyntaxError::MissingRedirectPath(cmd) => cmd.clone().concat(
                ": syntax error near unexpected token `newline`",
            ),
        }
    }
}

/// A token consisting of the single unquoted pipe character.
pub open spec fn is_pipe_token(t: Seq<char>) -> bool {
    t == seq!['|']
}

/// Decides whether a token is the pipe separator.
pub fn is_pipe_tok(t: &String) -> (r: bool)
    ensures
        r == is_pipe_token(t@),
{
    let s = t.as_str();
    if s.unicode_len() == 1 && s.get_char(0) == '|' {
        proof {
            assert(t@ =~= seq!['|']);
        }
        true
    } else {
        proof {
            assert(seq!['|'].len() == 1);
        }
        false
    }
}

/// Splitting the token sequence at pipe tokens, collecting the current stage
/// in `cur` and the closed stages in `acc`; `None` is a syntax error (an
/// empty stage beside a pipe, or a trailing pipe).
pub open spec fn split_rec(
    tokens: Seq<Seq<char>>,
    i: int,
    cur: Seq<Seq<char>>,
    acc: Seq<Seq<Seq<char>>>,
) -> Option<Seq<Seq<Seq<char>>>>
    decreases tokens.len() - i,
{
    if i < 0 || i >= tokens.len() {
        if cur.len() == 0 {
            None
        } else {
            Some(acc.push(cur))
        }
    } else if is_pipe_token(tokens[i]) {
        if cur.len() == 0 {
            None
        } else {
            split_rec(tokens, i + 1, Seq::empty(), acc.push(cur))
        }
    } else {
        split_rec(tokens, i + 1, cur.push(tokens[i]), acc)
    }
}

/// The stages of a token sequence, or `None` on an empty stage.
pub open spec fn split_pipeline_spec(tokens: Seq<Seq<char>>) -> Option<Seq<Seq<Seq<char>>>> {
    split_rec(tokens, 0, Seq::empty(), Seq::empty())
}

/// The view of a list of stage token lists.
pub open spec fn chunk_views(v: Seq<Vec<String>>) -> Seq<Seq<Seq<char>>> {
    v.map_values(|c: Vec<String>| views_of(c@))
}

/// The view of a list of stages.
pub open spec fn stage_views(v: Seq<Stage>) -> Seq<StageModel> {
    v.map_values(|s: Stage| s@)
}

proof fn lemma_chunk_views_push(v: Seq<Vec<String>>, c: Vec<String>)
    ensures
        chunk_views(v.push(c)) == chunk_views(v).push(views_of(c@)),
{
    assert(chunk_views(v.push(c)) =~= chunk_views(v).push(views_of(c@)));
}

/// Splits a token list into pipeline stages at each pipe token. An empty
/// stage — a pipe with nothing before it, two pipes in a row, or a trailing
/// pipe — is a syntax error.
pub fn split_pipeline(tokens: &Vec<String>) -> (r: Result<Vec<Vec<String>>, SyntaxError>)
    ensures
        match r {
            Ok(chunks) => split_pipeline_spec(views_of(tokens@)) == Some(chunk_views(chunks@))
                && chunks@.len() > 0 && (forall|j: int|
                0 <= j < chunks@.len() ==> #[trigger] chunks@[j]@.len() > 0),
            Err(e) => split_pipeline_spec(views_of(tokens@)) is None && e@
                == SyntaxErrorModel::EmptyStage,
        },
{
    let ghost toksv = views_of(tokens@);
    let mut out: Vec<Vec<String>> = Vec::new();
    let mut cur: Vec<String> = Vec::new();
    proof {
        assert(views_of(cur@) =~= Seq::<Seq<char>>::empty());
        assert(chunk_views(out@) =~= Seq::<Seq<Seq<char>>>::empty());
    }
    let mut i: usize = 0;
    while i < tokens.len()
        invariant
            i <= tokens@.len(),
            toksv == views_of(tokens@),
            split_rec(toksv, i as int, views_of(cur@), chunk_views(out@)) == split_pipeline_spec(
                toksv,
            ),
            forall|j: int| 0 <= j < out@.len() ==> #[trigger] out@[j]@.len() > 0,
        decreases tokens@.len() - i,
    {
        proof {
            assert(toksv[i as int] == tokens@[i as int]@);
        }
        if is_pipe_tok(&tokens[i]) {
            if cur.len() == 0 {
                return Err(SyntaxError::EmptyStage);
            }
            proof {
                lemma_chunk_views_push(out@, cur);
            }
            out.push(cur);
            cur = Vec::new();
            proof {
                assert(views_of(cur@) =~= Seq::<Seq<char>>::empty());
            }
        } else {
            let t = tokens[i].clone();
            proof {
                crate::tokenizer::lemma_views_of_push(cur@, t);
            }
            cur.push(t);
        }
        i += 1;
    }
    if cur.len() == 0 {
        return Err(SyntaxError::EmptyStage);
    }
    proof {
        lemma_chunk_views_push(out@, cur);
    }
    out.push(cur);
    Ok(out)
}

/// The four redirection operators: stdout truncate (`>`, `1>`), stdout append
/// (`>>`, `1>>`), stderr truncate (`2>`), stderr append (`2>>`).
pub enum RedirOp {
    OutTrunc,
    OutApp,
    ErrTrunc,
    ErrApp,
}

/// Recognizes a redirection operator token.
pub open spec fn redirect_op(t: Seq<char>) -> Option<RedirOp> {
    if t == seq!['>'] || t == seq!['1', '>'] {
        Some(RedirOp::OutTrunc)
    } else if t == seq!['>', '>'] || t == seq!['1', '>', '>'] {
        Some(RedirOp::OutApp)
    } else if t == seq!['2', '>'] {
        Some(RedirOp::ErrTrunc)
    } else if t == seq!['2', '>', '>'] {
        Some(RedirOp::ErrApp)
    } else {
        None
    }
}

/// Decides whether a token is a redirection operator, and which.
pub fn classify_redirect(t: &String) -> (r: Option<RedirOp>)
    ensures
        r == redirect_op(t@),
{
    let s = t.as_str();
    let n = s.unicode_len();
    if n == 1 {
        let c0 = s.get_char(0);
        if c0 == '>' {
            proof {
                assert(t@ =~= seq!['>']);
            }
            Some(RedirOp::OutTrunc)
        } else {
            None
        }
    } else if n == 2 {
        let c0 = s.get_char(0);
        let c1 = s.get_char(1);
        if c0 == '1' && c1 == '>' {
            proof {
                assert(t@ =~= seq!['1', '>']);
            }
            Some(RedirOp::OutTrunc)
        } else if c0 == '>' && c1 == '>' {
            proof {
                assert(t@ =~= seq!['>', '>']);
            }
            Some(RedirOp::OutApp)
        } else if c0 == '2' && c1 == '>' {
            proof {
                assert(t@ =~= seq!['2', '>']);
            }
            Some(RedirOp::ErrTrunc)
        } else {
            None
        }
    } else if n == 3 {
        let c0 = s.get_char(0);
        let c1 = s.get_char(1);
        let c2 = s.get_char(2);
        if c0 == '1' && c1 == '>' && c2 == '>' {
            proof {
                assert(t@ =~= seq!['1', '>', '>']);
            }
            Some(RedirOp::OutApp)
        } else if c0 == '2' && c1 == '>' && c2 == '>' {
            proof {
                assert(t@ =~= seq!['2', '>', '>']);
            }
            Some(RedirOp::ErrApp)
        } else {
            None
        }
    } else {
        None
    }
}

/// Applies one recognized redirection operator with its path to a stage.
pub open spec fn apply_redirect(st: StageModel, op: RedirOp, path: Seq<char>) -> StageModel {
    match op {
        RedirOp::OutTrunc => StageModel { stdout: RedirModel::Truncate(path), ..st },
        RedirOp::OutApp => StageModel { stdout: RedirModel::Append(path), ..st },
        RedirOp::ErrTrunc => StageModel { stderr: RedirModel::Truncate(path), ..st },
        RedirOp::ErrApp => StageModel { stderr: RedirModel::Append(path), ..st },
    }
}

/// Scanning a stage's tokens from position `i`: operators take the following
/// token as their path; every other token is an argument; an operator as the
/// last token is a syntax error (`None`).
pub open spec fn parse_rec(tokens: Seq<Seq<char>>, i: int, st: StageModel) -> Option<StageModel>
    decreases tokens.len() - i,
{
    if i < 0 || i >= tokens.len() {
        Some(st)
    } else {
        match redirect_op(tokens[i]) {
            Some(op) => if i + 1 >= tokens.len() {
                None
            } else {
                parse_rec(tokens, i + 2, apply_redirect(st, op, tokens[i + 1]))
            },
            None => parse_rec(
                tokens,
                i + 1,
                StageModel { args: st.args.push(tokens[i]), ..st },
            ),
        }
    }
}

/// The stage descriptor of one stage's token list: the first token is the
/// command name, the rest are scanned for operators and arguments.
pub open spec fn parse_stage_spec(tokens: Seq<Seq<char>>) -> Option<StageModel>
    recommends
        tokens.len() > 0,
{
    parse_rec(
        tokens,
        1,
        StageModel {
            cmd: tokens[0],
            args: Seq::empty(),
            stdout: RedirModel::Inherit,
            stderr: RedirModel::Inherit,
        },
    )
}

/// Parses one stage's token list into a stage descriptor. The first token is
/// the command name; `>`/`1>`, `>>`/`1>>`, `2>`, `2>>` each consume the next
/// token as their path; other tokens become arguments in their typed order.
pub fn parse_command(tokens: &Vec<String>) -> (r: Result<Stage, SyntaxError>)
    requires
        tokens@.len() > 0,
    ensures
        match r {
            Ok(st) => parse_stage_spec(views_of(tokens@)) == Some(st@),
            Err(e) => parse_stage_spec(views_of(tokens@)) is None && e@
                == SyntaxErrorModel::MissingRedirectPath(tokens@[0]@),
        },
{
    let ghost toksv = views_of(tokens@);
    let cmd = tokens[0].clone();
    let mut args: Vec<String> = Vec::new();
    let mut stdout = RedirectTarget::Inherit;
    let mut stderr = RedirectTarget::Inherit;
    proof {
        assert(views_of(args@) =~= Seq::<Seq<char>>::empty());
        assert(toksv[0] == tokens@[0]@);
    }
    let mut i: usize = 1;
    while i < tokens.len()
        invariant
            1 <= i,
            i <= tokens@.len() || i == tokens@.len() + 1,
            toksv == views_of(tokens@),
            tokens@.len() > 0,
            cmd@ == toksv[0],
            parse_rec(
                toksv,
                i as int,
                StageModel {
                    cmd: cmd@,
                    args: views_of(args@),
                    stdout: stdout@,
                    stderr: stderr@,
                },
            ) == parse_stage_spec(toksv),
        decreases tokens@.len() + 2 - i,
    {
        let ghost cur = StageModel {
            cmd: cmd@,
            args: views_of(args@),
            stdout: stdout@,
            stderr: stderr@,
        };
        proof {
            assert(toksv[i as int] == tokens@[i as int]@);
        }
        match classify_redirect(&tokens[i]) {
            Some(op) => {
                if i + 1 >= tokens.len() {
                    return Err(SyntaxError::MissingRedirectPath(cmd));
                }
                proof {
                    assert(toksv[i as int + 1] == tokens@[i as int + 1]@);
                }
                let path = tokens[i + 1].clone();
                match op {
                    RedirOp::OutTrunc => {
                        stdout = RedirectTarget::Truncate(path);
                    },
                    RedirOp::OutApp => {
                        stdout = RedirectTarget::Append(path);
                    },
                    RedirOp::ErrTrunc => {
                        stderr = RedirectTarget::Truncate(path);
                    },
                    RedirOp::ErrApp => {
                        stderr = RedirectTarget::Append(path);
                    },
                }
                i += 2;
            },
            None => {
                let t = tokens[i].clone();
                proof {
                    crate::tokenizer::lemma_views_of_push(args@, t);
                }
                args.push(t);
                i += 1;
            },
        }
    }
    Ok(Stage { cmd, args, stdout, stderr })
}

/// Parsing every stage of a split line in order; the error carries the
/// command name of the first failing stage.
pub open spec fn parse_stages_rec(chunks: Seq<Seq<Seq<char>>>, i: int) -> Result<
    Seq<StageModel>,
    Seq<char>,
>
    decreases chunks.len() - i,
{
    if i < 0 || i >= chunks.len() {
        Ok(Seq::empty())
    } else {
        match parse_stage_spec(chunks[i]) {
            None => Err(chunks[i][0]),
            Some(st) => match parse_stages_rec(chunks, i + 1) {
                Ok(rest) => Ok(seq![st] + rest),
                Err(c) => Err(c),
            },
        }
    }
}

/// The validated pipeline of a whole token sequence, or the syntax error that
/// aborts interpretation of the line.
pub open spec fn parse_line_spec(tokens: Seq<Seq<char>>) -> Result<
    Seq<StageModel>,
    SyntaxErrorModel,
> {
    match split_pipeline_spec(tokens) {
        None => Err(SyntaxErrorModel::EmptyStage),
        Some(chunks) => match parse_stages_rec(chunks, 0) {
            Ok(sts) => Ok(sts),
            Err(c) => Err(SyntaxErrorModel::MissingRedirectPath(c)),
        },
    }
}

fn parse_stages(chunks: &Vec<Vec<String>>, i: usize) -> (r: Result<Vec<Stage>, SyntaxError>)
    requires
        i <= chunks@.len(),
        forall|j: int| 0 <= j < chunks@.len() ==> #[trigger] chunks@[j]@.len() > 0,
    ensures
        match r {
            Ok(sts) => parse_stages_rec(chunk_views(chunks@), i as int) == Ok::<
                Seq<StageModel>,
                Seq<char>,
            >(stage_views(sts@)) && sts@.len() == chunks@.len() - i,
            Err(e) => parse_stages_rec(chunk_views(chunks@), i as int) is Err && e@
                == SyntaxErrorModel::MissingRedirectPath(
                parse_stages_rec(chunk_views(chunks@), i as int)->Err_0,
            ),
        },
    decreases chunks@.len() - i,
{
    if i == chunks.len() {
        let r: Vec<Stage> = Vec::new();
        proof {
            assert(stage_views(r@) =~= Seq::<StageModel>::empty());
        }
        return Ok(r);
    }
    let ghost cv = chunk_views(chunks@);
    proof {
        assert(cv[i as int] == views_of(chunks@[i as int]@));
        assert(cv[i as int][0] == chunks@[i as int]@[0]@);
    }
    match parse_command(&chunks[i]) {
        Err(e) => Err(e),
        Ok(st) => match parse_stages(chunks, i + 1) {
            Err(e) => Err(e),
            Ok(rest) => {
                let ghost restv = rest@;
                let mut sts = rest;
                sts.insert(0, st);
                proof {
                    assert(stage_views(sts@) =~= seq![st@] + stage_views(restv));
                }
                Ok(sts)
            },
        },
    }
}

/// An ordered, non-empty sequence of stage descriptors; the first stage's
/// output feeds the next stage's input.
#[derive(Debug, Clone)]
pub struct Pipeline {
    pub stages: Vec<Stage>,
}

impl View for Pipeline {
    type V = Seq<StageModel>;

    open spec fn view(&self) -> Seq<StageModel> {
        stage_views(self.stages@)
    }
}

/// Parses a token sequence into a validated pipeline, or reports the syntax
/// error that aborts interpretation of the whole line.
pub fn parse_line(tokens: &Vec<String>) -> (r: Result<Pipeline, SyntaxError>)
    ensures
        match r {
            Ok(p) => parse_line_spec(views_of(tokens@)) == Ok::<
                Seq<StageModel>,
                SyntaxErrorModel,
            >(p@) && p.stages@.len() > 0 && p@.len() > 0,
            Err(e) => parse_line_spec(views_of(tokens@)) == Err::<
                Seq<StageModel>,
                SyntaxErrorModel,
            >(e@),
        },
{
    match split_pipeline(tokens) {
        Err(e) => Err(e),
        Ok(chunks) => match parse_stages(&chunks, 0) {
            Err(e) => Err(e),
            Ok(sts) => Ok(Pipeline { stages: sts }),
        },
    }
}

/// The pipeline a whole raw line denotes, from tokenizing through parsing.
pub open spec fn line_pipeline_spec(line: Seq<char>) -> Result<
    Seq<StageModel>,
    SyntaxErrorModel,
> {
    parse_line_spec(crate::tokenizer::tokens_of(line))
}

proof fn lemma_split_rec_nonempty(
    tokens: Seq<Seq<char>>,
    i: int,
    cur: Seq<Seq<char>>,
    acc: Seq<Seq<Seq<char>>>,
)
    requires
        forall|k: int| 0 <= k < tokens.len() ==> #[trigger] tokens[k].len() > 0,
        forall|k: int| 0 <= k < cur.len() ==> #[trigger] cur[k].len() > 0,
        forall|c: int, k: int|
            0 <= c < acc.len() && 0 <= k < acc[c].len() ==> #[trigger] acc[c][k].len() > 0,
    ensures
        match split_rec(tokens, i, cur, acc) {
            Some(chunks) => forall|c: int, k: int|
                0 <= c < chunks.len() && 0 <= k < chunks[c].len() ==> #[trigger] chunks[c][k].len()
                    > 0,
            None => true,
        },
    decreases tokens.len() - i,
{
    if i < 0 || i >= tokens.len() {
    } else if is_pipe_token(tokens[i]) {
        if cur.len() > 0 {
            lemma_split_rec_nonempty(tokens, i + 1, Seq::empty(), acc.push(cur));
        }
    } else {
        lemma_split_rec_nonempty(tokens, i + 1, cur.push(tokens[i]), acc);
    }
}

proof fn lemma_parse_rec_cmd(tokens: Seq<Seq<char>>, i: int, st: StageModel)
    ensures
        match parse_rec(tokens, i, st) {
            Some(r) => r.cmd == st.cmd,
            None => true,
        },
    decreases tokens.len() - i,
{
    if 0 <= i < tokens.len() {
        match redirect_op(tokens[i]) {
            Some(op) => {
                if i + 1 < tokens.len() {
                    lemma_parse_rec_cmd(tokens, i + 2, apply_redirect(st, op, tokens[i + 1]));
                }
            },
            None => {
                lemma_parse_rec_cmd(tokens, i + 1, StageModel { args: st.args.push(tokens[i]), ..st });
            },
        }
    }
}

proof fn lemma_parse_stages_nonempty(chunks: Seq<Seq<Seq<char>>>, i: int)
    requires
        forall|c: int, k: int|
            0 <= c < chunks.len() && 0 <= k < chunks[c].len() ==> #[trigger] chunks[c][k].len()
                > 0,
        forall|c: int| 0 <= c < chunks.len() ==> #[trigger] chunks[c].len() > 0,
    ensures
        match parse_stages_rec(chunks, i) {
            Ok(sts) => forall|j: int| 0 <= j < sts.len() ==> #[trigger] sts[j].cmd.len() > 0,
            Err(_) => true,
        },
    decreases chunks.len() - i,
{
    if 0 <= i < chunks.len() {
        match parse_stage_spec(chunks[i]) {
            None => {},
            Some(st) => {
                lemma_parse_rec_cmd(
                    chunks[i],
                    1,
                    StageModel {
                        cmd: chunks[i][0],
                        args: Seq::empty(),
                        stdout: RedirModel::Inherit,
                        stderr: RedirModel::Inherit,
                    },
                );
                lemma_parse_stages_nonempty(chunks, i + 1);
            },
        }
    }
}

proof fn lemma_split_chunks_nonempty(
    tokens: Seq<Seq<char>>,
    i: int,
    cur: Seq<Seq<char>>,
    acc: Seq<Seq<Seq<char>>>,
)
    requires
        forall|c: int| 0 <= c < acc.len() ==> #[trigger] acc[c].len() > 0,
    ensures
        match split_rec(tokens, i, cur, acc) {
            Some(chunks) => forall|c: int| 0 <= c < chunks.len() ==> #[trigger] chunks[c].len()
                > 0,
            None => true,
        },
    decreases tokens.len() - i,
{
    if i < 0 || i >= tokens.len() {
    } else if is_pipe_token(tokens[i]) {
        if cur.len() > 0 {
            lemma_split_chunks_nonempty(tokens, i + 1, Seq::empty(), acc.push(cur));
        }
    } else {
        lemma_split_chunks_nonempty(tokens, i + 1, cur.push(tokens[i]), acc);
    }
}

/// The stage-descriptor invariant: a parsed line's command names are never
/// empty, because the tokenizer never emits an empty token and the command
/// name is a stage's first token.
pub proof fn lemma_line_cmds_nonempty(line: Seq<char>)
    ensures
        match line_pipeline_spec(line) {
            Ok(stages) => forall|j: int|
                0 <= j < stages.len() ==> #[trigger] stages[j].cmd.len() > 0,
            Err(_) => true,
        },
{
    crate::tokenizer::lemma_tokens_nonempty(line);
    let toks = crate::tokenizer::tokens_of(line);
    lemma_split_rec_nonempty(toks, 0, Seq::empty(), Seq::empty());
    lemma_split_chunks_nonempty(toks, 0, Seq::empty(), Seq::empty());
    match split_pipeline_spec(toks) {
        Some(chunks) => lemma_parse_stages_nonempty(chunks, 0),
        None => {},
    }
}

/// Tokenizes and parses one raw input line.
pub fn interpret_line(line: &str) -> (r: Result<Pipeline, SyntaxError>)
    ensures
        match r {
            Ok(p) => line_pipeline_spec(line@) == Ok::<Seq<StageModel>, SyntaxErrorModel>(p@)
                && p.stages@.len() > 0 && (forall|j: int|
                0 <= j < p@.len() ==> (#[trigger] p@[j]).cmd.len() > 0),
            Err(e) => line_pipeline_spec(line@) == Err::<Seq<StageModel>, SyntaxErrorModel>(e@),
        },
{
    proof {
        lemma_line_cmds_nonempty(line@);
    }
    let tokens = crate::tokenizer::tokenize(line);
    parse_line(&tokens)
}

} // verus!

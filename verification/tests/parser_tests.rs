use minishell::parser::{
    interpret_line, parse_command, split_pipeline, RedirectTarget, SyntaxError,
};
use minishell::tokenizer::tokenize;

fn strings(v: &[&str]) -> Vec<String> {
    v.iter().map(|s| s.to_string()).collect()
}

#[test]
fn single_stage_has_cmd_and_args() {
    let p = interpret_line("echo hello world").unwrap();
    assert_eq!(p.stages.len(), 1);
    assert_eq!(p.stages[0].cmd, "echo");
    assert_eq!(p.stages[0].args, vec!["hello", "world"]);
    assert_eq!(p.stages[0].stdout, RedirectTarget::Inherit);
    assert_eq!(p.stages[0].stderr, RedirectTarget::Inherit);
}

#[test]
fn pipeline_splits_into_stages() {
    let p = interpret_line("yes | head -n 3").unwrap();
    assert_eq!(p.stages.len(), 2);
    assert_eq!(p.stages[0].cmd, "yes");
    assert!(p.stages[0].args.is_empty());
    assert_eq!(p.stages[1].cmd, "head");
    assert_eq!(p.stages[1].args, vec!["-n", "3"]);
}

#[test]
fn empty_stage_is_a_syntax_error() {
    assert_eq!(interpret_line("|").unwrap_err(), SyntaxError::EmptyStage);
    assert_eq!(interpret_line("| cat").unwrap_err(), SyntaxError::EmptyStage);
    assert_eq!(interpret_line("ls |").unwrap_err(), SyntaxError::EmptyStage);
    assert_eq!(
        interpret_line("cmd1 | | cmd2").unwrap_err(),
        SyntaxError::EmptyStage
    );
}

#[test]
fn empty_stage_message() {
    let e = interpret_line("|").unwrap_err();
    assert_eq!(e.message(), "syntax error near unexpected token `|`");
}

#[test]
fn stdout_truncate_operators() {
    for op in [">", "1>"] {
        let p = interpret_line(&format!("echo hi {} out.txt", op)).unwrap();
        assert_eq!(
            p.stages[0].stdout,
            RedirectTarget::Truncate("out.txt".to_string())
        );
        assert_eq!(p.stages[0].args, vec!["hi"]);
    }
}

#[test]
fn stdout_append_operators() {
    for op in [">>", "1>>"] {
        let p = interpret_line(&format!("echo hi {} out.txt", op)).unwrap();
        assert_eq!(
            p.stages[0].stdout,
            RedirectTarget::Append("out.txt".to_string())
        );
    }
}

#[test]
fn stderr_redirect_operators() {
    let p = interpret_line("cmd 2> err.txt").unwrap();
    assert_eq!(
        p.stages[0].stderr,
        RedirectTarget::Truncate("err.txt".to_string())
    );
    let p = interpret_line("cmd 2>> err.txt").unwrap();
    assert_eq!(
        p.stages[0].stderr,
        RedirectTarget::Append("err.txt".to_string())
    );
}

#[test]
fn redirects_interleave_with_args_preserving_order() {
    let p = interpret_line("cmd a > o.txt b 2>> e.txt c").unwrap();
    assert_eq!(p.stages[0].args, vec!["a", "b", "c"]);
    assert_eq!(
        p.stages[0].stdout,
        RedirectTarget::Truncate("o.txt".to_string())
    );
    assert_eq!(
        p.stages[0].stderr,
        RedirectTarget::Append("e.txt".to_string())
    );
}

#[test]
fn later_redirect_wins() {
    let p = interpret_line("cmd > a.txt >> b.txt").unwrap();
    assert_eq!(
        p.stages[0].stdout,
        RedirectTarget::Append("b.txt".to_string())
    );
}

#[test]
fn dangling_redirect_is_a_syntax_error() {
    let e = interpret_line("echo hi >").unwrap_err();
    assert_eq!(e, SyntaxError::MissingRedirectPath("echo".to_string()));
    assert_eq!(
        e.message(),
        "echo: syntax error near unexpected token `newline`"
    );
}

#[test]
fn dangling_redirect_aborts_the_whole_line() {
    let e = interpret_line("a | b 2>> | c").unwrap_err();
    assert_eq!(e, SyntaxError::MissingRedirectPath("b".to_string()));
}

#[test]
fn colon_with_truncate_target_parses() {
    // a command that produces no stdout still carries its redirect target
    let p = interpret_line(": > out.txt").unwrap();
    assert_eq!(p.stages[0].cmd, ":");
    assert!(p.stages[0].args.is_empty());
    assert_eq!(
        p.stages[0].stdout,
        RedirectTarget::Truncate("out.txt".to_string())
    );
    let p = interpret_line(": >> out.txt").unwrap();
    assert_eq!(
        p.stages[0].stdout,
        RedirectTarget::Append("out.txt".to_string())
    );
}

#[test]
fn operators_are_recognized_after_quote_removal() {
    // quoting reaches the parser already stripped: a token that became `>`
    // is an operator wherever it came from
    let p = interpret_line("echo '>' x").unwrap();
    assert!(p.stages[0].args.is_empty());
    assert_eq!(p.stages[0].stdout, RedirectTarget::Truncate("x".to_string()));
}

#[test]
fn split_pipeline_keeps_stage_tokens() {
    let chunks = split_pipeline(&tokenize("a b | c")).unwrap();
    assert_eq!(chunks, vec![strings(&["a", "b"]), strings(&["c"])]);
}

#[test]
fn parse_command_consumes_operator_and_path() {
    let st = parse_command(&strings(&["cat", "1>>", "log", "file"])).unwrap();
    assert_eq!(st.cmd, "cat");
    assert_eq!(st.args, vec!["file"]);
    assert_eq!(st.stdout, RedirectTarget::Append("log".to_string()));
}

#[test]
fn per_stage_redirects_in_pipeline() {
    let p = interpret_line("ls 2> e.txt | wc > w.txt").unwrap();
    assert_eq!(
        p.stages[0].stderr,
        RedirectTarget::Truncate("e.txt".to_string())
    );
    assert_eq!(p.stages[0].stdout, RedirectTarget::Inherit);
    assert_eq!(
        p.stages[1].stdout,
        RedirectTarget::Truncate("w.txt".to_string())
    );
}

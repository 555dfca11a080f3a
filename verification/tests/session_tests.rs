use minishell::resolver::{is_builtin, resolve, Resolution};
use minishell::session::{cd_error_message, cd_target, CdOutcome, Session};
use minishell::text::trim_end_ws;

fn strings(v: &[&str]) -> Vec<String> {
    v.iter().map(|s| s.to_string()).collect()
}

#[test]
fn builtin_names() {
    for b in ["exit", "echo", "pwd", "type", "cd", "history"] {
        assert!(is_builtin(b));
    }
    assert!(!is_builtin("ls"));
    assert!(!is_builtin(""));
    assert!(!is_builtin("echoo"));
    assert!(!is_builtin("ech"));
}

#[test]
fn resolve_classifies_builtins_without_touching_the_path() {
    assert_eq!(resolve("history", &strings(&[])), Resolution::Builtin);
}

#[test]
fn resolve_reports_not_found_with_empty_search_path() {
    assert_eq!(
        resolve("no-such-command-here", &strings(&[])),
        Resolution::NotFound
    );
}

#[test]
fn cd_without_argument_is_a_no_op() {
    assert_eq!(cd_target(&strings(&[]), &None), CdOutcome::NoOp);
}

#[test]
fn cd_tilde_resolves_to_home() {
    assert_eq!(
        cd_target(&strings(&["~"]), &Some("/home/u".to_string())),
        CdOutcome::Chdir("/home/u".to_string())
    );
}

#[test]
fn cd_tilde_without_home_is_reported() {
    assert_eq!(cd_target(&strings(&["~"]), &None), CdOutcome::HomeMissing);
}

#[test]
fn cd_path_argument_is_taken_verbatim() {
    assert_eq!(
        cd_target(&strings(&["/tmp"]), &Some("/home/u".to_string())),
        CdOutcome::Chdir("/tmp".to_string())
    );
}

#[test]
fn cd_error_message_format() {
    assert_eq!(
        cd_error_message("/nope"),
        "cd: /nope: No such file or directory"
    );
    assert_eq!(cd_error_message("~"), "cd: ~: No such file or directory");
}

#[test]
fn session_records_lines_in_order() {
    let mut s = Session::new(Some("/".to_string()));
    s.accept_line("ls".to_string());
    s.accept_line("echo hi".to_string());
    assert_eq!(s.history, vec!["ls", "echo hi"]);
    assert_eq!(s.cwd, Some("/".to_string()));
}

#[test]
fn session_cwd_changes_only_via_set_cwd() {
    let mut s = Session::new(None);
    s.set_cwd("/tmp".to_string());
    assert_eq!(s.cwd, Some("/tmp".to_string()));
    assert!(s.history.is_empty());
}

#[test]
fn trim_end_removes_trailing_whitespace_only() {
    assert_eq!(trim_end_ws("echo hi \t\n"), "echo hi");
    assert_eq!(trim_end_ws("  echo"), "  echo");
    assert_eq!(trim_end_ws(""), "");
    assert_eq!(trim_end_ws(" \t "), "");
}

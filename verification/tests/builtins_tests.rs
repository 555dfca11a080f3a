use minishell::builtins::{
    decimal_string, echo_output, history_output, parse_usize, run_builtin,
};

fn strings(v: &[&str]) -> Vec<String> {
    v.iter().map(|s| s.to_string()).collect()
}

#[test]
fn decimal_rendering() {
    assert_eq!(decimal_string(0), "0");
    assert_eq!(decimal_string(7), "7");
    assert_eq!(decimal_string(42), "42");
    assert_eq!(decimal_string(100000), "100000");
}

#[test]
fn echo_joins_with_spaces_and_newline() {
    assert_eq!(echo_output(&strings(&["hello", "world"])), "hello world\n");
    assert_eq!(echo_output(&strings(&["one"])), "one\n");
    assert_eq!(echo_output(&strings(&[])), "\n");
    assert_eq!(echo_output(&strings(&["a", "", "b"])), "a  b\n");
}

#[test]
fn history_lists_all_entries_with_padded_indices() {
    let log = strings(&["ls", "echo hi"]);
    assert_eq!(history_output(&log, None), "    1  ls\n    2  echo hi\n");
}

#[test]
fn history_last_n_keeps_original_indices() {
    let log = strings(&["a", "b", "c"]);
    assert_eq!(history_output(&log, Some(2)), "    2  b\n    3  c\n");
}

#[test]
fn history_n_larger_than_log_prints_all() {
    let log = strings(&["a"]);
    assert_eq!(history_output(&log, Some(10)), "    1  a\n");
}

#[test]
fn history_zero_prints_nothing() {
    let log = strings(&["a", "b"]);
    assert_eq!(history_output(&log, Some(0)), "");
}

#[test]
fn history_empty_log() {
    assert_eq!(history_output(&strings(&[]), None), "");
}

#[test]
fn history_wide_index_is_not_padded() {
    let log: Vec<String> = (0..100000).map(|i| format!("c{}", i)).collect();
    let out = history_output(&log, Some(1));
    assert_eq!(out, "100000  c99999\n");
}

#[test]
fn parse_usize_accepts_digits_and_plus() {
    assert_eq!(parse_usize("0"), Some(0));
    assert_eq!(parse_usize("37"), Some(37));
    assert_eq!(parse_usize("+5"), Some(5));
}

#[test]
fn parse_usize_rejects_junk() {
    assert_eq!(parse_usize(""), None);
    assert_eq!(parse_usize("+"), None);
    assert_eq!(parse_usize("-3"), None);
    assert_eq!(parse_usize("12a"), None);
    assert_eq!(parse_usize("1 2"), None);
    assert_eq!(parse_usize("99999999999999999999999999999"), None);
}

#[test]
fn parse_usize_accepts_usize_max() {
    let max = usize::MAX.to_string();
    assert_eq!(parse_usize(&max), Some(usize::MAX));
}

#[test]
fn builtin_echo() {
    let r = run_builtin("echo", &strings(&["x", "y"]), &strings(&[]), &None, &None, &strings(&[]));
    assert_eq!(r.stdout, "x y\n");
    assert_eq!(r.stderr, "");
    assert_eq!(r.code, 0);
}

#[test]
fn builtin_pwd_prints_session_directory() {
    let cwd = Some("/tmp/somewhere".to_string());
    let r = run_builtin("pwd", &strings(&[]), &strings(&[]), &cwd, &None, &strings(&[]));
    assert_eq!(r.stdout, "/tmp/somewhere\n");
    assert_eq!(r.code, 0);
}

#[test]
fn builtin_pwd_reports_unknown_directory() {
    let r = run_builtin("pwd", &strings(&[]), &strings(&[]), &None, &None, &strings(&[]));
    assert_eq!(r.stdout, "");
    assert_eq!(r.stderr, "pwd: cannot determine the current directory\n");
    assert_eq!(r.code, 1);
}

#[test]
fn builtin_type_missing_operand() {
    let r = run_builtin("type", &strings(&[]), &strings(&[]), &None, &None, &strings(&[]));
    assert_eq!(r.stderr, "type: missing operand\n");
    assert_eq!(r.code, 1);
}

#[test]
fn builtin_type_reports_builtins() {
    let r = run_builtin("type", &strings(&["cd"]), &strings(&[]), &None, &None, &strings(&[]));
    assert_eq!(r.stdout, "cd is a shell builtin\n");
    assert_eq!(r.code, 0);
}

#[test]
fn builtin_type_not_found_with_empty_search_path() {
    let r = run_builtin(
        "type",
        &strings(&["no-such-command-here"]),
        &strings(&[]),
        &None,
        &None,
        &strings(&[]),
    );
    assert_eq!(r.stdout, "no-such-command-here not found\n");
    assert_eq!(r.code, 0);
}

#[test]
fn builtin_history_uses_numeric_argument() {
    let log = strings(&["one", "two", "three"]);
    let r = run_builtin("history", &strings(&["2"]), &log, &None, &None, &strings(&[]));
    assert_eq!(r.stdout, "    2  two\n    3  three\n");
}

#[test]
fn builtin_history_ignores_unparsable_argument() {
    let log = strings(&["one", "two"]);
    let r = run_builtin("history", &strings(&["x"]), &log, &None, &None, &strings(&[]));
    assert_eq!(r.stdout, "    1  one\n    2  two\n");
}

#[test]
fn builtin_exit_is_silent_in_dispatch() {
    let r = run_builtin("exit", &strings(&[]), &strings(&[]), &None, &None, &strings(&[]));
    assert_eq!(r.stdout, "");
    assert_eq!(r.stderr, "");
    assert_eq!(r.code, 0);
}

#[test]
fn dispatched_cd_validates_without_mutating() {
    // an existing target succeeds silently; the session is never touched
    let r = run_builtin("cd", &strings(&["/"]), &strings(&[]), &None, &None, &strings(&[]));
    assert_eq!(r.stdout, "");
    assert_eq!(r.stderr, "");
    assert_eq!(r.code, 0);
}

#[test]
fn dispatched_cd_reports_missing_target() {
    let r = run_builtin(
        "cd",
        &strings(&["/no/such/dir/anywhere"]),
        &strings(&[]),
        &None,
        &None,
        &strings(&[]),
    );
    assert_eq!(r.stdout, "");
    assert_eq!(
        r.stderr,
        "cd: /no/such/dir/anywhere: No such file or directory\n"
    );
    assert_eq!(r.code, 1);
}

#[test]
fn dispatched_cd_reports_missing_home() {
    let r = run_builtin("cd", &strings(&["~"]), &strings(&[]), &None, &None, &strings(&[]));
    assert_eq!(r.stderr, "cd: ~: No such file or directory\n");
    assert_eq!(r.code, 1);
}

#[test]
fn dispatched_cd_without_argument_is_a_no_op() {
    let r = run_builtin("cd", &strings(&[]), &strings(&[]), &None, &None, &strings(&[]));
    assert_eq!(r.stdout, "");
    assert_eq!(r.stderr, "");
    assert_eq!(r.code, 0);
}

use minishell::completion::{
    completion_candidates, longest_common_prefix, CompletionAction, ShellHelper,
};

fn strings(v: &[&str]) -> Vec<String> {
    v.iter().map(|s| s.to_string()).collect()
}

#[test]
fn lcp_of_candidates() {
    assert_eq!(longest_common_prefix(&strings(&["foobar", "foobaz"])), "fooba");
    assert_eq!(longest_common_prefix(&strings(&["echo", "exit"])), "e");
    assert_eq!(longest_common_prefix(&strings(&["abc"])), "abc");
    assert_eq!(longest_common_prefix(&strings(&["abc", "xyz"])), "");
    assert_eq!(longest_common_prefix(&strings(&[])), "");
}

#[test]
fn candidates_merge_builtins_and_path_names_sorted() {
    let r = completion_candidates("e", &strings(&["extra", "echo", "zsh"]));
    assert_eq!(r, strings(&["echo", "exit", "extra"]));
}

#[test]
fn candidates_deduplicate() {
    let r = completion_candidates("ec", &strings(&["echo", "echo"]));
    assert_eq!(r, strings(&["echo"]));
}

#[test]
fn candidates_for_unmatched_prefix_are_empty() {
    let r = completion_candidates("zzz", &strings(&["echo"]));
    assert!(r.is_empty());
}

#[test]
fn single_match_completes_with_trailing_space() {
    let mut h = ShellHelper::new();
    match h.complete("ec", 2, &strings(&[])) {
        CompletionAction::Single(s) => assert_eq!(s, "echo "),
        other => panic!("expected single completion, got {:?}", other),
    }
}

#[test]
fn lcp_progress_extends_without_listing() {
    let mut h = ShellHelper::new();
    match h.complete("foo", 3, &strings(&["foobar", "foobaz"])) {
        CompletionAction::Extend(s) => assert_eq!(s, "fooba"),
        other => panic!("expected prefix extension, got {:?}", other),
    }
}

#[test]
fn two_step_reveal_bells_then_lists() {
    // {echo, exit} share only "e" with the prefix: first request bells,
    // the immediate second request for the same prefix lists both
    let mut h = ShellHelper::new();
    match h.complete("e", 1, &strings(&[])) {
        CompletionAction::NoMatch => {}
        other => panic!("expected bell on first request, got {:?}", other),
    }
    match h.complete("e", 1, &strings(&[])) {
        CompletionAction::List(v) => assert_eq!(v, strings(&["echo", "exit"])),
        other => panic!("expected candidate list on second request, got {:?}", other),
    }
    // the listing reset the state: a third request bells again
    match h.complete("e", 1, &strings(&[])) {
        CompletionAction::NoMatch => {}
        other => panic!("expected bell after reset, got {:?}", other),
    }
}

#[test]
fn new_prefix_resets_the_two_step_state() {
    let mut h = ShellHelper::new();
    let names = strings(&["pa", "pb", "ea", "eb"]);
    assert!(matches!(h.complete("e", 1, &names), CompletionAction::NoMatch));
    // a different prefix while armed does not list; it re-arms
    assert!(matches!(h.complete("p", 1, &names), CompletionAction::NoMatch));
    // the request after it, for that same new prefix, lists
    match h.complete("p", 1, &names) {
        CompletionAction::List(v) => assert_eq!(v, strings(&["pa", "pb", "pwd"])),
        other => panic!("expected list, got {:?}", other),
    }
}

#[test]
fn no_candidates_signals_no_match() {
    let mut h = ShellHelper::new();
    assert!(matches!(
        h.complete("qqq", 3, &strings(&[])),
        CompletionAction::NoMatch
    ));
}

#[test]
fn completion_only_in_command_position() {
    let mut h = ShellHelper::new();
    // cursor after a whitespace: second token, not offered
    assert!(matches!(
        h.complete("echo e", 6, &strings(&[])),
        CompletionAction::NotApplicable
    ));
    // empty prefix: not offered
    assert!(matches!(
        h.complete("", 0, &strings(&[])),
        CompletionAction::NotApplicable
    ));
}

#[test]
fn cursor_inside_first_token_completes() {
    let mut h = ShellHelper::new();
    match h.complete("ec rest", 2, &strings(&[])) {
        CompletionAction::Single(s) => assert_eq!(s, "echo "),
        other => panic!("expected single completion, got {:?}", other),
    }
}

use minishell::executor::{
    classify_line, plan_pipeline, LineAction, StdinSource, StdoutSink,
};
use minishell::parser::interpret_line;

#[test]
fn plan_wires_three_stages() {
    let p = interpret_line("yes | grep y | head -n 3").unwrap();
    let plan = plan_pipeline(&p);
    assert_eq!(plan.pipe_count, 2);
    assert_eq!(plan.stages.len(), 3);
    assert_eq!(plan.stages[0].stdin, StdinSource::Inherit);
    assert_eq!(plan.stages[0].stdout, StdoutSink::PipeWrite(0));
    assert_eq!(plan.stages[1].stdin, StdinSource::PipeRead(0));
    assert_eq!(plan.stages[1].stdout, StdoutSink::PipeWrite(1));
    assert_eq!(plan.stages[2].stdin, StdinSource::PipeRead(1));
    assert_eq!(plan.stages[2].stdout, StdoutSink::FromRedirect);
}

#[test]
fn plan_awaits_the_consumer_first() {
    // the bounded consumer is reaped before the unbounded producer
    let p = interpret_line("yes | head -n 3").unwrap();
    let plan = plan_pipeline(&p);
    assert_eq!(plan.wait_order, vec![1, 0]);
    let p = interpret_line("a | b | c | d").unwrap();
    let plan = plan_pipeline(&p);
    assert_eq!(plan.wait_order, vec![3, 0, 1, 2]);
}

#[test]
fn plan_single_stage() {
    let p = interpret_line("ls -l").unwrap();
    let plan = plan_pipeline(&p);
    assert_eq!(plan.pipe_count, 0);
    assert_eq!(plan.stages.len(), 1);
    assert_eq!(plan.stages[0].stdin, StdinSource::Inherit);
    assert_eq!(plan.stages[0].stdout, StdoutSink::FromRedirect);
    assert_eq!(plan.wait_order, vec![0]);
}

#[test]
fn plan_marks_builtin_stages() {
    let p = interpret_line("echo hi | wc -c").unwrap();
    let plan = plan_pipeline(&p);
    assert!(plan.stages[0].builtin);
    assert!(!plan.stages[1].builtin);
}

#[test]
fn classify_single_exit_terminates() {
    let p = interpret_line("exit").unwrap();
    assert_eq!(classify_line(&p), LineAction::Terminate);
}

#[test]
fn classify_single_cd_changes_directory() {
    let p = interpret_line("cd /tmp").unwrap();
    assert_eq!(classify_line(&p), LineAction::ChangeDir);
}

#[test]
fn classify_single_builtin_and_external() {
    assert_eq!(
        classify_line(&interpret_line("echo hi").unwrap()),
        LineAction::SingleBuiltin
    );
    assert_eq!(
        classify_line(&interpret_line("history 3").unwrap()),
        LineAction::SingleBuiltin
    );
    assert_eq!(
        classify_line(&interpret_line("ls -l").unwrap()),
        LineAction::SingleExternal
    );
}

#[test]
fn pipeline_cd_is_isolated_from_the_session() {
    // cd inside a pipeline runs as a stage; only a single-stage cd reaches
    // the session's working directory
    let p = interpret_line("cd /tmp | true").unwrap();
    assert_eq!(classify_line(&p), LineAction::RunPipeline);
    let p = interpret_line("cd /tmp").unwrap();
    assert_eq!(classify_line(&p), LineAction::ChangeDir);
}

#[test]
fn pipeline_exit_does_not_terminate() {
    let p = interpret_line("exit | cat").unwrap();
    assert_eq!(classify_line(&p), LineAction::RunPipeline);
}

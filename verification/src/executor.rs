//! The pipeline execution plan: which stream each stage reads and writes,
//! which stages run as concurrent builtin tasks, and the order in which the
//! stages are awaited. The embedding program allocates the operating-system
//! pipes, spawns the stages and waits exactly as the plan says; every
//! decision is made here.

use vstd::prelude::*;

use crate::parser::{Pipeline, StageModel};
use crate::resolver::{is_builtin, is_builtin_name};
use crate::text::str_eq;

verus! {

/// Where a stage reads its standard input: the surrounding context, or the
/// read end of a numbered pipe.
#[derive(Debug, Clone, PartialEq, Eq, Structural)]
pub enum StdinSource {
    Inherit,
    PipeRead(usize),
}

/// Where a stage writes its standard output: the write end of a numbered
/// pipe, or — for the last stage — wherever its own redirect target says.
#[derive(Debug, Clone, PartialEq, Eq, Structural)]
pub enum StdoutSink {
    PipeWrite(usize),
    FromRedirect,
}

/// One stage's wiring: its input source, its output sink, and whether it runs
/// in-process as a concurrent builtin task rather than as a spawned process.
#[derive(Debug, Clone, PartialEq, Eq, Structural)]
pub struct StagePlan {
    pub stdin: StdinSource,
    pub stdout: StdoutSink,
    pub builtin: bool,
}

/// The full plan for one pipeline: how many pipes to allocate, each stage's
/// wiring, and the order in which stages are awaited. After starting every
/// stage the runner must close its own copies of all pipe ends, or a
/// downstream stage never sees end-of-input.
#[derive(Debug, Clone)]
pub struct ExecutionPlan {
    pub pipe_count: usize,
    pub stages: Vec<StagePlan>,
    pub wait_order: Vec<usize>,
}

/// The stage awaited at position `k` of the wait order for an `n`-stage
/// pipeline: the last stage first, then the remaining stages in order.
pub open spec fn wait_order_spec(n: int, k: int) -> int {
    if k == 0 {
        n - 1
    } else {
        k - 1
    }
}

/// Computes the execution plan of a validated pipeline.
pub fn plan_pipeline(p: &Pipeline) -> (plan: ExecutionPlan)
    requires
        p.stages@.len() > 0,
    ensures
        plan.stages@.len() == p.stages@.len(),
        plan.pipe_count == p.stages@.len() - 1,
        forall|i: int|
            0 <= i < plan.stages@.len() ==> (#[trigger] plan.stages@[i]).builtin
                == is_builtin_name(p@[i].cmd),
        forall|i: int|
            0 <= i < plan.stages@.len() ==> (#[trigger] plan.stages@[i]).stdin == (if i == 0 {
                StdinSource::Inherit
            } else {
                StdinSource::PipeRead((i - 1) as usize)
            }),
        forall|i: int|
            0 <= i < plan.stages@.len() ==> (#[trigger] plan.stages@[i]).stdout == (if i + 1
                == plan.stages@.len() {
                StdoutSink::FromRedirect
            } else {
                StdoutSink::PipeWrite(i as usize)
            }),
        plan.wait_order@.len() == p.stages@.len(),
        forall|k: int|
            0 <= k < plan.wait_order@.len() ==> #[trigger] plan.wait_order@[k] as int
                == wait_order_spec(p.stages@.len() as int, k),
{
    let n = p.stages.len();
    let mut stages: Vec<StagePlan> = Vec::new();
    let mut i: usize = 0;
    while i < n
        invariant
            i <= n,
            n == p.stages@.len(),
            stages@.len() == i,
            forall|j: int|
                0 <= j < i ==> (#[trigger] stages@[j]).builtin == is_builtin_name(p@[j].cmd),
            forall|j: int|
                0 <= j < i ==> (#[trigger] stages@[j]).stdin == (if j == 0 {
                    StdinSource::Inherit
                } else {
                    StdinSource::PipeRead((j - 1) as usize)
                }),
            forall|j: int|
                0 <= j < i ==> (#[trigger] stages@[j]).stdout == (if j + 1 == n as int {
                    StdoutSink::FromRedirect
                } else {
                    StdoutSink::PipeWrite(j as usize)
                }),
        decreases n - i,
    {
        let stdin = if i == 0 {
            StdinSource::Inherit
        } else {
            StdinSource::PipeRead(i - 1)
        };
        let stdout = if i + 1 == n {
            StdoutSink::FromRedirect
        } else {
            StdoutSink::PipeWrite(i)
        };
        let builtin = is_builtin(p.stages[i].cmd.as_str());
        proof {
            assert(p@[i as int] == p.stages@[i as int]@);
        }
        stages.push(StagePlan { stdin, stdout, builtin });
        i += 1;
    }
    let mut wait_order: Vec<usize> = Vec::new();
    wait_order.push(n - 1);
    let mut k: usize = 1;
    while k < n
        invariant
            1 <= k <= n,
            n == p.stages@.len(),
            wait_order@.len() == k,
            forall|j: int|
                0 <= j < k ==> #[trigger] wait_order@[j] as int == wait_order_spec(n as int, j),
        decreases n - k,
    {
        wait_order.push(k - 1);
        k += 1;
    }
    ExecutionPlan { pipe_count: n - 1, stages, wait_order }
}

/// Law: the final stage — the pipeline's consumer — is awaited before every
/// other stage. An unbounded producer is therefore never waited on while its
/// consumer still runs: once the consumer exits and its pipe closes, the
/// producer's next write fails and ends it, so the pipeline terminates.
pub proof fn lemma_consumer_awaited_first(n: int)
    requires
        n >= 1,
    ensures
        wait_order_spec(n, 0) == n - 1,
        forall|k: int| 1 <= k < n ==> wait_order_spec(n, k) < n - 1,
{
}

/// What the control loop does with a validated pipeline. Only a single-stage
/// line may terminate the session or change its working directory; every
/// multi-stage line runs through the pipeline executor, whose stages cannot
/// touch the session.
#[derive(Debug, Clone, PartialEq, Eq, Structural)]
pub enum LineAction {
    Terminate,
    ChangeDir,
    SingleBuiltin,
    SingleExternal,
    RunPipeline,
}

/// The action a validated pipeline calls for.
pub open spec fn classify_spec(stages: Seq<StageModel>) -> LineAction {
    if stages.len() == 1 {
        if stages[0].cmd == "exit"@ {
            LineAction::Terminate
        } else if stages[0].cmd == "cd"@ {
            LineAction::ChangeDir
        } else if is_builtin_name(stages[0].cmd) {
            LineAction::SingleBuiltin
        } else {
            LineAction::SingleExternal
        }
    } else {
        LineAction::RunPipeline
    }
}

/// Decides what the control loop does with a validated pipeline.
pub fn classify_line(p: &Pipeline) -> (a: LineAction)
    requires
        p.stages@.len() > 0,
    ensures
        a == classify_spec(p@),
{
    proof {
        assert(p@[0] == p.stages@[0]@);
    }
    if p.stages.len() == 1 {
        let cmd = p.stages[0].cmd.as_str();
        if str_eq(cmd, "exit") {
            LineAction::Terminate
        } else if str_eq(cmd, "cd") {
            LineAction::ChangeDir
        } else if is_builtin(cmd) {
            LineAction::SingleBuiltin
        } else {
            LineAction::SingleExternal
        }
    } else {
        LineAction::RunPipeline
    }
}

/// Law: a stage inside a multi-stage pipeline never reaches the session
/// state. A line of two or more stages is always run by the pipeline
/// executor; terminating the session and changing its working directory are
/// offered only for single-stage lines.
pub proof fn lemma_subshell_isolation(stages: Seq<StageModel>)
    requires
        stages.len() > 1,
    ensures
        classify_spec(stages) == LineAction::RunPipeline,
{
}

} // verus!

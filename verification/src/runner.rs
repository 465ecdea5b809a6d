//! The decisions the runner takes when a task's process ends: how it ended, whether it runs
//! again, and what its node in the task graph reports.
use crate::command::TaskResult;
use crate::config::Restart;
use crate::graph::NodeResult;
use crate::ordered::{map_get, map_lookup};
use crate::text::{chars_of, push_signed, signed_text, string_from_chars};
use crate::unset_vars::{join, join_parts};
use vstd::prelude::*;

verus! {

/// How a child process ended.
#[derive(Debug, Clone, Copy, PartialEq, Eq, Structural)]
pub enum ChildExit {
    /// It exited, with its exit code when it has one
    Finished(Option<i32>),
    /// It was killed by the runner
    Killed,
    /// The child process was killed by someone else
    KilledExternal,
    /// Waiting for it failed
    Failed,
}

/// The result of a task whose process ended as `exit`: success for exit code 0, failure with
/// the code for another, stopped when it was killed, unknown otherwise.
pub open spec fn spec_exit_result(exit: ChildExit) -> TaskResult {
    match exit {
        ChildExit::Finished(Some(0)) => TaskResult::Success,
        ChildExit::Finished(Some(code)) => TaskResult::Failure(code),
        ChildExit::Killed | ChildExit::KilledExternal => TaskResult::Stopped,
        _ => TaskResult::Unknown,
    }
}

/// The result of a task whose process ended as `exit`.
pub fn exit_result(exit: ChildExit) -> (r: TaskResult)
    ensures
        r == spec_exit_result(exit),
{
    match exit {
        ChildExit::Finished(Some(0)) => TaskResult::Success,
        ChildExit::Finished(Some(code)) => TaskResult::Failure(code),
        ChildExit::Killed | ChildExit::KilledExternal => TaskResult::Stopped,
        _ => TaskResult::Unknown,
    }
}

/// Whether the policy allows another restart after `num_restart` of them: below the limit, or
/// always when there is none.
pub open spec fn below_limit(max: Option<u64>, num_restart: u64) -> bool {
    match max {
        Some(m) => num_restart < m,
        None => true,
    }
}

/// Whether a service that ended with `result` runs again under `restart`, having been restarted
/// `num_restart` times: never under `never`; after a failure under `on-failure`; after any end
/// under `always`; each within the limit of the policy. A service whose end is unknown does not.
pub open spec fn spec_should_restart(restart: Restart, result: Option<TaskResult>, num_restart: u64) -> bool {
    match result {
        Some(res) => match restart {
            Restart::Never => false,
            Restart::OnFailure(max) => res != TaskResult::Success && below_limit(max, num_restart),
            Restart::Always(max) => below_limit(max, num_restart),
        },
        None => false,
    }
}

/// Whether a service that ended with `result` runs again.
pub fn should_restart(restart: Restart, result: Option<TaskResult>, num_restart: u64) -> (r: bool)
    ensures
        r == spec_should_restart(restart, result, num_restart),
{
    match result {
        Some(result) => match restart {
            Restart::Never => false,
            Restart::OnFailure(max) => match result {
                TaskResult::Success => false,
                _ => match max {
                    Some(max) => num_restart < max,
                    None => true,
                },
            },
            Restart::Always(max) => match max {
                Some(max) => num_restart < max,
                None => true,
            },
        },
        None => false,
    }
}

/// A restart policy gives up after its limit: with `max` restarts allowed, a service restarted
/// `max` times or more does not run again, whatever its result.
pub proof fn law_restart_limit(restart: Restart, result: Option<TaskResult>, num_restart: u64)
    requires
        restart.max_restart_spec() matches Some(m) && num_restart >= m,
    ensures
        !spec_should_restart(restart, result, num_restart),
{
}

/// A service that ends successfully never runs again under `on-failure`.
pub proof fn law_success_not_restarted(max: Option<u64>, num_restart: u64)
    ensures
        !spec_should_restart(Restart::OnFailure(max), Some(TaskResult::Success), num_restart),
{
}

/// What the node of a task that is not a service reports once its process ended with `result`.
pub fn task_node_result(result: Option<TaskResult>) -> (r: NodeResult)
    ensures
        r == (if result == Some(TaskResult::Success) {
            NodeResult::Success
        } else {
            NodeResult::Failure
        }),
{
    match result {
        Some(TaskResult::Success) => NodeResult::Success,
        _ => NodeResult::Failure,
    }
}

/// Whether a task that ended with `result` failed: it neither succeeded, nor was up to date,
/// nor was stopped to run again.
pub open spec fn spec_is_failure(result: TaskResult) -> bool {
    !(result is Success || result is UpToDate || result is Reloading)
}

/// Whether a task that ended with `result` failed.
pub fn is_failure(result: TaskResult) -> (r: bool)
    ensures
        r == spec_is_failure(result),
{
    match result {
        TaskResult::Success | TaskResult::UpToDate | TaskResult::Reloading => false,
        _ => true,
    }
}

/// The exit code of a run whose tasks ended with `results`: 1 when any of them failed, else 0.
pub open spec fn spec_run_exit_code(results: Seq<TaskResult>) -> i32 {
    if exists|i: int| 0 <= i < results.len() && spec_is_failure(#[trigger] results[i]) {
        1
    } else {
        0
    }
}

/// The exit code of a run whose tasks ended with `results`.
pub fn run_exit_code(results: &Vec<TaskResult>) -> (r: i32)
    ensures
        r == spec_run_exit_code(results@),
{
    let mut i: usize = 0;
    while i < results.len()
        invariant
            i <= results.len(),
            forall|j: int| 0 <= j < i ==> !spec_is_failure(#[trigger] results@[j]),
        decreases results.len() - i,
    {
        if is_failure(results[i]) {
            return 1;
        }
        i = i + 1;
    }
    0
}

/// How a service's run ended: its process after it was ready, its probe giving up, or its
/// process before it was ready.
#[derive(Debug, Clone, Copy, PartialEq, Eq, Structural)]
pub enum ServiceEnd {
    /// The process finished after the service was ready; the node reports this
    AfterReady(NodeResult),
    /// The probe gave up: the service is not ready and its process is stopped
    ProbeFailed,
    /// The process finished before the service was ready, which is a failure whatever its result
    BeforeReady,
}

/// How a service's run ended, given the result of its probe and that of its process, each
/// when it has come.
pub open spec fn spec_service_end(probe: Option<bool>, process: Option<Option<TaskResult>>) -> ServiceEnd {
    match (probe, process) {
        (Some(true), Some(result)) => ServiceEnd::AfterReady(
            if result == Some(TaskResult::Success) {
                NodeResult::Success
            } else {
                NodeResult::Failure
            },
        ),
        (Some(false), _) => ServiceEnd::ProbeFailed,
        _ => ServiceEnd::BeforeReady,
    }
}

/// How a service's run ended.
pub fn service_end(probe: Option<bool>, process: Option<Option<TaskResult>>) -> (r: ServiceEnd)
    ensures
        r == spec_service_end(probe, process),
{
    match (probe, process) {
        (Some(true), Some(result)) => ServiceEnd::AfterReady(task_node_result(result)),
        (Some(false), _) => ServiceEnd::ProbeFailed,
        _ => ServiceEnd::BeforeReady,
    }
}

/// What the node of a service reports at the end of its run: success only when its process
/// succeeded after it was ready.
pub fn service_node_result(end: ServiceEnd) -> (r: NodeResult)
    ensures
        r == (match end {
            ServiceEnd::AfterReady(n) => n,
            _ => NodeResult::Failure,
        }),
{
    match end {
        ServiceEnd::AfterReady(n) => n,
        _ => NodeResult::Failure,
    }
}

/// A service succeeds only when its probe said it was ready and its process then succeeded.
pub proof fn law_service_success(probe: Option<bool>, process: Option<Option<TaskResult>>)
    ensures
        spec_service_end(probe, process) == ServiceEnd::AfterReady(NodeResult::Success) <==> (probe == Some(true)
            && process == Some(Some(TaskResult::Success))),
{
}

/// Whether the other tasks are stopped after a node reported `result`: with fail-fast, on the
/// first failure.
pub fn stops_all(fail_fast: bool, result: NodeResult) -> (r: bool)
    ensures
        r == (fail_fast && result == NodeResult::Failure),
{
    fail_fast && match result {
        NodeResult::Failure => true,
        _ => false,
    }
}

/// Whether the loop watching a service goes on: until its process ended without restarting, or
/// its probe gave up.
pub fn service_waits(process: Option<Option<TaskResult>>, probe: Option<bool>) -> (r: bool)
    ensures
        r == (process is None && probe != Some(false)),
{
    !(process.is_some() || probe == Some(false))
}

/// The line of the chart for a task that started at `start` and ended at `end`, in
/// milliseconds.
pub open spec fn gantt_row(task: Seq<char>, start: i64, end: i64) -> Seq<char> {
    "\t"@ + task + " : "@ + signed_text(start as int) + ", "@ + signed_text(end as int) + "\n"@
}

/// The lines of the tasks that started, in the order they started, each with the time it
/// ended; a task that has not ended has none.
pub open spec fn gantt_rows(starts: Seq<(Seq<char>, i64)>, ends: Seq<(Seq<char>, i64)>) -> Seq<char>
    decreases starts.len(),
{
    if starts.len() == 0 {
        Seq::empty()
    } else {
        gantt_rows(starts.drop_last(), ends) + match map_get(ends, starts.last().0) {
            Some(e) => gantt_row(starts.last().0, starts.last().1, e),
            None => Seq::empty(),
        }
    }
}

/// The chart of a run in Mermaid's Gantt syntax: titled with the target tasks, its times in
/// milliseconds, then a line for each task that started and ended.
pub open spec fn spec_gantt(targets: Seq<Seq<char>>, starts: Seq<(Seq<char>, i64)>, ends: Seq<(Seq<char>, i64)>) -> Seq<char> {
    "gantt\n\ttitle "@ + join(targets, ", "@) + "\n\tdateFormat x\n\taxisFormat %H:%M:%S\n"@ + gantt_rows(starts, ends)
}

fn push_text(out: &mut Vec<char>, s: &str)
    ensures
        final(out)@ == old(out)@ + s@,
{
    let mut t = chars_of(s);
    out.append(&mut t);
}

/// The chart of a run: the target tasks `targets`, and the times in milliseconds each task
/// started and ended, by task; see [`spec_gantt`].
pub fn gantt(targets: &Vec<String>, starts: &Vec<(String, i64)>, ends: &Vec<(String, i64)>) -> (r: String)
    ensures
        r@ == spec_gantt(targets.deep_view(), starts.deep_view(), ends.deep_view()),
{
    let mut out: Vec<char> = Vec::new();
    push_text(&mut out, "gantt\n\ttitle ");
    let title = join_parts(targets, ", ");
    push_text(&mut out, title.as_str());
    push_text(&mut out, "\n\tdateFormat x\n\taxisFormat %H:%M:%S\n");
    let ghost head = out@;
    let ghost sv = starts.deep_view();
    let ghost ev = ends.deep_view();
    let mut i: usize = 0;
    while i < starts.len()
        invariant
            i <= starts.len(),
            sv == starts.deep_view(),
            ev == ends.deep_view(),
            out@ == head + gantt_rows(sv.take(i as int), ev),
        decreases starts.len() - i,
    {
        let ghost before = out@;
        proof {
            assert(sv.take(i + 1).drop_last() =~= sv.take(i as int));
            assert(sv.take(i + 1).last() == sv[i as int]);
            assert(sv[i as int] == (starts@[i as int].0@, starts@[i as int].1));
        }
        match map_lookup(ends, starts[i].0.as_str()) {
            Some(e) => {
                push_text(&mut out, "\t");
                push_text(&mut out, starts[i].0.as_str());
                push_text(&mut out, " : ");
                push_signed(starts[i].1, &mut out);
                push_text(&mut out, ", ");
                push_signed(*e, &mut out);
                push_text(&mut out, "\n");
                assert(out@ =~= before + gantt_row(sv[i as int].0, sv[i as int].1, *e));
            },
            None => {},
        }
        assert(out@ =~= head + gantt_rows(sv.take(i + 1), ev));
        i = i + 1;
    }
    assert(sv.take(sv.len() as int) =~= sv);
    string_from_chars(out.as_slice())
}

} // verus!

use firepit::command::TaskResult;
use firepit::config::{default_service_restart, Restart, TaskSelector};
use firepit::graph::NodeResult;
use firepit::runner::{
    exit_result, gantt, is_failure, run_exit_code, service_end, service_node_result, should_restart, stops_all, task_node_result,
    ChildExit, ServiceEnd,
};

#[test]
fn exit_codes_become_results() {
    assert_eq!(exit_result(ChildExit::Finished(Some(0))), TaskResult::Success);
    assert_eq!(exit_result(ChildExit::Finished(Some(2))), TaskResult::Failure(2));
    assert_eq!(exit_result(ChildExit::Killed), TaskResult::Stopped);
    assert_eq!(exit_result(ChildExit::KilledExternal), TaskResult::Stopped);
    assert_eq!(exit_result(ChildExit::Finished(None)), TaskResult::Unknown);
}

#[test]
fn restart_policies() {
    assert!(!should_restart(Restart::Never, Some(TaskResult::Failure(1)), 0));
    assert!(should_restart(Restart::OnFailure(None), Some(TaskResult::Failure(1)), 100));
    assert!(!should_restart(Restart::OnFailure(None), Some(TaskResult::Success), 0));
    assert!(should_restart(Restart::OnFailure(Some(2)), Some(TaskResult::Stopped), 1));
    assert!(!should_restart(Restart::OnFailure(Some(2)), Some(TaskResult::Stopped), 2));
    assert!(should_restart(Restart::Always(Some(1)), Some(TaskResult::Success), 0));
    assert!(!should_restart(Restart::Always(Some(1)), Some(TaskResult::Success), 1));
    assert!(!should_restart(Restart::Always(None), None, 0));
    assert_eq!(default_service_restart(), Restart::Never);
    assert_eq!(Restart::Never.max_restart(), Some(0));
    assert_eq!(Restart::Always(None).max_restart(), None);
    assert_eq!(Restart::OnFailure(Some(3)).max_restart(), Some(3));
}

#[test]
fn service_outcomes() {
    assert_eq!(service_end(Some(true), Some(Some(TaskResult::Success))), ServiceEnd::AfterReady(NodeResult::Success));
    assert_eq!(service_end(Some(true), Some(None)), ServiceEnd::AfterReady(NodeResult::Failure));
    assert_eq!(service_end(Some(false), None), ServiceEnd::ProbeFailed);
    assert_eq!(service_end(None, Some(Some(TaskResult::Success))), ServiceEnd::BeforeReady);
    assert_eq!(service_node_result(ServiceEnd::BeforeReady), NodeResult::Failure);
    assert_eq!(task_node_result(Some(TaskResult::Success)), NodeResult::Success);
    assert_eq!(task_node_result(Some(TaskResult::Failure(1))), NodeResult::Failure);
    assert!(stops_all(true, NodeResult::Failure));
    assert!(!stops_all(false, NodeResult::Failure));
    assert!(!stops_all(true, NodeResult::Success));
}

#[test]
fn task_selectors() {
    assert!(TaskSelector::Regex("^build".to_string()).matches("build-web"));
    assert!(!TaskSelector::Regex("^build".to_string()).matches("test"));
    assert!(!TaskSelector::Regex(String::new()).matches("anything"));
    assert!(!TaskSelector::Regex("(".to_string()).matches("("));
    assert!(TaskSelector::List(vec!["a".to_string(), "b".to_string()]).matches("b"));
    assert!(!TaskSelector::List(vec![]).matches("b"));
}

#[test]
fn gantt_chart_of_a_run() {
    let s = |v: &str| v.to_string();
    let starts = vec![(s("#a"), 1000i64), (s("#b"), 1500), (s("#c"), 2000)];
    let ends = vec![(s("#b"), 1700i64), (s("#a"), 3000)];
    let chart = gantt(&vec![s("#a"), s("#b")], &starts, &ends);
    assert_eq!(
        chart,
        "gantt\n\ttitle #a, #b\n\tdateFormat x\n\taxisFormat %H:%M:%S\n\t#a : 1000, 3000\n\t#b : 1500, 1700\n"
    );
    let early = gantt(&vec![], &vec![(s("#x"), -5)], &vec![(s("#x"), i64::MIN)]);
    assert_eq!(
        early,
        "gantt\n\ttitle \n\tdateFormat x\n\taxisFormat %H:%M:%S\n\t#x : -5, -9223372036854775808\n"
    );
}

#[test]
fn a_run_fails_when_any_task_failed() {
    assert!(!is_failure(TaskResult::Success));
    assert!(!is_failure(TaskResult::UpToDate));
    assert!(!is_failure(TaskResult::Reloading));
    assert!(is_failure(TaskResult::Failure(2)));
    assert!(is_failure(TaskResult::BadDeps));
    assert!(is_failure(TaskResult::NotReady));
    assert!(is_failure(TaskResult::Stopped));
    assert_eq!(run_exit_code(&vec![]), 0);
    assert_eq!(run_exit_code(&vec![TaskResult::Success, TaskResult::UpToDate]), 0);
    assert_eq!(run_exit_code(&vec![TaskResult::Success, TaskResult::BadDeps]), 1);
}

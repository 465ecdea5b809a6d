use firepit::config::Restart;
use firepit::env::Env;
use firepit::probe::Probe;
use firepit::graph::{GraphError, NodeResult, TaskGraph, VisitorCommand};
use firepit::project::{DependsOn, Task, WaitFor};
use firepit::visitor::{deps_status, mark_target_done, node_done, NodeVisitor, VisitorAction, VisitorEvent};

fn task(name: &str, deps: &[&str]) -> Task {
    Task {
        name: name.to_string(),
        orig_name: name.to_string(),
        depends_on: deps
            .iter()
            .map(|d| DependsOn { task: d.to_string(), cascade: true, always: false })
            .collect(),
        wait_for: Vec::new(),
        vars: Vec::new(),
        is_service: false,
        label: name.to_string(),
        command: String::new(),
        shell: "bash".to_string(),
        shell_args: vec!["-c".to_string()],
        working_dir: "/w".to_string(),
        env: Env { configs: vec![] },
        probe: Probe::NoProbe,
        restart: Restart::Never,
        stop_timeout: 10,
        inputs: vec![],
        outputs: vec![],
    }
}

fn names(tasks: &[Task]) -> Vec<String> {
    tasks.iter().map(|t| t.name.clone()).collect()
}

#[test]
fn sorts_dependents_before_their_dependencies() {
    let tasks = vec![task("p#c", &["p#b"]), task("p#b", &["p#a"]), task("p#a", &[])];
    let graph = TaskGraph::new(&tasks, None, false).unwrap();
    let sorted = names(&graph.sort().unwrap());
    let pos = |n: &str| sorted.iter().position(|s| s == n).unwrap();
    assert!(pos("p#c") < pos("p#b"));
    assert!(pos("p#b") < pos("p#a"));
}

#[test]
fn reports_a_cycle() {
    let tasks = vec![task("p#a", &["p#b"]), task("p#b", &["p#a"])];
    assert!(matches!(TaskGraph::new(&tasks, None, false), Err(GraphError::Cycle { .. })));
}

#[test]
fn forced_targets_run_alone() {
    let tasks = vec![task("p#a", &[]), task("p#b", &["p#a"]), task("p#x", &[])];
    let graph = TaskGraph::new(&tasks, Some(&vec!["p#b".to_string()]), true).unwrap();
    assert_eq!(names(&graph.tasks()), vec!["p#b".to_string()]);
}

#[test]
fn closure_pulls_in_the_dependencies() {
    let tasks = vec![task("p#a", &[]), task("p#b", &["p#a"]), task("p#x", &[])];
    let graph = TaskGraph::new(&tasks, None, false).unwrap();
    let closure = graph.transitive_closure(&vec!["p#b".to_string()], petgraph::Direction::Outgoing).unwrap();
    let mut got = names(&closure.tasks());
    got.sort();
    assert_eq!(got, vec!["p#a".to_string(), "p#b".to_string()]);
}

#[test]
fn wait_for_matches_the_variables_given() {
    let mut t = task("p#a-1", &[]);
    t.orig_name = "p#a".to_string();
    t.vars = vec![("env".to_string(), "\"prod\"".to_string())];
    let w = WaitFor { task: "p#a".to_string(), vars: vec![("env".to_string(), "\"prod\"".to_string())] };
    assert!(w.matches(&t));
    let w = WaitFor { task: "p#a".to_string(), vars: vec![("env".to_string(), "\"dev\"".to_string())] };
    assert!(!w.matches(&t));
    let w = WaitFor { task: "p#a".to_string(), vars: vec![("other".to_string(), "1".to_string())] };
    assert!(w.matches(&t));
}

#[test]
fn qualified_names() {
    assert_eq!(Task::qualified_name("p", "build"), "p#build");
    assert_eq!(Task::qualified_name("p", "q#build"), "q#build");
    assert_eq!(Task::split_name("q#build"), (Some("q"), "build"));
    assert_eq!(Task::split_name("build"), (None, "build"));
}

#[test]
fn node_results() {
    assert!(NodeResult::Success.success());
    assert!(!NodeResult::Failure.success());
    assert!(NodeResult::Failure.present());
    assert!(!NodeResult::Pending.present());
}

#[test]
fn visitor_runs_after_dependencies_and_reports() {
    let mut v = NodeVisitor::new("p#a".to_string(), false);
    let actions = v.step(VisitorEvent::DepsDone(true));
    assert!(matches!(actions.as_slice(), [VisitorAction::Send { num_runs: 0, num_restart: 0, deps_ok: true }]));
    assert!(v.step(VisitorEvent::Sent).is_empty());
    let actions = v.step(VisitorEvent::Callback(NodeResult::Success));
    assert!(matches!(actions.as_slice(), [VisitorAction::Publish(NodeResult::Success), VisitorAction::Done]));
}

#[test]
fn visitor_stops_for_good() {
    let mut v = NodeVisitor::new("p#a".to_string(), false);
    let actions = v.step(VisitorEvent::Command(VisitorCommand::Stop));
    assert!(matches!(actions.as_slice(), [VisitorAction::Exit]));
    assert!(v.step(VisitorEvent::DepsDone(true)).is_empty());
}

#[test]
fn dependency_status() {
    assert_eq!(deps_status(&vec![NodeResult::Success], &vec![NodeResult::Failure]), Some(true));
    assert_eq!(deps_status(&vec![NodeResult::Success, NodeResult::Failure], &vec![]), Some(false));
    assert_eq!(deps_status(&vec![NodeResult::Pending], &vec![]), None);
}

#[test]
fn done_targets_are_struck_off() {
    let mut remaining = vec!["p#a".to_string(), "p#b".to_string()];
    assert!(!mark_target_done(&mut remaining, &"p#a".to_string(), true));
    assert!(mark_target_done(&mut remaining, &"p#b".to_string(), true));
}

#[test]
fn node_done_stops_when_awaited_or_finalizers_are_done() {
    let s = |v: &str| v.to_string();
    let mut awaited = vec![s("#a"), s("#b")];
    let mut finalizers = vec![s("#f")];
    assert!(!node_done(&mut awaited, &mut finalizers, &s("#a"), true, false));
    assert_eq!(awaited, vec![s("#b")]);
    assert!(node_done(&mut awaited, &mut finalizers, &s("#b"), true, false));
    let mut awaited = vec![s("#a")];
    let mut finalizers = vec![s("#f")];
    assert!(!node_done(&mut awaited, &mut finalizers, &s("#a"), false, false));
    assert!(node_done(&mut awaited, &mut finalizers, &s("#f"), false, true));
    assert!(finalizers.is_empty());
}

use firepit::workspace::override_target_vars;
use firepit::config::{LogConfig, ShellConfig, UI};
use firepit::project_config::{
    DependsOnConfig, FinalizedByConfig, ProjectConfig, TaskConfig, TypedVars, VarsConfig,
};
use firepit::workspace::{apply_cli_vars, apply_finalized_by, resolve_targets, task_config, ui_flags, WorkspaceError};

fn s(v: &str) -> String {
    v.to_string()
}

fn task(project: &str, name: &str, deps: &[&str], fins: &[&str]) -> TaskConfig {
    TaskConfig {
        name: s(name),
        orig_name: s(name),
        project: s(project),
        label: None,
        description: None,
        command: None,
        shell: None,
        working_dir: None,
        vars: vec![],
        env: vec![],
        env_files: vec![],
        depends_on: deps.iter().map(|d| DependsOnConfig::String(s(d))).collect(),
        wait_for: vec![],
        finalized_by: fins.iter().map(|f| FinalizedByConfig::String(s(f))).collect(),
        finalizes: vec![],
        service: None,
        stop_timeout: None,
        inputs: vec![],
        outputs: vec![],
    }
}

fn project(name: &str, dir: &str, tasks: Vec<TaskConfig>) -> ProjectConfig {
    ProjectConfig {
        name: s(name),
        projects: vec![],
        shell: ShellConfig { command: s("bash"), args: vec![s("-c")] },
        working_dir: s("."),
        vars: vec![],
        env: vec![],
        env_files: vec![],
        depends_on: vec![],
        defaults: vec![],
        tasks: tasks.into_iter().map(|t| (t.name.clone(), t)).collect(),
        concurrency: 4,
        log: LogConfig { level: s("info"), file: None },
        gantt_file: None,
        ui: UI::Tui,
        includes: vec![],
        path: format!("{}/firepit.yml", dir),
        dir: s(dir),
    }
}

fn workspace() -> (ProjectConfig, Vec<(String, ProjectConfig)>) {
    let root = project(
        "",
        "/w",
        vec![
            task("", "test", &["#db-up"], &["#db-down", "#report"]),
            task("", "db-up", &[], &["#db-down"]),
            task("", "db-down", &[], &[]),
            task("", "report", &[], &[]),
            task("", "lint", &[], &[]),
        ],
    );
    let client = project("client", "/w/client", vec![task("client", "build", &[], &[]), task("client", "lint", &[], &[])]);
    let server = project("server", "/w/server", vec![task("server", "lint", &[], &[])]);
    (root, vec![(s("client"), client), (s("server"), server)])
}

#[test]
fn finalizers_join_the_run() {
    let (mut root, mut children) = workspace();
    let fins = apply_finalized_by(&mut root, &mut children, &vec![s("#test")], false).unwrap();
    let mut sorted = fins.clone();
    sorted.sort();
    assert_eq!(sorted, vec![s("#db-down"), s("#report")]);
    let down = &root.tasks[2].1;
    let mut finalizes = down.finalizes.clone();
    finalizes.sort();
    // Found from the target and from its dependency
    assert_eq!(finalizes, vec![s("#db-up"), s("#test")]);
    assert_eq!(root.tasks[3].1.finalizes, vec![s("#test")]);
    assert!(root.tasks[0].1.finalizes.is_empty());
}

#[test]
fn force_leaves_out_the_finalizers_of_dependencies() {
    let (mut root, mut children) = workspace();
    apply_finalized_by(&mut root, &mut children, &vec![s("#test")], true).unwrap();
    assert_eq!(root.tasks[2].1.finalizes, vec![s("#test")]);
}

#[test]
fn a_finalizer_that_depends_on_the_task_is_left_as_it_is() {
    let root = project("", "/w", vec![task("", "a", &[], &["#b"]), task("", "b", &["#a"], &[])]);
    let (mut root, mut children) = (root, vec![]);
    let fins = apply_finalized_by(&mut root, &mut children, &vec![s("#a")], false).unwrap();
    assert_eq!(fins, vec![s("#b")]);
    assert!(root.tasks[1].1.finalizes.is_empty());
}

#[test]
fn a_target_finalizer_is_not_listed() {
    let (mut root, mut children) = workspace();
    let fins = apply_finalized_by(&mut root, &mut children, &vec![s("#test"), s("#report")], false).unwrap();
    assert_eq!(fins, vec![s("#db-down")]);
}

#[test]
fn an_unknown_finalizer_is_refused() {
    let root = project("", "/w", vec![task("", "a", &[], &["#nope"])]);
    let (mut root, mut children) = (root, vec![]);
    assert_eq!(
        apply_finalized_by(&mut root, &mut children, &vec![s("#a")], false),
        Err(WorkspaceError::TaskNotDefined(s("nope")))
    );
    let (mut root, mut children) = workspace();
    assert_eq!(
        apply_finalized_by(&mut root, &mut children, &vec![s("other#a")], false),
        Err(WorkspaceError::ProjectNotDefined(s("other")))
    );
}

#[test]
fn targets_from_the_command_line() {
    let (root, children) = workspace();
    assert_eq!(resolve_targets(&root, &children, &vec![s("test")], "/w"), Ok(vec![s("#test")]));
    // A name the root project lacks selects the tasks of that name in the children
    assert_eq!(resolve_targets(&root, &children, &vec![s("build")], "/w"), Ok(vec![s("client#build")]));
    // The root project's task wins in the root directory
    assert_eq!(resolve_targets(&root, &children, &vec![s("lint")], "/w"), Ok(vec![s("#lint")]));
    // In a child's directory, its task
    assert_eq!(resolve_targets(&root, &children, &vec![s("lint")], "/w/server"), Ok(vec![s("server#lint")]));
    assert_eq!(
        resolve_targets(&root, &children, &vec![s("client#lint"), s("#report")], "/elsewhere"),
        Ok(vec![s("client#lint"), s("#report")])
    );
    assert_eq!(
        resolve_targets(&root, &children, &vec![s("nothing")], "/w"),
        Err(WorkspaceError::NoSuchTask(s("nothing")))
    );
    assert_eq!(resolve_targets(&root, &children, &vec![s("lint")], "/elsewhere"), Err(WorkspaceError::NoProjectHere));
    assert_eq!(
        resolve_targets(&root, &children, &vec![s("report")], "/w/client"),
        Err(WorkspaceError::TaskNotDefined(s("report")))
    );
}

#[test]
fn task_lookup() {
    let (root, children) = workspace();
    assert_eq!(task_config(&root, &children, "#lint").unwrap().full_name(), "#lint");
    assert_eq!(task_config(&root, &children, "lint").unwrap().full_name(), "#lint");
    assert_eq!(task_config(&root, &children, "server#lint").unwrap().full_name(), "server#lint");
    assert!(matches!(task_config(&root, &children, "x#lint"), Err(WorkspaceError::ProjectNotDefined(_))));
}

#[test]
fn command_line_vars_override_declared_ones() {
    let mut vars = vec![
        (s("count"), VarsConfig::Typed(TypedVars { var_type: s("integer"), default: None, schema: s("{}") })),
        (s("name"), VarsConfig::Static(s("\"a\""))),
    ];
    let cli = vec![(s("count"), VarsConfig::Static(s("3"))), (s("other"), VarsConfig::Static(s("1")))];
    apply_cli_vars(&mut vars, &cli);
    assert_eq!(vars.len(), 2);
    match &vars[0].1 {
        VarsConfig::Typed(t) => assert_eq!(t.default, Some(s("3"))),
        other => panic!("unexpected {:?}", other),
    }
    assert!(matches!(&vars[1].1, VarsConfig::Static(v) if v == "\"a\""));
}

#[test]
fn interface_defaults() {
    assert_eq!(ui_flags(UI::Tui, None, None), (true, false));
    assert_eq!(ui_flags(UI::Cui, None, None), (false, true));
    assert_eq!(ui_flags(UI::Cui, Some(true), Some(false)), (true, false));
}

#[test]
fn command_line_vars_reach_the_targets() {
    let (mut root, mut children) = workspace();
    root.tasks[0].1.vars = vec![(s("env"), VarsConfig::Static(s("null")))];
    children[0].1.tasks[0].1.vars = vec![(s("env"), VarsConfig::Static(s("null")))];
    let cli = vec![(s("env"), VarsConfig::Static(s("\"prod\"")))];
    override_target_vars(&mut root, &mut children, &vec![s("#test")], &cli).unwrap();
    assert!(matches!(&root.tasks[0].1.vars[0].1, VarsConfig::Static(v) if v == "\"prod\""));
    // Only the targets take them
    assert!(matches!(&children[0].1.tasks[0].1.vars[0].1, VarsConfig::Static(v) if v == "null"));
    assert_eq!(
        override_target_vars(&mut root, &mut children, &vec![s("#nope")], &cli),
        Err(WorkspaceError::TaskNotDefined(s("nope")))
    );
}

#[test]
fn directories_compare_as_paths() {
    let (root, children) = workspace();
    assert_eq!(resolve_targets(&root, &children, &vec![s("lint")], "/w/").unwrap(), vec![s("#lint")]);
    assert_eq!(resolve_targets(&root, &children, &vec![s("build")], "/w/./client").unwrap(), vec![s("client#build")]);
}

#[test]
fn finalizers_come_in_the_order_the_walk_finds_them() {
    let (mut root, mut children) = workspace();
    let fins = apply_finalized_by(&mut root, &mut children, &vec![s("#test")], false).unwrap();
    // The target's own finalizers first, in the order written
    assert_eq!(fins, vec![s("#db-down"), s("#report")]);
    // `#db-down` is found at the target before its dependency `#db-up`
    assert_eq!(root.tasks[2].1.finalizes, vec![s("#test"), s("#db-up")]);
}

use firepit::config::{LogConfig, ShellConfig, UI};
use firepit::project_config::{DependsOnConfig, ProjectConfig, ServiceConfig, TaskConfig, TypedVars, VarsConfig, FinalizedByConfig, WaitForConfig};
use firepit::sorted::{sort_by_name, text_less};
use firepit::unset_vars::{collect_unset_vars, unset_vars_message, validate_vars};
use firepit::workspace::RefField;

fn s(v: &str) -> String {
    v.to_string()
}

fn task(project: &str, name: &str, deps: &[&str], vars: Vec<(String, VarsConfig)>) -> TaskConfig {
    TaskConfig {
        name: s(name),
        orig_name: s(name),
        project: s(project),
        label: None,
        description: None,
        command: None,
        shell: None,
        working_dir: None,
        vars,
        env: vec![],
        env_files: vec![],
        depends_on: deps.iter().map(|d| DependsOnConfig::String(s(d))).collect(),
        wait_for: vec![],
        finalized_by: vec![],
        finalizes: vec![],
        service: None,
        stop_timeout: None,
        inputs: vec![],
        outputs: vec![],
    }
}

fn project(name: &str, vars: Vec<(String, VarsConfig)>, tasks: Vec<TaskConfig>) -> ProjectConfig {
    ProjectConfig {
        name: s(name),
        projects: vec![],
        shell: ShellConfig { command: s("bash"), args: vec![s("-c")] },
        working_dir: s("."),
        vars,
        env: vec![],
        env_files: vec![],
        depends_on: vec![],
        defaults: vec![],
        tasks: tasks.into_iter().map(|t| (t.name.clone(), t)).collect(),
        concurrency: 4,
        log: LogConfig { level: s("info"), file: None },
        gantt_file: None,
        ui: UI::Tui,
        includes: vec![],
        path: format!("/w/{}/firepit.yml", name),
        dir: format!("/w/{}", name),
    }
}

fn unset() -> VarsConfig {
    VarsConfig::Static(s("null"))
}

fn set(v: &str) -> VarsConfig {
    VarsConfig::Static(s(v))
}

fn workspace() -> (ProjectConfig, Vec<(String, ProjectConfig)>) {
    let root = project(
        "",
        vec![(s("region"), unset()), (s("name"), set("\"x\""))],
        vec![
            task("", "deploy", &["migrate", "client#build"], vec![(s("env"), unset()), (s("tag"), set("1"))]),
            task("", "migrate", &[], vec![(s("db"), unset())]),
            task("", "idle", &[], vec![(s("never"), unset())]),
        ],
    );
    let client = project(
        "client",
        vec![(s("token"), VarsConfig::Typed(TypedVars { var_type: s("string"), default: None, schema: s("{}") }))],
        vec![task("client", "build", &[], vec![])],
    );
    let other = project("other", vec![(s("unused"), unset())], vec![task("other", "x", &[], vec![])]);
    (root, vec![(s("client"), client), (s("other"), other)])
}

#[test]
fn collects_the_unset_vars_of_the_run() {
    let (root, children) = workspace();
    let (task_vars, project_vars) = collect_unset_vars(&root, &children, &vec![s("#deploy")], &vec![], &vec![]);
    assert_eq!(
        task_vars,
        vec![(s("#deploy"), vec![(s("env"), true)]), (s("#migrate"), vec![(s("db"), false)])]
    );
    assert_eq!(project_vars, vec![(s(""), vec![s("region")]), (s("client"), vec![s("token")])]);
}

#[test]
fn command_line_vars_set_project_vars() {
    let (root, children) = workspace();
    let cli = vec![(s("region"), set("\"eu\""))];
    let (_, project_vars) = collect_unset_vars(&root, &children, &vec![s("client#build")], &vec![], &cli);
    assert_eq!(project_vars, vec![(s("client"), vec![s("token")])]);
    let (task_vars, project_vars) = collect_unset_vars(&root, &children, &vec![s("#migrate")], &vec![], &cli);
    assert_eq!(task_vars, vec![(s("#migrate"), vec![(s("db"), true)])]);
    assert!(project_vars.is_empty());
}

#[test]
fn the_message_names_what_is_missing() {
    let task_vars = vec![(s("#deploy"), vec![(s("env"), true)]), (s("#migrate"), vec![(s("db"), false)])];
    let project_vars = vec![(s(""), vec![s("region")]), (s("client"), vec![s("token")])];
    let msg = unset_vars_message(&task_vars, &project_vars, &vec![s("#deploy")]);
    assert_eq!(
        msg,
        "the root project requires vars that are not set: \"region\"\n\
         project \"client\" requires vars that are not set: \"token\"\n\
         task \"#deploy\" requires vars that are not set: \"env\"\n\
         task \"#migrate\" requires vars that are not set: \"db\"\n\
         Set them like: fire deploy region=<value> token=<value> env=<value>\n\
         Vars of a dependency task can be set with the dependent task's `depends_on.vars`"
    );
    let only_dep = unset_vars_message(&vec![(s("#migrate"), vec![(s("db"), false), (s("user"), false)])], &vec![], &vec![s("#deploy")]);
    assert_eq!(
        only_dep,
        "task \"#migrate\" requires vars that are not set: \"db\", \"user\"\n\
         Vars of a dependency task can be set with the dependent task's `depends_on.vars`"
    );
}

#[test]
fn validation_of_vars() {
    let (root, children) = workspace();
    assert!(validate_vars(&root, &children, &vec![s("#deploy")], &vec![], &vec![]).is_err());
    let cli = vec![(s("region"), set("1")), (s("token"), set("\"t\""))];
    let fine = project("", vec![], vec![task("", "a", &[], vec![(s("v"), set("2"))])]);
    assert_eq!(validate_vars(&fine, &vec![], &vec![s("#a")], &vec![], &cli), Ok(()));
}

#[test]
fn names_in_order() {
    assert!(text_less("a", "b"));
    assert!(text_less("ab", "abc"));
    assert!(!text_less("b", "ab"));
    assert!(!text_less("x", "x"));
    assert!(text_less("Z", "a"));
    let sorted = sort_by_name(vec![(s("b"), 1u64), (s("a"), 2u64), (s("c"), 3u64)]);
    assert_eq!(sorted, vec![(s("a"), 2u64), (s("b"), 1u64), (s("c"), 3u64)]);
}

#[test]
fn references_between_tasks() {
    let mut a = task("", "a", &["#b"], vec![]);
    a.wait_for = vec![WaitForConfig::String(s("#b"))];
    let b = task("", "b", &[], vec![]);
    let root = project("", vec![], vec![a, b]);
    assert_eq!(ProjectConfig::validate_multi(&root, &vec![]), Ok(()));

    let bad = project("", vec![], vec![task("", "a", &["#missing"], vec![])]);
    let err = ProjectConfig::validate_multi(&bad, &vec![]).unwrap_err();
    assert_eq!(err.field, RefField::DependsOn);
    assert_eq!(err.name, "#missing");
    assert_eq!(err.task, "a");
    assert!(!err.service);

    let mut svc = task("", "svc", &[], vec![]);
    svc.service = Some(ServiceConfig::Bool(true));
    let mut main = task("", "main", &[], vec![]);
    main.finalized_by = vec![FinalizedByConfig::String(s("#svc"))];
    let root = project("", vec![], vec![main, svc]);
    let err = ProjectConfig::validate_multi(&root, &vec![]).unwrap_err();
    assert_eq!(err.field, RefField::FinalizedBy);
    assert!(err.service);
}

#[test]
fn first_refused_reference_is_reported() {
    // Within a task, its dependencies come before its wait_for entries
    let mut a = task("", "a", &["#gone"], vec![]);
    a.wait_for = vec![WaitForConfig::String(s("#lost"))];
    // A later task's bad reference is not the one reported
    let b = task("", "b", &["#missing"], vec![]);
    let root = project("", vec![], vec![a, b]);
    let err = ProjectConfig::validate_multi(&root, &vec![]).unwrap_err();
    assert_eq!((err.task.as_str(), err.field, err.name.as_str()), ("a", RefField::DependsOn, "#gone"));

    let mut w = task("", "w", &[], vec![]);
    w.wait_for = vec![WaitForConfig::String(s("#w")), WaitForConfig::String(s("#lost"))];
    let root = project("", vec![], vec![w]);
    let err = ProjectConfig::validate_multi(&root, &vec![]).unwrap_err();
    assert_eq!((err.field, err.name.as_str()), (RefField::WaitFor, "#lost"));
}

use firepit::config::{LogConfig, ShellConfig, UI};
use firepit::project_config::{ProjectConfig, TaskConfig, VarsConfig};
use firepit::variants::{
    get_task, get_variant_tasks, merge_variant_vars, next_variant, set_task, variant_name,
};

fn s(v: &str) -> String {
    v.to_string()
}

fn task(project: &str, name: &str, orig: &str) -> TaskConfig {
    TaskConfig {
        name: s(name),
        orig_name: s(orig),
        project: s(project),
        label: None,
        description: None,
        command: None,
        shell: None,
        working_dir: None,
        vars: vec![],
        env: vec![],
        env_files: vec![],
        depends_on: vec![],
        wait_for: vec![],
        finalized_by: vec![],
        finalizes: vec![],
        service: None,
        stop_timeout: None,
        inputs: vec![],
        outputs: vec![],
    }
}

fn project(name: &str, tasks: Vec<TaskConfig>) -> ProjectConfig {
    ProjectConfig {
        name: s(name),
        projects: vec![],
        shell: ShellConfig { command: s("bash"), args: vec![s("-c")] },
        working_dir: s("."),
        vars: vec![],
        env: vec![],
        env_files: vec![],
        depends_on: vec![],
        defaults: vec![],
        tasks: tasks.into_iter().map(|t| (t.name.clone(), t)).collect(),
        concurrency: 4,
        log: LogConfig { level: s("info"), file: None },
        gantt_file: None,
        ui: UI::Tui,
        includes: vec![],
        path: s("/w/firepit.yml"),
        dir: s("/w"),
    }
}

fn workspace() -> (ProjectConfig, Vec<(String, ProjectConfig)>) {
    let root = project("", vec![task("", "build", "build"), task("", "build-1", "build"), task("", "lint", "lint")]);
    let web = project("web", vec![task("web", "serve", "serve")]);
    (root, vec![(s("web"), web)])
}

#[test]
fn tasks_are_found_by_full_name() {
    let (root, children) = workspace();
    let (t, p) = get_task("#build-1", &root, &children).unwrap();
    assert_eq!((t.name.as_str(), p.name.as_str()), ("build-1", ""));
    let (t, p) = get_task("web#serve", &root, &children).unwrap();
    assert_eq!((t.name.as_str(), p.name.as_str()), ("serve", "web"));
    assert!(get_task("build", &root, &children).is_none());
    assert!(get_task("api#serve", &root, &children).is_none());
    assert!(get_task("web#build", &root, &children).is_none());
}

#[test]
fn variants_share_the_written_name() {
    let (root, children) = workspace();
    let names: Vec<&str> = get_variant_tasks("#build", &root, &children).iter().map(|t| t.name.as_str()).collect();
    assert_eq!(names, vec!["build", "build-1"]);
    assert_eq!(get_variant_tasks("web#serve", &root, &children).len(), 1);
    assert!(get_variant_tasks("build", &root, &children).is_empty());
    assert!(get_variant_tasks("api#x", &root, &children).is_empty());
    assert!(task("", "build-1", "build").is_variant(&task("", "build", "build")));
    assert!(!task("web", "build", "build").is_variant(&task("", "build", "build")));
}

#[test]
fn set_task_replaces_or_adds() {
    let (mut root, mut children) = workspace();
    let mut changed = task("", "lint", "lint");
    changed.command = Some(s("cargo clippy"));
    set_task(changed, &mut root, &mut children);
    assert_eq!(root.tasks.len(), 3);
    assert_eq!(root.tasks[2].1.command.as_deref(), Some("cargo clippy"));
    set_task(task("web", "serve-1", "serve"), &mut root, &mut children);
    let names: Vec<&str> = children[0].1.tasks.iter().map(|(k, _)| k.as_str()).collect();
    assert_eq!(names, vec!["serve", "serve-1"]);
    set_task(task("api", "x", "x"), &mut root, &mut children);
    assert_eq!(root.tasks.len(), 3);
    assert_eq!(children.len(), 1);
}

#[test]
fn only_declared_vars_are_merged() {
    let vars = vec![(s("env"), VarsConfig::Static(s("\"dev\""))), (s("port"), VarsConfig::Static(s("80")))];
    let given = vec![(s("port"), VarsConfig::Static(s("8080"))), (s("extra"), VarsConfig::Static(s("1")))];
    let merged = merge_variant_vars(&vars, &given);
    let flat: Vec<(String, String)> = merged
        .iter()
        .map(|(k, v)| match v {
            VarsConfig::Static(x) => (k.clone(), x.clone()),
            _ => (k.clone(), s("?")),
        })
        .collect();
    assert_eq!(flat, vec![(s("env"), s("\"dev\"")), (s("port"), s("8080"))]);
}

#[test]
fn variants_are_numbered_per_task() {
    let mut counts = vec![];
    assert_eq!(next_variant(&mut counts, "#build"), 1);
    assert_eq!(next_variant(&mut counts, "#build"), 2);
    assert_eq!(next_variant(&mut counts, "web#serve"), 1);
    assert_eq!(counts, vec![(s("#build"), 2), (s("web#serve"), 1)]);
    assert_eq!(variant_name("#build", 2), "#build-2");
    assert_eq!(variant_name("web#serve", 10), "web#serve-10");
}

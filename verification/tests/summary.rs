use firepit::config::{LogConfig, ShellConfig, UI};
use firepit::project_config::{ProjectConfig, TaskConfig};
use firepit::summary::{project_task_lines, summary_lines, summary_lines_at, SummaryLine};

fn s(v: &str) -> String {
    v.to_string()
}

fn task(name: &str, description: Option<&str>) -> TaskConfig {
    TaskConfig {
        name: s(name),
        orig_name: s(name),
        project: s(""),
        label: None,
        description: description.map(s),
        command: None,
        shell: None,
        working_dir: None,
        vars: vec![],
        env: vec![],
        env_files: vec![],
        depends_on: vec![],
        wait_for: vec![],
        finalized_by: vec![],
        finalizes: vec![],
        service: None,
        stop_timeout: None,
        inputs: vec![],
        outputs: vec![],
    }
}

fn project(name: &str, dir: &str, tasks: Vec<TaskConfig>) -> ProjectConfig {
    ProjectConfig {
        name: s(name),
        projects: vec![],
        shell: ShellConfig { command: s("bash"), args: vec![s("-c")] },
        working_dir: s("."),
        vars: vec![],
        env: vec![],
        env_files: vec![],
        depends_on: vec![],
        defaults: vec![],
        tasks: tasks.into_iter().map(|t| (t.name.clone(), t)).collect(),
        concurrency: 4,
        log: LogConfig { level: s("info"), file: None },
        gantt_file: None,
        ui: UI::Tui,
        includes: vec![],
        path: format!("{}/firepit.yml", dir),
        dir: s(dir),
    }
}

#[test]
fn described_tasks_come_first_with_their_lines() {
    let p = project(
        "",
        "/w",
        vec![task("lint", None), task("build", Some("Build it\nall of it\n\n  ")), task("test", Some("Run tests"))],
    );
    assert_eq!(
        project_task_lines(&p),
        vec![
            SummaryLine::TasksHeading,
            SummaryLine::Task(s("build")),
            SummaryLine::Description(s("Build it")),
            SummaryLine::Description(s("all of it")),
            SummaryLine::Task(s("test")),
            SummaryLine::Description(s("Run tests")),
            SummaryLine::Task(s("lint")),
        ]
    );
}

#[test]
fn blank_description_keeps_one_empty_line() {
    let p = project("", "/w", vec![task("a", Some("  \n "))]);
    assert_eq!(
        project_task_lines(&p),
        vec![SummaryLine::TasksHeading, SummaryLine::Task(s("a")), SummaryLine::Description(s(""))]
    );
}

fn workspace() -> (ProjectConfig, Vec<(String, ProjectConfig)>) {
    let mut root = project("", "/w", vec![task("up", None)]);
    root.projects = vec![(s("client"), s("apps/client")), (s("server"), s("apps/server"))];
    let client = project("client", "/w/apps/client", vec![task("build", None)]);
    let server = project("server", "/w/apps/server", vec![task("run", Some("Serve"))]);
    (root, vec![(s("client"), client), (s("server"), server)])
}

#[test]
fn single_project_lists_its_tasks() {
    let root = project("", "/w", vec![task("up", None)]);
    assert_eq!(
        summary_lines(&root, &vec![], "/elsewhere"),
        vec![SummaryLine::TasksHeading, SummaryLine::Task(s("up"))]
    );
}

#[test]
fn root_directory_lists_every_project() {
    let (root, children) = workspace();
    assert_eq!(
        summary_lines(&root, &children, "/w/"),
        vec![
            SummaryLine::RootProject,
            SummaryLine::TasksHeading,
            SummaryLine::Task(s("up")),
            SummaryLine::Blank,
            SummaryLine::Rule,
            SummaryLine::Project(s("client")),
            SummaryLine::Directory(s("apps/client")),
            SummaryLine::TasksHeading,
            SummaryLine::Task(s("build")),
            SummaryLine::Blank,
            SummaryLine::Rule,
            SummaryLine::Project(s("server")),
            SummaryLine::Directory(s("apps/server")),
            SummaryLine::TasksHeading,
            SummaryLine::Task(s("run")),
            SummaryLine::Description(s("Serve")),
            SummaryLine::Blank,
        ]
    );
}

#[test]
fn child_directory_lists_that_child_only() {
    let (root, children) = workspace();
    assert_eq!(
        summary_lines(&root, &children, "/w/apps/server"),
        vec![
            SummaryLine::Project(s("server")),
            SummaryLine::Directory(s("apps/server")),
            SummaryLine::TasksHeading,
            SummaryLine::Task(s("run")),
            SummaryLine::Description(s("Serve")),
            SummaryLine::Blank,
        ]
    );
    assert_eq!(summary_lines(&root, &children, "/tmp"), vec![]);
}

#[test]
fn child_without_directory_entry_shows_an_empty_one() {
    let (mut root, children) = workspace();
    root.projects = vec![];
    assert_eq!(
        summary_lines_at(&root, &children, false, Some(0)),
        vec![
            SummaryLine::Project(s("client")),
            SummaryLine::Directory(s("")),
            SummaryLine::TasksHeading,
            SummaryLine::Task(s("build")),
            SummaryLine::Blank,
        ]
    );
}

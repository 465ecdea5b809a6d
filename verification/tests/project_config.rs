use firepit::config::parse_restart;
use firepit::config::{LogConfig, LogProbeConfig, Restart, ShellConfig, TaskSelector, UI};
use firepit::env::{Env, EnvConfig};
use firepit::probe::Probe;
use firepit::project::Task;
use firepit::project_config::{
    ConfigError, DefaultsConfig, DependsOnConfig, DependsOnConfigStruct, ExecProbeConfig, HealthCheckConfig,
    ProjectConfig, ServiceConfig, ServiceConfigStruct, TaskConfig, TaskError, TypedVars, VarsConfig, WaitForConfig,
    WaitForConfigStruct,
};

fn s(v: &str) -> String {
    v.to_string()
}

fn shell(cmd: &str) -> ShellConfig {
    ShellConfig { command: s(cmd), args: vec![s("-c")] }
}

fn task_config(project: &str, name: &str) -> TaskConfig {
    TaskConfig {
        name: s(name),
        orig_name: s(name),
        project: s(project),
        label: None,
        description: None,
        command: Some(s("echo hi")),
        shell: None,
        working_dir: None,
        vars: vec![],
        env: vec![],
        env_files: vec![],
        depends_on: vec![],
        wait_for: vec![],
        finalized_by: vec![],
        finalizes: vec![],
        service: None,
        stop_timeout: None,
        inputs: vec![],
        outputs: vec![],
    }
}

fn defaults(tasks: Option<TaskSelector>) -> DefaultsConfig {
    DefaultsConfig {
        tasks,
        shell: None,
        working_dir: None,
        vars: vec![],
        env: vec![],
        env_files: vec![],
        depends_on: vec![],
        wait_for: vec![],
        service: None,
        stop_timeout: None,
        inputs: vec![],
        outputs: vec![],
    }
}

fn project(name: &str, tasks: Vec<TaskConfig>) -> ProjectConfig {
    ProjectConfig {
        name: s(name),
        projects: vec![],
        shell: shell("bash"),
        working_dir: s("."),
        vars: vec![],
        env: vec![],
        env_files: vec![],
        depends_on: vec![],
        defaults: vec![],
        tasks: tasks.into_iter().map(|t| (t.name.clone(), t)).collect(),
        concurrency: 4,
        log: LogConfig { level: s("info"), file: None },
        gantt_file: None,
        ui: UI::Tui,
        includes: vec![],
        path: s("/p/firepit.yml"),
        dir: s("/p"),
    }
}

fn statics(v: &[(&str, &str)]) -> Vec<(String, VarsConfig)> {
    v.iter().map(|(k, x)| (s(k), VarsConfig::Static(s(x)))).collect()
}

fn static_value(v: &VarsConfig) -> Option<&str> {
    match v {
        VarsConfig::Static(x) => Some(x.as_str()),
        _ => None,
    }
}

#[test]
fn defaults_lay_under_the_task() {
    let mut build = task_config("", "build");
    build.env = vec![(s("B"), s("task"))];
    build.env_files = vec![s("task.env")];
    build.stop_timeout = Some(3);
    let other = task_config("", "lint");
    let mut config = project("", vec![build, other]);
    let mut d1 = defaults(Some(TaskSelector::Regex(s("^build"))));
    d1.env = vec![(s("A"), s("one")), (s("B"), s("default"))];
    d1.env_files = vec![s("first.env")];
    d1.stop_timeout = Some(30);
    d1.depends_on = vec![DependsOnConfig::String(s("install"))];
    let mut d2 = defaults(None);
    d2.env = vec![(s("A"), s("two"))];
    d2.env_files = vec![s("second.env")];
    d2.shell = Some(shell("zsh"));
    config.defaults = vec![d1, d2];

    assert_eq!(config.apply_defaults(), Ok(()));

    let build = &config.tasks[0].1;
    // A later entry wins on a key, the task's own value wins over both
    assert_eq!(build.env, vec![(s("A"), s("two")), (s("B"), s("task"))]);
    // Lists are joined in order, the task's own last
    assert_eq!(build.env_files, vec![s("first.env"), s("second.env"), s("task.env")]);
    assert_eq!(build.stop_timeout, Some(3));
    assert_eq!(build.shell.as_ref().map(|x| x.command.as_str()), Some("zsh"));
    // Dependencies of the defaults name tasks of the project
    assert_eq!(build.depends_on.len(), 1);
    assert_eq!(build.depends_on[0].task(), "#install");

    let lint = &config.tasks[1].1;
    assert_eq!(lint.env, vec![(s("A"), s("two"))]);
    assert_eq!(lint.stop_timeout, None);
    assert!(lint.depends_on.is_empty());
}

#[test]
fn defaults_by_list_and_untouched_tasks() {
    let mut config = project("web", vec![task_config("web", "a"), task_config("web", "b")]);
    let mut d = defaults(Some(TaskSelector::List(vec![s("b")])));
    d.wait_for = vec![WaitForConfig::String(s("a"))];
    d.vars = statics(&[("x", "1")]);
    config.defaults = vec![d];
    assert_eq!(config.apply_defaults(), Ok(()));
    assert!(config.tasks[0].1.wait_for.is_empty());
    assert!(config.tasks[0].1.vars.is_empty());
    assert_eq!(config.tasks[1].1.wait_for[0].task(), "web#a");
    assert_eq!(static_value(&config.tasks[1].1.vars[0].1), Some("1"));
}

#[test]
fn invalid_defaults_pattern_is_refused() {
    let mut config = project("", vec![task_config("", "a")]);
    let mut d = defaults(Some(TaskSelector::Regex(s("(unclosed"))));
    d.env = vec![(s("A"), s("1"))];
    config.defaults = vec![defaults(Some(TaskSelector::Regex(s("a")))), d];
    assert_eq!(config.apply_defaults(), Err(ConfigError::InvalidDefaultsPattern(s("(unclosed"))));
    assert!(config.tasks[0].1.env.is_empty());
}

#[test]
fn unset_vars() {
    assert!(VarsConfig::Static(s("null")).is_unset());
    assert!(!VarsConfig::Static(s("\"x\"")).is_unset());
    let typed = VarsConfig::Typed(TypedVars { var_type: s("array"), default: None, schema: s("{}") });
    assert!(typed.is_unset());
    let typed_null = VarsConfig::Typed(TypedVars { var_type: s("string"), default: Some(s("null")), schema: s("{}") });
    assert!(typed_null.is_unset());
    let typed_set = VarsConfig::Typed(TypedVars { var_type: s("string"), default: Some(s("\"a\"")), schema: s("{}") });
    assert!(!typed_set.is_unset());
}

#[test]
fn a_typed_variable_keeps_its_type() {
    let typed = VarsConfig::Typed(TypedVars { var_type: s("integer"), default: None, schema: s("{\"minimum\":1}") });
    match typed.with_value(&VarsConfig::Static(s("5"))) {
        VarsConfig::Typed(t) => {
            assert_eq!(t.var_type, "integer");
            assert_eq!(t.default, Some(s("5")));
            assert_eq!(t.schema, "{\"minimum\":1}");
        },
        other => panic!("unexpected {:?}", other),
    }
    let plain = VarsConfig::Static(s("\"a\""));
    assert_eq!(static_value(&plain.with_value(&VarsConfig::Static(s("\"b\"")))), Some("\"b\""));
}

#[test]
fn task_from_config() {
    let mut config = project("web", vec![]);
    config.depends_on = vec![DependsOnConfig::String(s("setup"))];
    let mut t = task_config("web", "serve");
    t.label = None;
    t.depends_on = vec![
        DependsOnConfig::Struct(DependsOnConfigStruct { task: s("#build"), vars: vec![], cascade: false }),
        DependsOnConfig::String(s("serve")),
    ];
    t.finalizes = vec![s("web#db")];
    t.wait_for = vec![WaitForConfig::Struct(WaitForConfigStruct { task: s("migrate"), vars: statics(&[("db", "\"app\"")]) })];
    t.vars = statics(&[("port", "8080")]);
    t.service = Some(ServiceConfig::Struct(ServiceConfigStruct {
        healthcheck: Some(HealthCheckConfig::Log(LogProbeConfig { log: s("ready"), timeout: 20 })),
        restart: Restart::OnFailure(Some(2)),
    }));
    let task = Task::new("web", &config, "serve", &t).unwrap();
    assert_eq!(task.name, "web#serve");
    assert_eq!(task.label, "web#serve");
    assert_eq!(task.command, "echo hi");
    assert_eq!(task.shell, "bash");
    let deps: Vec<(String, bool, bool)> = task.depends_on.iter().map(|d| (d.task.clone(), d.cascade, d.always)).collect();
    // A dependency on the task itself is left out
    assert_eq!(
        deps,
        vec![(s("#build"), false, false), (s("web#setup"), true, false), (s("web#db"), true, true)]
    );
    assert_eq!(task.wait_for[0].task, "web#migrate");
    assert_eq!(task.wait_for[0].vars, vec![(s("db"), s("\"app\""))]);
    assert_eq!(task.vars, vec![(s("port"), s("8080"))]);
    assert!(task.is_service);
    assert_eq!(task.restart, Restart::OnFailure(Some(2)));
    assert_eq!(task.stop_timeout, 10);
    assert!(matches!(task.probe, Probe::LogLine(ref p) if p.pattern == "ready" && p.timeout == 20));
}

#[test]
fn exec_probe_uses_the_task_shell() {
    let config = project("", vec![]);
    let mut t = task_config("", "db");
    t.shell = Some(shell("sh"));
    t.stop_timeout = Some(2);
    t.service = Some(ServiceConfig::Struct(ServiceConfigStruct {
        healthcheck: Some(HealthCheckConfig::Exec(ExecProbeConfig {
            command: s("pg_isready"),
            shell: None,
            working_dir: None,
            env: vec![],
            env_files: vec![],
            interval: 1,
            timeout: 2,
            retries: 3,
            start_period: 4,
        })),
        restart: Restart::Never,
    }));
    let task = Task::new("", &config, "db", &t).unwrap();
    assert_eq!(task.stop_timeout, 2);
    match task.probe {
        Probe::Exec(p) => {
            assert_eq!(p.name, "#db");
            assert_eq!(p.shell, "sh");
            assert_eq!((p.interval, p.timeout, p.retries, p.start_period), (1, 2, 3, 4));
        },
        _ => panic!("expected an exec probe"),
    }
}

#[test]
fn refused_tasks() {
    let config = project("", vec![]);
    let t = task_config("", "a#b");
    assert_eq!(Task::new("", &config, "a#b", &t).err(), Some(TaskError::HashInName(s("a#b"))));
    let mut t = task_config("", "svc");
    t.service = Some(ServiceConfig::Struct(ServiceConfigStruct {
        healthcheck: Some(HealthCheckConfig::Log(LogProbeConfig { log: s("[bad"), timeout: 1 })),
        restart: Restart::Never,
    }));
    assert_eq!(Task::new("", &config, "svc", &t).err(), Some(TaskError::InvalidPattern(s("[bad"))));
    let plain = Task::new("", &config, "plain", &task_config("", "plain")).unwrap();
    assert!(!plain.is_service);
    assert!(matches!(plain.probe, Probe::NoProbe));
}

#[test]
fn full_names_and_services() {
    let mut t = task_config("web", "serve-1");
    t.orig_name = s("serve");
    assert_eq!(t.full_name(), "web#serve-1");
    assert_eq!(t.full_orig_name(), "web#serve");
    assert!(!t.is_service());
    t.service = Some(ServiceConfig::Bool(true));
    assert!(t.is_service());
    let tasks = Task::new_multi("web", &project("web", vec![task_config("web", "a"), task_config("web", "b")])).unwrap();
    assert_eq!(tasks.iter().map(|t| t.name.clone()).collect::<Vec<_>>(), vec![s("web#a"), s("web#b")]);
}

#[test]
fn restart_policies_are_read() {
    assert_eq!(parse_restart("never"), Some(Restart::Never));
    assert_eq!(parse_restart("always"), Some(Restart::Always(None)));
    assert_eq!(parse_restart("always:3"), Some(Restart::Always(Some(3))));
    assert_eq!(parse_restart("on-failure"), Some(Restart::OnFailure(None)));
    assert_eq!(parse_restart("on-failure:12"), Some(Restart::OnFailure(Some(12))));
    assert_eq!(parse_restart("on-failure:99999999999999999999999"), Some(Restart::OnFailure(None)));
    assert_eq!(parse_restart("sometimes"), None);
    assert_eq!(parse_restart("always:"), None);
    assert_eq!(parse_restart("always:x"), None);
}

#[test]
fn tasks_are_named_after_their_keys() {
    let mut t = task_config("", "");
    t.depends_on = vec![DependsOnConfig::String(s("lint")), DependsOnConfig::String(s("other#x"))];
    let mut config = project("web", vec![]);
    config.tasks = vec![(s("build"), t)];
    assert!(!config.is_root());
    config.name_tasks();
    let named = &config.tasks[0].1;
    assert_eq!(named.name, "build");
    assert_eq!(named.orig_name, "build");
    assert_eq!(named.project, "web");
    assert_eq!(named.depends_on[0].task(), "web#lint");
    assert_eq!(named.depends_on[1].task(), "other#x");
    config.projects = vec![(s("c"), s("client"))];
    assert!(config.is_root());
}

#[test]
fn deprecated_project_settings_are_warned_about() {
    let mut config = project("", vec![]);
    assert!(config.deprecated_warnings().is_empty());
    config.working_dir = s("src");
    config.env = vec![(s("A"), s("1"))];
    let w = config.deprecated_warnings();
    assert_eq!(w.len(), 2);
    assert_eq!(
        w[0],
        "/p/firepit.yml: project-level `working_dir` is deprecated. Use `defaults` instead. See https://kota65535.github.io/firepit/schema.html#defaults"
    );
    assert!(w[1].contains("`env`"));
    config.shell = shell("zsh");
    assert!(config.deprecated_warnings()[0].contains("`shell`"));
}

#[test]
fn up_to_date_tasks() {
    let config = project("", vec![]);
    let mut build = task_config("", "build");
    build.inputs = vec![s("src/*.rs"), s("Cargo.toml")];
    build.outputs = vec![s("target/app")];
    let task = Task::new("", &config, "build", &build).unwrap();
    assert!(task.is_up_to_date(&vec![10, 20], &vec![30]));
    assert!(!task.is_up_to_date(&vec![10, 30], &vec![30]));
    assert!(!task.is_up_to_date(&vec![0, 0], &vec![0]));
    let bare = Task::new("", &config, "bare", &task_config("", "bare")).unwrap();
    assert!(!bare.is_up_to_date(&vec![], &vec![]));
    let mut svc = task_config("", "svc");
    svc.service = Some(ServiceConfig::Bool(true));
    svc.inputs = vec![s("a")];
    svc.outputs = vec![s("b")];
    let svc = Task::new("", &config, "svc", &svc).unwrap();
    assert!(!svc.is_up_to_date(&vec![1], &vec![2]));
}

#[test]
fn inputs_match_changed_paths() {
    let config = project("", vec![]);
    let mut build = task_config("", "build");
    build.inputs = vec![s(""), s("src/*.rs")];
    let task = Task::new("", &config, "build", &build).unwrap();
    assert!(task.match_inputs(&vec![s("/p/README.md"), s("/p/src/main.rs")]));
    assert!(!task.match_inputs(&vec![s("/p/src/deep/main.rs")]));
    assert!(!task.match_inputs(&vec![]));
    let mut bad = task_config("", "bad");
    bad.inputs = vec![s("[")];
    assert!(!Task::new("", &config, "bad", &bad).unwrap().match_inputs(&vec![s("/p/[")]));
}

#[test]
fn task_paths_and_environment() {
    let mut config = project("", vec![]);
    config.working_dir = s("app");
    config.env_files = vec![s("root.env")];
    config.env = vec![(s("A"), s("1"))];
    let mut t = task_config("", "svc");
    t.working_dir = Some(s("sub"));
    t.env_files = vec![s(".env"), s("/etc/x.env")];
    t.env = vec![(s("B"), s("2"))];
    t.inputs = vec![s("src/*.rs")];
    t.outputs = vec![s("/out")];
    t.service = Some(ServiceConfig::Struct(ServiceConfigStruct {
        healthcheck: Some(HealthCheckConfig::Exec(ExecProbeConfig {
            command: s("check"),
            shell: None,
            working_dir: Some(s("hc")),
            env: vec![(s("C"), s("3"))],
            env_files: vec![s("hc.env")],
            interval: 1,
            timeout: 1,
            retries: 1,
            start_period: 0,
        })),
        restart: Restart::Never,
    }));
    let task = Task::new("", &config, "svc", &t).unwrap();
    assert_eq!(task.working_dir, "/p/app/sub");
    let layers: Vec<(Vec<String>, Vec<(String, String)>)> =
        task.env.configs.iter().map(|c| (c.env_files.clone(), c.env.clone())).collect();
    assert_eq!(
        layers,
        vec![
            (vec![s("/p/root.env")], vec![(s("A"), s("1"))]),
            (vec![s("/p/.env"), s("/etc/x.env")], vec![(s("B"), s("2"))]),
        ]
    );
    assert_eq!(task.inputs, vec![s("/p/src/*.rs"), s("/p/.env"), s("/etc/x.env")]);
    assert_eq!(task.outputs, vec![s("/out"), s("/p/.env"), s("/etc/x.env")]);
    match task.probe {
        Probe::Exec(p) => {
            assert_eq!(p.working_dir, "/p/app/sub/hc");
            assert_eq!(p.env.configs.len(), 3);
            assert_eq!(p.env.configs[2].env_files, vec![s("/p/hc.env")]);
            assert_eq!(p.env.configs[2].env, vec![(s("C"), s("3"))]);
        },
        _ => panic!("expected an exec probe"),
    }
    let mut plain = task_config("", "plain");
    plain.working_dir = Some(s("/abs"));
    assert_eq!(Task::new("", &config, "plain", &plain).unwrap().working_dir, "/abs");
    let bare = Task::new("", &project("", vec![]), "plain", &task_config("", "plain")).unwrap();
    assert_eq!(bare.working_dir, "/p/.");
}

#[test]
fn environment_layers_later_wins() {
    let env = Env::new().with(&vec![s("a.env")], &vec![(s("A"), s("1"))]).with(
        &vec![s("b.env"), s("c.env")],
        &vec![(s("B"), s("2"))],
    );
    let loaded = vec![
        vec![vec![(s("A"), s("0")), (s("X"), s("f"))]],
        vec![vec![(s("B"), s("f"))], vec![]],
    ];
    assert_eq!(env.load(&loaded), vec![(s("A"), s("1")), (s("X"), s("f")), (s("B"), s("2"))]);
    let none = Env { configs: vec![EnvConfig { env_files: vec![], env: vec![(s("K"), s("v"))] }] };
    assert_eq!(none.load(&vec![vec![]]), vec![(s("K"), s("v"))]);
}

#[test]
fn split_undoes_qualify() {
    let full = Task::qualified_name("web", "serve");
    assert_eq!(full, "web#serve");
    assert_eq!(Task::split_name(&full), (Some("web"), "serve"));
    let root = Task::qualified_name("", "build");
    assert_eq!(Task::split_name(&root), (Some(""), "build"));
    // A name that already names its project is kept
    assert_eq!(Task::qualified_name("web", "api#run"), "api#run");
}

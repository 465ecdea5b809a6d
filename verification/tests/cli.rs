use firepit::cli::{dependency_tasks, override_root, quit_on_done};
use firepit::config::{LogConfig, ShellConfig, UI};
use firepit::project_config::ProjectConfig;
use firepit::cli::{parse_tasks_or_vars, split_once_eq, strip_matching_quotes, Args};
use serde_json::Value;

fn get<'a>(vars: &'a [(String, Value)], name: &str) -> Option<&'a Value> {
    vars.iter().find(|(k, _)| k == name).map(|(_, v)| v)
}

#[test]
fn parse_tasks_and_vars_handles_strings_and_json() {
    let inputs = vec![
        "build".to_string(),
        "count=10".to_string(),
        r#"quoted="foo=bar""#.to_string(),
        "raw=foo=bar".to_string(),
        r#"single='baz=qux'"#.to_string(),
        "flag=true".to_string(),
    ];

    let (tasks, vars) = parse_tasks_or_vars(&inputs);

    assert_eq!(tasks, vec!["build".to_string()]);
    assert_eq!(get(&vars, "count"), Some(&Value::from(10)));
    assert_eq!(get(&vars, "quoted"), Some(&Value::from("foo=bar")));
    assert_eq!(get(&vars, "raw"), Some(&Value::from("foo=bar")));
    assert_eq!(get(&vars, "single"), Some(&Value::from("baz=qux")));
    assert_eq!(get(&vars, "flag"), Some(&Value::Bool(true)));
}

#[test]
fn a_repeated_variable_keeps_its_place_and_last_value() {
    let inputs = vec!["a=1".to_string(), "b=2".to_string(), "a=3".to_string(), "t".to_string()];
    let (tasks, vars) = parse_tasks_or_vars(&inputs);
    assert_eq!(tasks, vec!["t".to_string()]);
    assert_eq!(vars.len(), 2);
    assert_eq!(vars[0].0, "a");
    assert_eq!(vars[0].1, Value::from(3));
    assert_eq!(vars[1].0, "b");
}

#[test]
fn strips_only_matching_quotes() {
    assert_eq!(strip_matching_quotes("\"x\""), Some("x".to_string()));
    assert_eq!(strip_matching_quotes("'x'"), Some("x".to_string()));
    assert_eq!(strip_matching_quotes("''"), Some("".to_string()));
    assert_eq!(strip_matching_quotes("'x\""), None);
    assert_eq!(strip_matching_quotes("'"), None);
    assert_eq!(strip_matching_quotes("x"), None);
}

#[test]
fn splits_at_the_first_equal_sign() {
    assert_eq!(split_once_eq("a=b=c"), Some(("a".to_string(), "b=c".to_string())));
    assert_eq!(split_once_eq("=x"), Some(("".to_string(), "x".to_string())));
    assert_eq!(split_once_eq("abc"), None);
}

fn args(ff: bool, no_ff: bool) -> Args {
    Args {
        tasks_or_vars: Vec::new(),
        dir: ".".to_string(),
        watch: false,
        force: false,
        _fail_fast: ff,
        _no_fail_fast: no_ff,
        log_file: None,
        log_level: None,
        gantt_file: None,
        tui: false,
        cui: false,
        tokio_console: false,
    }
}

#[test]
fn fail_fast_follows_the_flags() {
    assert_eq!(args(true, false).fail_fast(), Some(true));
    assert_eq!(args(false, true).fail_fast(), Some(false));
    assert_eq!(args(false, false).fail_fast(), None);
    assert_eq!(args(true, true).fail_fast(), Some(true));
}

#[test]
fn command_line_options_override_the_root_project() {
    let mut root = ProjectConfig {
        name: String::new(),
        projects: vec![],
        shell: ShellConfig { command: "bash".to_string(), args: vec!["-c".to_string()] },
        working_dir: ".".to_string(),
        vars: vec![],
        env: vec![],
        env_files: vec![],
        depends_on: vec![],
        defaults: vec![],
        tasks: vec![],
        concurrency: 2,
        log: LogConfig { level: "info".to_string(), file: Some("a.log".to_string()) },
        gantt_file: None,
        ui: UI::Tui,
        includes: vec![],
        path: "/p/firepit.yml".to_string(),
        dir: "/p".to_string(),
    };
    let mut a = args(false, false);
    a.log_level = Some("debug".to_string());
    a.gantt_file = Some("g.svg".to_string());
    a.cui = true;
    override_root(&mut root, &a);
    assert_eq!(root.log.level, "debug");
    assert_eq!(root.log.file.as_deref(), Some("a.log"));
    assert_eq!(root.gantt_file.as_deref(), Some("g.svg"));
    assert_eq!(root.ui, UI::Cui);
    assert!(quit_on_done(false, UI::Cui));
    assert!(!quit_on_done(true, UI::Cui));
    assert!(!quit_on_done(false, UI::Tui));
    let deps = dependency_tasks(&vec!["#a".to_string(), "#b".to_string(), "#c".to_string()], &vec!["#b".to_string()]);
    assert_eq!(deps, vec!["#a".to_string(), "#c".to_string()]);
}

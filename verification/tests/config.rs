use firepit::config::{
    default_healthcheck_interval, default_healthcheck_retries, default_healthcheck_start_period,
    default_healthcheck_timeout, default_log, default_log_healthcheck_timeout, default_shell, default_stop_timeout,
    default_working_dir,
};

#[test]
fn defaults() {
    let shell = default_shell();
    assert_eq!(shell.command, "bash");
    assert_eq!(shell.args, vec!["-c".to_string()]);
    assert_eq!(default_working_dir(), ".");
    let log = default_log();
    assert_eq!(log.level, "info");
    assert!(log.file.is_none());
    assert_eq!(default_log_healthcheck_timeout(), 20);
    assert_eq!(default_healthcheck_interval(), 5);
    assert_eq!(default_healthcheck_timeout(), 5);
    assert_eq!(default_healthcheck_retries(), 3);
    assert_eq!(default_healthcheck_start_period(), 0);
    assert_eq!(default_stop_timeout(), 10);
}

use firepit::config::Pattern;
use firepit::probe::{log_line_matches, logged_output, ExecProbeTries, OutputCollector, ProbeDecision, TryOutcome};

#[test]
fn test_logged_output() {
    let mut collector = OutputCollector::new();
    assert_eq!(logged_output(&collector.take_output()), "");

    collector.write(b"connection refused\n");
    assert_eq!(logged_output(&collector.take_output()), "\nconnection refused");

    // Reading the output empties it, so the next try starts clean
    assert_eq!(logged_output(&collector.take_output()), "");

    collector.write(b"first\nsecond\n\n");
    assert_eq!(logged_output(&collector.take_output()), "\nfirst\nsecond");
}

#[test]
fn white_space_alone_logs_nothing() {
    assert_eq!(logged_output(" \t\n\r\n"), "");
    assert_eq!(logged_output("  indented  \n"), "\n  indented");
}

#[test]
fn collector_keeps_bytes_in_order_and_replaces_invalid_ones() {
    let mut collector = OutputCollector::new();
    assert_eq!(collector.write(b"ab"), 2);
    assert_eq!(collector.write(&[0xff, b'c']), 2);
    assert_eq!(collector.take_output(), "ab\u{FFFD}c");
    assert_eq!(collector.take_output(), "");
}

#[test]
fn log_line_probe_matches_lines() {
    let pattern = Pattern::new("test").unwrap();
    assert!(!log_line_matches(&pattern, b"aaaa"));
    assert!(log_line_matches(&pattern, b"testtest"));
    // One bad byte does not keep the line from matching
    assert!(log_line_matches(&pattern, &[0xff, b't', b'e', b's', b't']));
}

#[test]
fn exec_probe_succeeds_on_the_first_good_try() {
    let mut tries = ExecProbeTries::new(3, 0);
    assert_eq!(tries.record(TryOutcome::Succeeded, 0), ProbeDecision::Ready);
    assert_eq!(tries.tries, 1);
    assert_eq!(tries.retries, 0);
}

#[test]
fn exec_probe_gives_up_after_its_retries() {
    let mut tries = ExecProbeTries::new(2, 0);
    assert_eq!(tries.record(TryOutcome::Failed, 0), ProbeDecision::Retry);
    assert_eq!(tries.record(TryOutcome::Failed, 1), ProbeDecision::Retry);
    assert_eq!(tries.retries, 2);
    assert_eq!(tries.record(TryOutcome::Failed, 2), ProbeDecision::GiveUp);
    assert_eq!(tries.tries, 3);
}

#[test]
fn exec_probe_failures_in_the_start_period_do_not_count() {
    let mut tries = ExecProbeTries::new(1, 10);
    assert_eq!(tries.record(TryOutcome::Failed, 3), ProbeDecision::Retry);
    assert_eq!(tries.record(TryOutcome::Failed, 6), ProbeDecision::Retry);
    assert_eq!(tries.retries, 0);
    assert_eq!(tries.record(TryOutcome::Failed, 10), ProbeDecision::Retry);
    assert_eq!(tries.retries, 1);
    assert_eq!(tries.record(TryOutcome::Failed, 12), ProbeDecision::GiveUp);
}

#[test]
fn exec_probe_without_retries_gives_up_at_once() {
    let mut tries = ExecProbeTries::new(0, 0);
    assert_eq!(tries.record(TryOutcome::Failed, 0), ProbeDecision::GiveUp);
}

use firepit::log::{LogLevel, LogRecord};

fn record(level: LogLevel, message: &str) -> LogRecord {
    LogRecord { task: None, level, module: "firepit::probe".to_string(), message: message.to_string() }
}

#[test]
fn each_line_opens_with_level_and_module() {
    assert_eq!(
        record(LogLevel::Info, "started\nready").lines(),
        vec!["INFO firepit::probe: started".to_string(), "INFO firepit::probe: ready".to_string()]
    );
    assert_eq!(record(LogLevel::Warn, "one").lines(), vec!["WARN firepit::probe: one".to_string()]);
}

#[test]
fn line_endings_follow_str_lines() {
    let lines = record(LogLevel::Error, "a\r\nb\n\nc\r").lines();
    assert_eq!(
        lines,
        vec![
            "ERROR firepit::probe: a".to_string(),
            "ERROR firepit::probe: b".to_string(),
            "ERROR firepit::probe: ".to_string(),
            "ERROR firepit::probe: c\r".to_string(),
        ]
    );
    assert_eq!(record(LogLevel::Debug, "x\n").lines(), vec!["DEBUG firepit::probe: x".to_string()]);
    assert!(record(LogLevel::Trace, "").lines().is_empty());
    assert_eq!(record(LogLevel::Trace, "\n").lines(), vec!["TRACE firepit::probe: ".to_string()]);
    // The same as `str::lines`
    let msg = "p\r\nq\n\r\n\rr";
    let expected: Vec<String> = msg.lines().map(|l| format!("INFO firepit::probe: {}", l)).collect();
    assert_eq!(record(LogLevel::Info, msg).lines(), expected);
}

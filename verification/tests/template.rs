use firepit::template::{
    quote_filter, DynamicVarCache, DynamicVarKey, Json, QuoteFilterError, DYNAMIC_VAR_HINT_THRESHOLD_NANOS,
};

fn key(command: &str) -> DynamicVarKey {
    DynamicVarKey {
        shell_command: String::from("sh"),
        shell_args: vec![String::from("-c")],
        command: String::from(command),
        env: Vec::new(),
    }
}

#[test]
fn test_uncached_hints() {
    let mut cache = DynamicVarCache::new();
    let long = DYNAMIC_VAR_HINT_THRESHOLD_NANOS;

    // Ran once: caching it would save nothing, however slow it is
    cache.record_run(&key("once"), "once", long);
    // Ran twice but fast: not worth bothering the user about
    cache.record_run(&key("fast"), "fast", 0);
    cache.record_run(&key("fast"), "fast", 0);
    // Ran twice and slow in total, even though neither run reaches the threshold alone
    cache.record_run(&key("slow"), "slow", long / 2);
    cache.record_run(&key("slow"), "slow", long / 2);
    // Two variables sharing a command are counted apart, so neither reaches two runs and the
    // report cannot blame one of them for the other's execution
    cache.record_run(&key("shared"), "twin-a", long);
    cache.record_run(&key("shared"), "twin-b", long);

    let hints = cache.uncached_hints();
    assert_eq!(hints.len(), 1);
    assert_eq!(hints[0].0, "slow");
    assert_eq!(hints[0].1.count, 2);
}

#[test]
fn cache_returns_the_output_of_the_same_command() {
    let mut cache = DynamicVarCache::new();
    assert!(cache.get(&key("date")).is_none());
    cache.insert(key("date"), "monday".to_string());
    cache.insert(key("pwd"), "/tmp".to_string());
    assert_eq!(cache.get(&key("date")).map(|s| s.as_str()), Some("monday"));
    cache.insert(key("date"), "tuesday".to_string());
    assert_eq!(cache.get(&key("date")).map(|s| s.as_str()), Some("tuesday"));
    assert_eq!(cache.get(&key("pwd")).map(|s| s.as_str()), Some("/tmp"));
    let mut other = key("date");
    other.env.push(("TZ".to_string(), "UTC".to_string()));
    assert!(cache.get(&other).is_none());
}

fn s(v: &str) -> Json {
    Json::String(v.to_string())
}

fn quote(value: Json) -> Result<String, QuoteFilterError> {
    quote_filter(&value)
}

#[test]
fn test_quote_scalars() {
    assert_eq!(quote(s("simple")).unwrap(), "simple");
    assert_eq!(quote(s("a b'c")).unwrap(), r#""a b'c""#);
    assert_eq!(quote(s("foo; date")).unwrap(), "'foo; date'");
    assert_eq!(quote(s("line1\nline2")).unwrap(), "'line1\nline2'");
    assert_eq!(quote(s("")).unwrap(), "''");
    assert_eq!(quote(Json::Number("42".to_string())).unwrap(), "42");
    assert_eq!(quote(Json::Bool(true)).unwrap(), "true");
    // Null becomes an empty argument rather than being dropped
    assert_eq!(quote(Json::Null).unwrap(), "''");
}

#[test]
fn test_quote_array() {
    assert_eq!(quote(Json::Array(vec![s("foo"), s("bar baz")])).unwrap(), "foo 'bar baz'");
    assert_eq!(quote(Json::Array(vec![])).unwrap(), "");
}

#[test]
fn test_quote_errors() {
    // A nul byte cannot be represented as a shell argument
    assert!(quote(s("a\0b")).is_err());
    // Maps and nested collections have no single-argument representation
    assert!(quote(Json::Object(vec![("a".to_string(), Json::Number("1".to_string()))])).is_err());
    assert!(quote(Json::Array(vec![Json::Array(vec![s("nested")])])).is_err());
}

#[test]
fn quote_errors_tell_why() {
    assert_eq!(quote(s("a\0b")), Err(QuoteFilterError::Nul));
    assert_eq!(quote(Json::Array(vec![s("x"), s("\0")])), Err(QuoteFilterError::Nul));
    assert_eq!(quote(Json::Object(vec![])), Err(QuoteFilterError::NotScalar));
}

use firepit::yaml::{merge_yaml, Yaml};

fn st(s: &str) -> Yaml {
    Yaml::String(s.to_string())
}

fn map(entries: Vec<(&str, Yaml)>) -> Yaml {
    Yaml::Mapping(entries.into_iter().map(|(k, v)| (st(k), v)).collect())
}

fn merge_yaml_mappings(overwrite: bool) {
    let mut a = map(vec![("key1", st("value1")), ("key2", map(vec![("nested_key1", st("nested_value1"))]))]);
    let b = map(vec![("key2", map(vec![("nested_key2", st("nested_value2"))])), ("key3", st("value3"))]);
    merge_yaml(&mut a, &b, overwrite);
    let expected = map(vec![
        ("key1", st("value1")),
        ("key2", map(vec![("nested_key1", st("nested_value1")), ("nested_key2", st("nested_value2"))])),
        ("key3", st("value3")),
    ]);
    assert_eq!(a, expected);
}

#[test]
fn test_merge_yaml_mappings() {
    merge_yaml_mappings(true);
    merge_yaml_mappings(false);
}

#[test]
fn test_merge_yaml_sequences() {
    for overwrite in [true, false] {
        let mut a = Yaml::Sequence(vec![st("value1"), st("value2")]);
        let b = Yaml::Sequence(vec![st("value3"), st("value4")]);
        merge_yaml(&mut a, &b, overwrite);
        assert_eq!(a, Yaml::Sequence(vec![st("value1"), st("value2"), st("value3"), st("value4")]));
    }
}

#[test]
fn test_merge_yaml_overwrite() {
    for overwrite in [true, false] {
        let mut a = map(vec![("key", st("old_value"))]);
        let b = map(vec![("key", st("new_value"))]);
        merge_yaml(&mut a, &b, overwrite);
        let expected = if overwrite { map(vec![("key", st("new_value"))]) } else { map(vec![("key", st("old_value"))]) };
        assert_eq!(a, expected);
    }
}

#[test]
fn test_merge_yaml_empty_a() {
    for overwrite in [true, false] {
        let mut a = Yaml::Null;
        let b = map(vec![("key", st("value"))]);
        merge_yaml(&mut a, &b, overwrite);
        assert_eq!(a, map(vec![("key", st("value"))]));
    }
}

#[test]
fn test_merge_yaml_empty_b() {
    for overwrite in [true, false] {
        let mut a = map(vec![("key", st("value"))]);
        merge_yaml(&mut a, &Yaml::Null, overwrite);
        assert_eq!(a, map(vec![("key", st("value"))]));
    }
}

#[test]
fn tagged_null_changes_nothing_and_kinds_that_differ_are_replaced() {
    let mut a = map(vec![("key", st("value"))]);
    merge_yaml(&mut a, &Yaml::Tagged("!x".to_string(), Box::new(Yaml::Null)), true);
    assert_eq!(a, map(vec![("key", st("value"))]));

    let mut s = Yaml::Sequence(vec![st("x")]);
    merge_yaml(&mut s, &map(vec![("k", Yaml::Bool(true))]), false);
    assert_eq!(s, Yaml::Sequence(vec![st("x")]));
    merge_yaml(&mut s, &map(vec![("k", Yaml::Bool(true))]), true);
    assert_eq!(s, map(vec![("k", Yaml::Bool(true))]));
}

#[test]
fn keys_compare_by_value() {
    let mut a = Yaml::Mapping(vec![(Yaml::Number("1".to_string()), st("one"))]);
    let b = Yaml::Mapping(vec![
        (Yaml::Number("1".to_string()), st("uno")),
        (st("1"), st("text")),
    ]);
    merge_yaml(&mut a, &b, true);
    assert_eq!(
        a,
        Yaml::Mapping(vec![(Yaml::Number("1".to_string()), st("uno")), (st("1"), st("text"))])
    );
    assert!(a.same(&a.copy()));
    assert!(!a.same(&Yaml::Null));
}

use kwait::matcher::match_state;
use kwait::value::{find_key, numbers_equal, tags_equal, values_equal, Number, Value};

fn s(x: &str) -> Value {
    Value::String(x.to_string())
}

fn n(x: u64) -> Value {
    Value::Number(Number::PosInt(x))
}

fn map(entries: Vec<(&str, Value)>) -> Value {
    Value::Mapping(entries.into_iter().map(|(k, v)| (s(k), v)).collect())
}

#[test]
fn empty_filter_matches_any_mapping() {
    let filter = map(vec![]);
    assert!(match_state(&filter, &map(vec![])));
    assert!(match_state(&filter, &map(vec![("a", n(1)), ("b", n(2))])));
}

#[test]
fn mapping_subset_matches() {
    let filter = map(vec![("a", n(1))]);
    assert!(match_state(&filter, &map(vec![("a", n(1)), ("b", n(2))])));
}

#[test]
fn mapping_missing_key_fails() {
    let filter = map(vec![("a", n(1))]);
    assert!(!match_state(&filter, &map(vec![("b", n(2))])));
}

#[test]
fn mapping_different_value_fails() {
    let filter = map(vec![("a", n(2))]);
    assert!(!match_state(&filter, &map(vec![("a", n(1))])));
}

#[test]
fn sequence_single_pattern_matches() {
    let filter = Value::Sequence(vec![map(vec![("x", n(1))])]);
    let doc = Value::Sequence(vec![map(vec![("x", n(1)), ("y", n(2))])]);
    assert!(match_state(&filter, &doc));
}

#[test]
fn sequence_every_pattern_must_match_every_element() {
    let filter = Value::Sequence(vec![map(vec![("x", n(1))]), map(vec![("z", n(9))])]);
    let doc = Value::Sequence(vec![map(vec![("x", n(1)), ("y", n(2))])]);
    assert!(!match_state(&filter, &doc));
}

#[test]
fn sequence_pattern_against_two_elements() {
    let filter = Value::Sequence(vec![map(vec![("x", n(1))])]);
    let doc = Value::Sequence(vec![
        map(vec![("x", n(1)), ("y", n(2))]),
        map(vec![("x", n(1))]),
    ]);
    assert!(match_state(&filter, &doc));
    let doc2 = Value::Sequence(vec![map(vec![("x", n(1))]), map(vec![("x", n(2))])]);
    assert!(!match_state(&filter, &doc2));
}

#[test]
fn nested_mapping_matches() {
    let filter = map(vec![("status", map(vec![("phase", s("Running"))]))]);
    let doc = map(vec![
        ("kind", s("Pod")),
        ("status", map(vec![("phase", s("Running")), ("ready", Value::Bool(true))])),
    ]);
    assert!(match_state(&filter, &doc));
    let pending = map(vec![("status", map(vec![("phase", s("Pending"))]))]);
    assert!(!match_state(&filter, &pending));
}

#[test]
fn scalar_kinds_compare_by_equality() {
    assert!(match_state(&s("a"), &s("a")));
    assert!(!match_state(&s("1"), &n(1)));
    assert!(!match_state(&map(vec![]), &Value::Sequence(vec![])));
    assert!(match_state(&Value::Null, &Value::Null));
    assert!(!match_state(&Value::Bool(true), &Value::Bool(false)));
}

#[test]
fn numbers_compare_as_yaml_does() {
    let pos_zero = Number::Float(0.0f64.to_bits());
    let neg_zero = Number::Float((-0.0f64).to_bits());
    assert!(numbers_equal(&pos_zero, &neg_zero));
    let nan_a = Number::Float(f64::NAN.to_bits());
    let nan_b = Number::Float(f64::NAN.to_bits() | 1);
    assert!(numbers_equal(&nan_a, &nan_b));
    assert!(!numbers_equal(&nan_a, &pos_zero));
    assert!(numbers_equal(&Number::Float(1.5f64.to_bits()), &Number::Float(1.5f64.to_bits())));
    assert!(!numbers_equal(&Number::Float(1.5f64.to_bits()), &Number::Float(2.5f64.to_bits())));
    assert!(!numbers_equal(&Number::PosInt(1), &Number::NegInt(1)));
    assert!(numbers_equal(&Number::NegInt(-3), &Number::NegInt(-3)));
}

#[test]
fn tags_ignore_one_leading_bang() {
    assert!(tags_equal(&"!foo".to_string(), &"foo".to_string()));
    assert!(tags_equal(&"!foo".to_string(), &"!foo".to_string()));
    assert!(!tags_equal(&"!".to_string(), &"".to_string()));
    assert!(!tags_equal(&"!!foo".to_string(), &"foo".to_string()));
    assert!(!tags_equal(&"foo".to_string(), &"bar".to_string()));
}

#[test]
fn mapping_equality_ignores_order() {
    let a = map(vec![("a", n(1)), ("b", n(2))]);
    let b = map(vec![("b", n(2)), ("a", n(1))]);
    assert!(values_equal(&a, &b));
    let c = map(vec![("b", n(2)), ("a", n(3))]);
    assert!(!values_equal(&a, &c));
    let d = map(vec![("a", n(1))]);
    assert!(!values_equal(&a, &d));
}

#[test]
fn tagged_values_compare_tag_and_content() {
    let a = Value::Tagged("!x".to_string(), Box::new(map(vec![("a", n(1)), ("b", n(2))])));
    let b = Value::Tagged("x".to_string(), Box::new(map(vec![("b", n(2)), ("a", n(1))])));
    assert!(match_state(&a, &b));
    let c = Value::Tagged("y".to_string(), Box::new(map(vec![("a", n(1)), ("b", n(2))])));
    assert!(!match_state(&a, &c));
}

#[test]
fn find_key_returns_first_equal_key() {
    let entries = vec![(s("a"), n(1)), (s("b"), n(2)), (s("b"), n(3))];
    assert_eq!(find_key(&entries, &s("b")), Some(1));
    assert_eq!(find_key(&entries, &s("c")), None);
}

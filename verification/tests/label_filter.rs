use robotlb::cluster::StringMap;
use robotlb::error::LBTrackerError;
use robotlb::label_filter::LabelFilter;

fn labels(pairs: &[(&str, &str)]) -> StringMap {
    let mut map = StringMap::new();
    for (key, value) in pairs {
        map.insert(key.to_string(), value.to_string());
    }
    map
}

#[test]
fn equal_rule_needs_the_value() {
    let filter = LabelFilter::from_str("role=worker").unwrap();
    assert!(filter.check(&labels(&[("role", "worker")])));
    assert!(!filter.check(&labels(&[("role", "control")])));
    assert!(!filter.check(&labels(&[])));
}

#[test]
fn not_equal_rule_passes_absent_label() {
    let filter = LabelFilter::from_str("role!=worker").unwrap();
    assert!(!filter.check(&labels(&[("role", "worker")])));
    assert!(filter.check(&labels(&[("role", "control")])));
    assert!(filter.check(&labels(&[])));
}

#[test]
fn exists_and_does_not_exist() {
    let filter = LabelFilter::from_str("gpu,!spot").unwrap();
    assert!(filter.check(&labels(&[("gpu", "")])));
    assert!(!filter.check(&labels(&[("gpu", "a100"), ("spot", "true")])));
    assert!(!filter.check(&labels(&[])));
}

#[test]
fn all_clauses_have_to_hold() {
    let filter = LabelFilter::from_str("zone=a,role!=control,gpu,!spot").unwrap();
    assert!(filter.check(&labels(&[("zone", "a"), ("gpu", "1"), ("role", "worker")])));
    assert!(!filter.check(&labels(&[("zone", "b"), ("gpu", "1")])));
    assert!(!filter.check(&labels(&[("zone", "a"), ("gpu", "1"), ("role", "control")])));
    assert!(!filter.check(&labels(&[("zone", "a")])));
}

#[test]
fn filter_without_rules_passes_everything() {
    let filter = LabelFilter::default();
    assert!(filter.check(&labels(&[])));
    assert!(filter.check(&labels(&[("any", "thing")])));
}

#[test]
fn empty_text_asks_for_the_empty_key() {
    let filter = LabelFilter::from_str("").unwrap();
    assert!(!filter.check(&labels(&[("a", "b")])));
    assert!(filter.check(&labels(&[("", "x")])));
}

#[test]
fn value_with_equals_sign_is_refused() {
    match LabelFilter::from_str("zone=a,key=a=b,other=c=d") {
        Err(LBTrackerError::InvalidNodeFilter(clause)) => assert_eq!(clause, "key=a=b"),
        other => panic!("unexpected: {:?}", other),
    }
}

#[test]
fn later_value_of_a_label_replaces_the_earlier() {
    let mut map = StringMap::new();
    map.insert("zone".to_string(), "a".to_string());
    map.insert("role".to_string(), "worker".to_string());
    map.insert("zone".to_string(), "b".to_string());
    assert_eq!(map.len(), 2);
    assert_eq!(map.get("zone").map(String::as_str), Some("b"));
    assert_eq!(map.get("role").map(String::as_str), Some("worker"));
    assert_eq!(map.get("none"), None);
    assert_eq!(map.entry(0).0, "zone");
}

use batsim::filter::{Filter, Filters, PersonAttributes};
use batsim::kvmap::KvMap;

fn attrs(pairs: &[(&str, &str)]) -> PersonAttributes {
    let mut m: PersonAttributes = KvMap::new();
    for (k, v) in pairs {
        m.insert(k.to_string(), v.to_string());
    }
    m
}

fn filter_a() -> Filter {
    Filter { key: "A".to_string(), values: vec!["A1".to_string(), "A2".to_string()] }
}

fn filter_b() -> Filter {
    Filter { key: "A".to_string(), values: vec!["A3".to_string(), "A4".to_string()] }
}

fn filter_c() -> Filter {
    Filter { key: "B".to_string(), values: vec!["B1".to_string(), "B2".to_string()] }
}

#[test]
fn test_match_attributes() {
    let attributes = attrs(&[("A", "A3")]);
    assert!(!filter_a().match_attributes(&attributes));
    assert!(filter_b().match_attributes(&attributes));
    assert!(!filter_c().match_attributes(&attributes));
}

#[test]
fn test_apply_filters() {
    let filters = Filters::from_vec(vec![filter_a(), filter_c()]);
    let attributes = attrs(&[("A", "A1"), ("B", "B3")]);
    assert!(!filters.filter(&attributes));

    let attributes = attrs(&[("A", "A3"), ("B", "B1")]);
    assert!(!filters.filter(&attributes));

    let attributes = attrs(&[("A", "A1"), ("B", "B1")]);
    assert!(filters.filter(&attributes));
}

#[test]
fn missing_key_never_matches() {
    let attributes = attrs(&[]);
    assert!(!filter_a().match_attributes(&attributes));
}

#[test]
fn empty_filter_list_matches_everything() {
    let filters = Filters::from_vec(vec![]);
    assert!(filters.filter(&attrs(&[])));
}

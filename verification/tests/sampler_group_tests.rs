use batsim::filter::{Filter, Filters, PersonAttributes};
use batsim::group::ConfigGroup;
use batsim::groups::TriggerSpec;
use batsim::kvmap::KvMap;
use batsim::sampler;

#[test]
fn sample_no_seed() {
    let mut rng = sampler::new(None);
    let _n = sampler::draw(&mut rng);
}

#[test]
fn sample_with_seed() {
    let mut rng = sampler::new(Some(1234));
    let _n = sampler::draw(&mut rng);
}

#[test]
fn sample_consistently_with_seed() {
    let mut rng_a = sampler::new(Some(1234));
    let mut rng_b = sampler::new(Some(1234));
    for _ in 0..10 {
        assert_eq!(sampler::draw(&mut rng_a), sampler::draw(&mut rng_b));
    }
}

#[test]
fn draw_is_below_the_probability_denominator() {
    let mut rng = sampler::new(Some(7));
    for _ in 0..100 {
        assert!(sampler::draw(&mut rng) < sampler::DRAW_BOUND);
    }
}

fn spec(name: &str, p: Option<u32>, filters: Option<Filters>) -> TriggerSpec {
    TriggerSpec { name: Some(name.to_string()), trigger: 0, p, filters }
}

fn two_key_filters() -> Filters {
    Filters::from_vec(vec![
        Filter { key: "A".to_string(), values: vec!["A1".to_string(), "A2".to_string()] },
        Filter { key: "B".to_string(), values: vec!["B1".to_string(), "B2".to_string()] },
    ])
}

fn test_config_group() -> ConfigGroup<TriggerSpec> {
    ConfigGroup::from_vec(vec![
        spec("default", None, None),
        spec("A", None, Some(two_key_filters())),
    ])
}

fn test_config_group_with_p() -> ConfigGroup<TriggerSpec> {
    ConfigGroup::from_vec(vec![
        spec("default", None, None),
        spec("A", Some(500_000_000), Some(two_key_filters())),
    ])
}

fn person_empty() -> PersonAttributes {
    KvMap::new()
}

fn person_a() -> PersonAttributes {
    let mut m: PersonAttributes = KvMap::new();
    m.insert("A".to_string(), "A1".to_string());
    m
}

fn person_b() -> PersonAttributes {
    let mut m: PersonAttributes = KvMap::new();
    m.insert("A".to_string(), "A2".to_string());
    m.insert("B".to_string(), "B2".to_string());
    m
}

fn person_c() -> PersonAttributes {
    let mut m: PersonAttributes = KvMap::new();
    m.insert("C".to_string(), "C1".to_string());
    m.insert("A".to_string(), "A1".to_string());
    m
}

#[test]
fn test_find() {
    let mut rng = sampler::new(None);
    let group = test_config_group();
    assert_eq!(group.find(&person_empty(), &mut rng).unwrap().name, Some("default".to_string()));
    assert_eq!(group.find(&person_a(), &mut rng).unwrap().name, Some("default".to_string()));
    assert_eq!(group.find(&person_b(), &mut rng).unwrap().name, Some("A".to_string()));
    assert_eq!(group.find(&person_c(), &mut rng).unwrap().name, Some("default".to_string()));
}

#[test]
fn test_filter() {
    let mut rng = sampler::new(Some(1234));
    let group = test_config_group();
    let names = |attrs: &PersonAttributes, rng: &mut rand::rngs::SmallRng| {
        group.filter(attrs, rng).iter().map(|c| c.name.clone().unwrap()).collect::<Vec<String>>()
    };
    assert_eq!(names(&person_empty(), &mut rng), vec!["default"]);
    assert_eq!(names(&person_a(), &mut rng), vec!["default"]);
    assert_eq!(names(&person_b(), &mut rng), vec!["default", "A"]);
    assert_eq!(names(&person_c(), &mut rng), vec!["default"]);
}

#[test]
fn test_find_with_probs() {
    // Replay the probability gate from explicit draws: a draw below the
    // gated spec's probability accepts it, one at or above rejects it.
    let group = test_config_group_with_p();
    let (hit, used) = group.find_given(&person_b(), &vec![400_000_000, 0]);
    assert_eq!(hit, Some(1));
    assert_eq!(used, 1);
    let (miss, used) = group.find_given(&person_b(), &vec![700_000_000, 0]);
    assert_eq!(miss, Some(0));
    assert_eq!(used, 1);
}

#[test]
fn test_filter_with_probs() {
    // Replay the gates from explicit draws: a draw below the gated spec's
    // probability keeps it in the selection, one at or above drops it.
    let group = test_config_group_with_p();
    let (hit, used) = group.filter_given(&person_b(), &vec![400_000_000, 0]);
    assert_eq!(hit, vec![0, 1]);
    assert_eq!(used, 1);
    let (miss, used) = group.filter_given(&person_b(), &vec![700_000_000, 0]);
    assert_eq!(miss, vec![0]);
    assert_eq!(used, 1);
}

#[test]
fn filter_replays_identically_from_equal_draws() {
    let group = test_config_group_with_p();
    let first = group.filter_given(&person_b(), &vec![123_456_789, 0]);
    let second = group.filter_given(&person_b(), &vec![123_456_789, 0]);
    assert_eq!(first, second);
}

#[test]
fn ungated_spec_is_always_found() {
    let mut rng = sampler::new(Some(99));
    let group = test_config_group_with_p();
    for _ in 0..20 {
        assert!(group.find(&person_b(), &mut rng).is_some());
    }
}

use erdos::config::OperatorConfig;
use erdos::ids::{IdGenerator, Uuid};

#[test]
fn generator_issues_identities_in_sequence() {
    let mut ids = IdGenerator::new();
    assert_eq!(ids.remaining(), u128::MAX);
    let a = ids.next_id();
    let b = Uuid::new_deterministic(&mut ids);
    let c = ids.next_id();
    assert_eq!((a.value, b.value, c.value), (0, 1, 2));
    assert_eq!(ids.remaining(), u128::MAX - 3);
}

#[test]
fn two_generators_issue_the_same_identities() {
    let mut first = IdGenerator::new();
    let mut second = IdGenerator::new();
    for _ in 0..10 {
        assert_eq!(first.next_id(), second.next_id());
    }
}

#[test]
fn text_of_zero_identity() {
    assert_eq!(Uuid::new(0).to_text(), "00000000-0000-0000-0000-000000000000");
}

#[test]
fn text_of_identity_has_canonical_groups() {
    let id = Uuid::new(0x0123_4567_89ab_cdef_0011_2233_4455_6677);
    assert_eq!(id.to_text(), "01234567-89ab-cdef-0011-223344556677");
}

#[test]
fn text_of_largest_identity() {
    assert_eq!(Uuid::new(u128::MAX).to_text(), "ffffffff-ffff-ffff-ffff-ffffffffffff");
}

#[test]
fn text_of_small_identity() {
    assert_eq!(Uuid::new(26).to_text(), "00000000-0000-0000-0000-00000000001a");
}

#[test]
fn new_config_is_unnamed_on_node_zero() {
    let config = OperatorConfig::new();
    assert_eq!(config.name, None);
    assert_eq!(config.id, Uuid::new(0));
    assert_eq!(config.node_id, 0);
    assert_eq!(config.num_workers, None);
    assert_eq!(config.profile_file_name, None);
}

#[test]
fn config_builders_set_one_field_each() {
    let config = OperatorConfig::new().name("mapper").node(3).workers(4).profile_file("trace.json");
    assert_eq!(config.name.as_deref(), Some("mapper"));
    assert_eq!(config.node_id, 3);
    assert_eq!(config.num_workers, Some(4));
    assert_eq!(config.profile_file_name.as_deref(), Some("trace.json"));
    assert_eq!(config.id, Uuid::new(0));
}

#[test]
fn config_name_falls_back_to_identity() {
    let mut config = OperatorConfig::new();
    config.id = Uuid::new(255);
    assert_eq!(config.get_name(), "00000000-0000-0000-0000-0000000000ff");
    let named = config.clone().name("sum");
    assert_eq!(named.get_name(), "sum");
}

#[test]
fn config_clone_keeps_every_field() {
    let config = OperatorConfig::new().name("a").node(2).workers(8).profile_file("p");
    let copy = config.clone();
    assert_eq!(copy.name, config.name);
    assert_eq!(copy.id, config.id);
    assert_eq!(copy.node_id, config.node_id);
    assert_eq!(copy.num_workers, config.num_workers);
    assert_eq!(copy.profile_file_name, config.profile_file_name);
}

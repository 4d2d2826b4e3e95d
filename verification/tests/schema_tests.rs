use libjail::errors::{LibJailError, SchemaFail};
use libjail::schema::{RuleType, SchemaRegistry};

fn leaf(name: &str, code: u8) -> (String, u8) {
    (String::from(name), code)
}

#[test]
fn leaf_names_strip_to_bare_names() {
    let reg = SchemaRegistry::from_leaves(&vec![
        leaf("security.jail.param.allow.mount", 1),
        leaf("security.jail.param.host.hostname", 3),
    ])
    .unwrap();
    assert_eq!(reg.len(), 2);
    assert_eq!(reg.rule_type("allow.mount"), Some(RuleType::Int));
    assert_eq!(reg.rule_type("host.hostname"), Some(RuleType::String));
    assert_eq!(reg.rule_type("security.jail.param.allow.mount"), None);
}

#[test]
fn type_codes_classify() {
    let reg = SchemaRegistry::from_leaves(&vec![
        leaf("security.jail.param.persist", 1),
        leaf("security.jail.param.cpuset.id", 2),
        leaf("security.jail.param.path", 3),
        leaf("security.jail.param.host.hostid", 4),
        leaf("security.jail.param.osreldate", 0),
    ])
    .unwrap();
    assert_eq!(reg.rule_type("persist"), Some(RuleType::Int));
    assert_eq!(reg.rule_type("cpuset.id"), Some(RuleType::Ulong));
    assert_eq!(reg.rule_type("path"), Some(RuleType::String));
    assert_eq!(reg.rule_type("host.hostid"), Some(RuleType::Unknown));
    assert_eq!(reg.rule_type("osreldate"), Some(RuleType::Unknown));
}

#[test]
fn address_parameters_override_their_reported_type() {
    let reg = SchemaRegistry::from_leaves(&vec![
        leaf("security.jail.param.ip4.addr", 4),
        leaf("security.jail.param.ip6.addr", 3),
    ])
    .unwrap();
    assert_eq!(reg.rule_type("ip4.addr"), Some(RuleType::Ip4));
    assert_eq!(reg.rule_type("ip6.addr"), Some(RuleType::Ip6));
}

#[test]
fn a_repeated_leaf_keeps_the_later_classification() {
    let reg = SchemaRegistry::from_leaves(&vec![
        leaf("security.jail.param.persist", 1),
        leaf("security.jail.param.persist", 3),
    ])
    .unwrap();
    assert_eq!(reg.len(), 1);
    assert_eq!(reg.rule_type("persist"), Some(RuleType::String));
}

#[test]
fn names_are_bare_and_unique() {
    let reg = SchemaRegistry::from_leaves(&vec![
        leaf("security.jail.param.ip4.addr", 4),
        leaf("security.jail.param.persist", 1),
        leaf("security.jail.param.persist", 1),
    ])
    .unwrap();
    let names = reg.names();
    assert_eq!(names, vec![String::from("ip4.addr"), String::from("persist")]);
}

#[test]
fn a_leaf_outside_the_prefix_keeps_its_full_name() {
    let reg = SchemaRegistry::from_leaves(&vec![leaf("kern.ostype", 3)]).unwrap();
    assert_eq!(reg.rule_type("kern.ostype"), Some(RuleType::String));
}

#[test]
fn the_bare_prefix_itself_is_malformed() {
    let r = SchemaRegistry::from_leaves(&vec![leaf("security.jail.param", 1)]);
    match r {
        Err(LibJailError::SchemaError(SchemaFail::MalformedName)) => {}
        other => panic!("expected a malformed-name failure, got {:?}", other),
    }
}

#[test]
fn surrounding_dots_are_trimmed() {
    let reg =
        SchemaRegistry::from_leaves(&vec![leaf("security.jail.param.devfs_ruleset.", 1)]).unwrap();
    assert_eq!(reg.rule_type("devfs_ruleset"), Some(RuleType::Int));
}

#[test]
fn discovery_without_a_jail_tree_fails() {
    match SchemaRegistry::discover() {
        Err(LibJailError::SchemaError(_)) => {}
        Ok(_) => panic!("no jail parameter tree should be discoverable here"),
        other => panic!("expected a schema failure, got {:?}", other),
    }
}

#[test]
fn empty_leaf_list_builds_an_empty_registry() {
    let reg = SchemaRegistry::from_leaves(&vec![]).unwrap();
    assert_eq!(reg.len(), 0);
    assert!(reg.names().is_empty());
    assert_eq!(reg.rule_type("anything"), None);
}

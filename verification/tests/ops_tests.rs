use libjail::errors::{ConvertError, LibJailError, SchemaFail};
use libjail::ops::{
    add_index, finish_get, interpret_get_result, interpret_set_result, interpret_status_result,
    prepare_all_request, Action, Index, Modifier,
};
use libjail::params::{encode, ParameterSet};
use libjail::resolve::{plan_request, LeafInfo};
use libjail::schema::SchemaRegistry;
use libjail::value::{Ip4Addr, OutVal, Val};

#[test]
fn action_flags_compose_as_bit_union() {
    assert_eq!(Action::create().flags(), 1);
    assert_eq!(Action::update().flags(), 2);
    assert_eq!(Action::create().combine(Action::update()).flags(), 3);
    assert_eq!(Action::create().with(Modifier::attach()).flags(), 5);
    assert_eq!(Action::create().combine(Action::update()).with(Modifier::attach()).flags(), 7);
}

#[test]
fn index_from_conversions() {
    match Index::from(7) {
        Index::Jid(7) => {}
        other => panic!("expected a numeric index, got {:?}", other),
    }
    match Index::from(String::from("demo")) {
        Index::Name(n) => assert_eq!(n, "demo"),
        other => panic!("expected a by-name index, got {:?}", other),
    }
}

#[test]
fn add_index_merges_the_jid_entry() {
    let mut ps = ParameterSet::new();
    add_index(&mut ps, &Index::Jid(3)).unwrap();
    assert_eq!(ps.get(&Val::from_text("jid").unwrap()).unwrap(), &Val::I32(3));
}

#[test]
fn add_index_merges_the_name_entry() {
    let mut ps = ParameterSet::new();
    add_index(&mut ps, &Index::Name(String::from("demo"))).unwrap();
    assert_eq!(
        ps.get(&Val::from_text("name").unwrap()).unwrap(),
        &Val::from_text("demo").unwrap()
    );
}

#[test]
fn add_index_rejects_a_name_with_a_nul() {
    let mut ps = ParameterSet::new();
    let r = add_index(&mut ps, &Index::Name(String::from("de\0mo")));
    match r {
        Err(LibJailError::ConvertError(ConvertError::NulError)) => {}
        other => panic!("expected a NUL failure, got {:?}", other),
    }
    assert_eq!(ps.len(), 0);
}

#[test]
fn a_positive_write_result_is_the_container_id() {
    assert_eq!(interpret_set_result(42, 0, String::new()).unwrap(), 42);
}

#[test]
fn a_failed_write_surfaces_the_os_error() {
    let r = interpret_set_result(-1, 13, String::from("Permission denied"));
    match r {
        Err(LibJailError::ExternalError { code, message }) => {
            assert_eq!(code, 13);
            assert_eq!(message, "Permission denied");
            assert!(code != 0 && !message.is_empty());
        }
        other => panic!("expected an external error, got {:?}", other),
    }
    assert!(interpret_set_result(0, 1, String::from("x")).is_err());
}

#[test]
fn attach_to_a_nonexistent_container_reports_not_panics() {
    let r = interpret_status_result(-1, 2, String::from("No such process"));
    match r {
        Err(LibJailError::ExternalError { code, message }) => {
            assert_eq!(code, 2);
            assert_eq!(message, "No such process");
        }
        other => panic!("expected an external error, got {:?}", other),
    }
    assert!(interpret_status_result(0, 0, String::new()).is_ok());
}

#[test]
fn a_fetch_result_is_success_iff_non_negative() {
    assert!(interpret_get_result(0, 0, String::new()).is_ok());
    assert!(interpret_get_result(5, 0, String::new()).is_ok());
    assert!(interpret_get_result(-1, 9, String::from("Bad file descriptor")).is_err());
}

#[test]
fn a_simulated_fetch_decodes_name_address_and_jid() {
    let mut ps = plan_request(&vec![
        (String::from("name"), Ok(LeafInfo::Str(String::from("8")))),
        (String::from("ip4.addr"), Ok::<LeafInfo, SchemaFail>(LeafInfo::Other)),
    ])
    .unwrap();
    add_index(&mut ps, &Index::Jid(0)).unwrap();
    let regions = encode(&ps);
    assert_eq!(regions.len(), 6);
    assert_eq!(regions[0].bytes, b"name\0".to_vec());
    assert_eq!(regions[2].bytes, b"ip4.addr\0".to_vec());
    assert_eq!(regions[4].bytes, b"jid\0".to_vec());

    // What the kernel would write back into the three value regions:
    // the name text, the address in network byte order, the real jid.
    let new_bytes = vec![
        vec![b'd', b'e', b'm', b'o', 0, 0, 0, 0],
        vec![127, 0, 0, 2],
        vec![9, 0, 0, 0],
    ];
    let out = finish_get(&ps, 0, 0, String::new(), &new_bytes).unwrap();
    assert_eq!(out.len(), 3);
    assert_eq!(out[0], (String::from("name"), OutVal::String(String::from("demo"))));
    assert_eq!(out[1], (String::from("ip4.addr"), OutVal::Ip4(Ip4Addr::from_octets(127, 0, 0, 2))));
    assert_eq!(out[2], (String::from("jid"), OutVal::I32(9)));
}

#[test]
fn a_failed_fetch_surfaces_the_os_error() {
    let mut ps = ParameterSet::new();
    add_index(&mut ps, &Index::Jid(1)).unwrap();
    let r = finish_get(&ps, -1, 3, String::from("No such file or directory"), &vec![]);
    match r {
        Err(LibJailError::ExternalError { code, message }) => {
            assert_eq!(code, 3);
            assert_eq!(message, "No such file or directory");
        }
        other => panic!("expected an external error, got {:?}", other),
    }
}

#[test]
fn a_fetch_with_misshapen_buffers_fails() {
    let mut ps = ParameterSet::new();
    add_index(&mut ps, &Index::Jid(1)).unwrap();
    let r = finish_get(&ps, 0, 0, String::new(), &vec![vec![1, 2]]);
    assert!(matches!(r, Err(LibJailError::MismatchCtlValue)));
}

#[test]
fn a_create_request_encodes_all_its_pairs() {
    let mut rules = ParameterSet::new();
    rules.insert(Val::from_text("name").unwrap(), Val::from_text("demo").unwrap());
    rules.insert(Val::from_text("path").unwrap(), Val::from_text("/jails/demo").unwrap());
    rules.insert(Val::from_text("ip4.addr").unwrap(), Val::from_text("127.0.0.2").unwrap());
    rules.insert(Val::from_text("persist").unwrap(), Val::Bool(true));
    let regions = encode(&rules);
    assert_eq!(regions.len(), 8);
    assert_eq!(regions[0].bytes, b"name\0".to_vec());
    assert_eq!(regions[1].bytes, b"demo\0".to_vec());
    assert_eq!(regions[4].bytes, b"ip4.addr\0".to_vec());
    assert_eq!(regions[5].bytes, b"127.0.0.2\0".to_vec());
    assert_eq!(regions[7].bytes, vec![1]);
    assert_eq!(Action::create().flags(), 1);
}

#[test]
fn an_all_names_request_asks_each_registry_name_once() {
    let reg = SchemaRegistry::from_leaves(&vec![
        (String::from("security.jail.param.ip4.addr"), 4u8),
        (String::from("security.jail.param.ip6.addr"), 4u8),
        (String::from("security.jail.param.ip4"), 1u8),
    ])
    .unwrap();
    let ps = prepare_all_request(&reg, &Index::Jid(1)).unwrap();
    // Three registry names, each requested exactly once, plus the index.
    assert_eq!(ps.len(), 4);
    assert_eq!(ps.get(&Val::from_text("ip4.addr").unwrap()).unwrap(), &Val::Ip4(0));
    assert_eq!(ps.get(&Val::from_text("ip6.addr").unwrap()).unwrap(), &Val::Ip6(0));
    assert_eq!(ps.get(&Val::from_text("ip4").unwrap()).unwrap(), &Val::I32(0));
    assert_eq!(ps.get(&Val::from_text("jid").unwrap()).unwrap(), &Val::I32(1));
}

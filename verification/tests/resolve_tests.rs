use libjail::errors::{ConvertError, LibJailError, SchemaFail};
use libjail::resolve::{get_val_by_key, get_val_by_type, plan_request, LeafInfo};
use libjail::value::Val;

fn pair(name: &str, lookup: Result<LeafInfo, SchemaFail>) -> (String, Result<LeafInfo, SchemaFail>) {
    (String::from(name), lookup)
}

#[test]
fn builtin_overrides_resolve_without_the_schema() {
    assert_eq!(get_val_by_key("ip4.addr"), Some(Val::Ip4(0)));
    assert_eq!(get_val_by_key("ip6.addr"), Some(Val::Ip6(0)));
    assert_eq!(get_val_by_key("ip4"), Some(Val::I32(0)));
    assert_eq!(get_val_by_key("ip6"), Some(Val::I32(0)));
    assert_eq!(get_val_by_key("persist"), None);
    assert_eq!(get_val_by_key("name"), None);
}

#[test]
fn an_int_leaf_resolves_to_a_zero_i32() {
    let ps = plan_request(&vec![pair("persist", Ok(LeafInfo::Int))]).unwrap();
    let k = Val::from_text("persist").unwrap();
    assert_eq!(ps.get(&k).unwrap(), &Val::I32(0));
}

#[test]
fn a_ulong_leaf_resolves_to_a_zero_u64() {
    let ps = plan_request(&vec![pair("cpuset.id", Ok(LeafInfo::Ulong))]).unwrap();
    let k = Val::from_text("cpuset.id").unwrap();
    assert_eq!(ps.get(&k).unwrap(), &Val::U64(0));
}

#[test]
fn a_string_leaf_resolves_to_a_zero_buffer_of_its_advertised_size() {
    let ps = plan_request(&vec![pair("path", Ok(LeafInfo::Str(String::from("256"))))]).unwrap();
    let k = Val::from_text("path").unwrap();
    assert_eq!(ps.get(&k).unwrap(), &Val::Buffer(vec![0u8; 256]));
}

#[test]
fn a_bad_size_string_fails_the_call() {
    let r = plan_request(&vec![pair("path", Ok(LeafInfo::Str(String::from("huge"))))]);
    match r {
        Err(LibJailError::ConvertError(ConvertError::ParseIntError)) => {}
        other => panic!("expected a size-parse failure, got {:?}", other),
    }
    let r2 = plan_request(&vec![pair("path", Ok(LeafInfo::Str(String::from(""))))]);
    assert!(r2.is_err());
}

#[test]
fn struct_leaves_resolve_by_their_size_byte() {
    let ps = plan_request(&vec![
        pair("v4", Ok(LeafInfo::Struct(vec![4, 0, 0, 0]))),
        pair("v16", Ok(LeafInfo::Struct(vec![16, 0, 0, 0]))),
    ])
    .unwrap();
    assert_eq!(ps.get(&Val::from_text("v4").unwrap()).unwrap(), &Val::U32(0));
    assert_eq!(ps.get(&Val::from_text("v16").unwrap()).unwrap(), &Val::U128(0));
}

#[test]
fn an_odd_struct_size_fails_the_call() {
    let r = plan_request(&vec![pair("odd", Ok(LeafInfo::Struct(vec![5])))]);
    match r {
        Err(LibJailError::MismatchCtlValue) => {}
        other => panic!("expected a value-shape failure, got {:?}", other),
    }
    let r2 = plan_request(&vec![pair("empty", Ok(LeafInfo::Struct(vec![])))]);
    assert!(matches!(r2, Err(LibJailError::MismatchCtlValue)));
}

#[test]
fn an_unclassified_leaf_fails_the_call() {
    let r = plan_request(&vec![pair("weird", Ok(LeafInfo::Other))]);
    match r {
        Err(LibJailError::MismatchCtlType) => {}
        other => panic!("expected a type-mismatch failure, got {:?}", other),
    }
}

#[test]
fn overrides_win_over_whatever_the_schema_reports() {
    let ps = plan_request(&vec![
        pair("ip4.addr", Ok(LeafInfo::Str(String::from("999")))),
        pair("ip6.addr", Ok(LeafInfo::Int)),
    ])
    .unwrap();
    assert_eq!(ps.get(&Val::from_text("ip4.addr").unwrap()).unwrap(), &Val::Ip4(0));
    assert_eq!(ps.get(&Val::from_text("ip6.addr").unwrap()).unwrap(), &Val::Ip6(0));
}

#[test]
fn overrides_ignore_even_a_failed_lookup() {
    let ps = plan_request(&vec![pair("ip4.addr", Err(SchemaFail::Other))]).unwrap();
    assert_eq!(ps.get(&Val::from_text("ip4.addr").unwrap()).unwrap(), &Val::Ip4(0));
}

#[test]
fn a_no_read_access_name_is_omitted_not_fatal() {
    let ps = plan_request(&vec![
        pair("persist", Ok(LeafInfo::Int)),
        pair("secret", Err(SchemaFail::NoReadAccess)),
        pair("path", Ok(LeafInfo::Str(String::from("8")))),
    ])
    .unwrap();
    assert_eq!(ps.len(), 2);
    assert!(ps.get(&Val::from_text("secret").unwrap()).is_none());
    assert!(ps.get(&Val::from_text("persist").unwrap()).is_some());
    assert!(ps.get(&Val::from_text("path").unwrap()).is_some());
}

#[test]
fn any_other_lookup_failure_is_fatal() {
    let r = plan_request(&vec![pair("persist", Err(SchemaFail::Other))]);
    match r {
        Err(LibJailError::SchemaError(SchemaFail::Other)) => {}
        other => panic!("expected a schema failure, got {:?}", other),
    }
}

#[test]
fn a_requested_name_with_a_nul_byte_is_fatal() {
    let r = plan_request(&vec![pair("bad\0name", Ok(LeafInfo::Int))]);
    match r {
        Err(LibJailError::ConvertError(ConvertError::NulError)) => {}
        other => panic!("expected a NUL failure, got {:?}", other),
    }
}

#[test]
fn a_repeated_name_is_requested_once() {
    let ps = plan_request(&vec![
        pair("persist", Ok(LeafInfo::Int)),
        pair("persist", Ok(LeafInfo::Ulong)),
    ])
    .unwrap();
    assert_eq!(ps.len(), 1);
    assert_eq!(ps.get(&Val::from_text("persist").unwrap()).unwrap(), &Val::U64(0));
}

#[test]
fn a_per_name_query_without_a_jail_tree_fails() {
    match get_val_by_type("persist") {
        Err(LibJailError::SchemaError(_)) => {}
        Ok(_) => panic!("no jail parameter leaf should be readable here"),
        other => panic!("expected a schema failure, got {:?}", other),
    }
}

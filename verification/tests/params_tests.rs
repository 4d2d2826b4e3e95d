use libjail::params::{encode, to_region, ParameterSet};
use libjail::value::{OutVal, Val};

#[test]
fn insert_and_get() {
    let mut ps = ParameterSet::new();
    assert_eq!(ps.len(), 0);
    ps.insert(Val::from_text("name").unwrap(), Val::from_text("demo").unwrap());
    ps.insert(Val::from_text("persist").unwrap(), Val::Bool(true));
    assert_eq!(ps.len(), 2);
    let k = Val::from_text("name").unwrap();
    assert_eq!(ps.get(&k).unwrap(), &Val::from_text("demo").unwrap());
    let missing = Val::from_text("path").unwrap();
    assert!(ps.get(&missing).is_none());
}

#[test]
fn insert_replaces_an_existing_key() {
    let mut ps = ParameterSet::new();
    ps.insert(Val::from_text("jid").unwrap(), Val::I32(1));
    ps.insert(Val::from_text("jid").unwrap(), Val::I32(2));
    assert_eq!(ps.len(), 1);
    let k = Val::from_text("jid").unwrap();
    assert_eq!(ps.get(&k).unwrap(), &Val::I32(2));
}

#[test]
fn encode_alternates_key_and_value_regions() {
    let mut ps = ParameterSet::new();
    ps.insert(Val::from_text("persist").unwrap(), Val::Bool(true));
    ps.insert(Val::from_text("jid").unwrap(), Val::I32(9));
    let regions = encode(&ps);
    assert_eq!(regions.len(), 4);
    assert_eq!(regions[0].bytes, b"persist\0".to_vec());
    assert_eq!(regions[1].bytes, vec![1]);
    assert_eq!(regions[2].bytes, b"jid\0".to_vec());
    assert_eq!(regions[3].bytes, vec![9, 0, 0, 0]);
    for r in &regions {
        assert!(!r.null_base);
    }
}

#[test]
fn null_value_encodes_to_a_null_region() {
    let r = to_region(&Val::Null);
    assert!(r.null_base);
    assert!(r.bytes.is_empty());
    let r2 = to_region(&Val::I32(0));
    assert!(!r2.null_base);
}

#[test]
fn refill_values_rebuilds_the_set() {
    let mut ps = ParameterSet::new();
    ps.insert(Val::from_text("jid").unwrap(), Val::I32(0));
    ps.insert(Val::from_text("name").unwrap(), Val::Buffer(vec![0u8; 6]));
    let new_bytes = vec![vec![7, 0, 0, 0], vec![b'd', b'e', b'm', b'o', 0, 0]];
    let filled = ps.refill_values(&new_bytes).unwrap();
    let jid_key = Val::from_text("jid").unwrap();
    assert_eq!(filled.get(&jid_key).unwrap(), &Val::I32(7));
    let out = filled.decode_all().unwrap();
    assert_eq!(out.len(), 2);
    assert_eq!(out[0], (String::from("jid"), OutVal::I32(7)));
    assert_eq!(out[1], (String::from("name"), OutVal::String(String::from("demo"))));
}

#[test]
fn refill_values_rejects_wrong_buffer_count() {
    let mut ps = ParameterSet::new();
    ps.insert(Val::from_text("jid").unwrap(), Val::I32(0));
    assert!(ps.refill_values(&vec![]).is_err());
    assert!(ps.refill_values(&vec![vec![0, 0], vec![0, 0, 0, 0]]).is_err());
}

#[test]
fn refill_values_rejects_wrong_buffer_shape() {
    let mut ps = ParameterSet::new();
    ps.insert(Val::from_text("jid").unwrap(), Val::I32(0));
    assert!(ps.refill_values(&vec![vec![0, 0]]).is_err());
}

#[test]
fn decode_all_reports_undecodable_values() {
    let mut ps = ParameterSet::new();
    ps.insert(Val::from_text("k").unwrap(), Val::U128(0));
    assert!(ps.decode_all().is_err());
}

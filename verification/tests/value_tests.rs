use libjail::value::{Ip4Addr, Ip6Addr, OutVal, Val};

#[test]
fn text_value_is_nul_terminated() {
    let v = Val::from_text("demo").unwrap();
    assert_eq!(v, Val::CString(vec![b'd', b'e', b'm', b'o', 0]));
}

#[test]
fn text_with_interior_nul_is_rejected() {
    assert!(Val::from_text("de\0mo").is_err());
    assert!(Val::from_string(&String::from("\0")).is_err());
}

#[test]
fn empty_text_is_a_lone_nul() {
    let v = Val::from_text("").unwrap();
    assert_eq!(v, Val::CString(vec![0]));
}

#[test]
fn byte_images_of_scalars() {
    assert_eq!(Val::I32(1).to_bytes(), vec![1, 0, 0, 0]);
    assert_eq!(Val::I32(-1).to_bytes(), vec![0xff, 0xff, 0xff, 0xff]);
    assert_eq!(Val::U32(0x0403_0201).to_bytes(), vec![1, 2, 3, 4]);
    assert_eq!(Val::U64(2).to_bytes(), vec![2, 0, 0, 0, 0, 0, 0, 0]);
    assert_eq!(Val::Bool(true).to_bytes(), vec![1]);
    assert_eq!(Val::Bool(false).to_bytes(), vec![0]);
    assert_eq!(Val::Null.to_bytes(), Vec::<u8>::new());
    assert_eq!(Val::Buffer(vec![9, 8, 7]).to_bytes(), vec![9, 8, 7]);
}

#[test]
fn byte_len_matches_byte_image() {
    let vals = vec![
        Val::Buffer(vec![1, 2, 3]),
        Val::from_text("abc").unwrap(),
        Val::I32(-7),
        Val::U32(7),
        Val::U64(7),
        Val::U128(7),
        Val::Bool(true),
        Val::Ip4(0x0200007f),
        Val::Ip6(1),
        Val::Null,
    ];
    for v in vals {
        assert_eq!(v.byte_len(), v.to_bytes().len());
    }
}

#[test]
fn placeholder_round_trip_is_identity() {
    let vals = vec![
        Val::Buffer(vec![0, 0, 0, 0]),
        Val::from_text("demo").unwrap(),
        Val::I32(-42),
        Val::U32(42),
        Val::U64(42),
        Val::U128(42),
        Val::Bool(true),
        Val::Bool(false),
        Val::Ip4(0x0200007f),
        Val::Ip6(0x1234),
        Val::Null,
    ];
    for v in vals {
        let bytes = v.to_bytes();
        let back = v.refill(&bytes).unwrap();
        assert_eq!(back, v);
    }
}

#[test]
fn refill_rejects_wrong_length() {
    assert!(Val::I32(0).refill(&vec![1, 2, 3]).is_err());
    assert!(Val::Buffer(vec![0, 0]).refill(&vec![1]).is_err());
    assert!(Val::Null.refill(&vec![1]).is_err());
}

#[test]
fn refill_of_text_trims_at_first_nul() {
    let v = Val::Buffer(vec![0u8; 8]);
    let filled = v.refill(&vec![b'o', b'k', 0, b'x', 0, 0, 0, 0]).unwrap();
    assert_eq!(filled, Val::Buffer(vec![b'o', b'k', 0, b'x', 0, 0, 0, 0]));
    let c = Val::from_text("abcd").unwrap();
    let refilled = c.refill(&vec![b'x', b'y', 0, 0, 0]).unwrap();
    assert_eq!(refilled, Val::CString(vec![b'x', b'y', 0]));
}

#[test]
fn decode_produces_output_values() {
    assert_eq!(Val::I32(-3).decode().unwrap(), OutVal::I32(-3));
    assert_eq!(Val::U32(3).decode().unwrap(), OutVal::U32(3));
    assert_eq!(Val::U64(3).decode().unwrap(), OutVal::U64(3));
    assert_eq!(Val::Bool(true).decode().unwrap(), OutVal::Bool(true));
    assert_eq!(Val::Null.decode().unwrap(), OutVal::Null);
    assert_eq!(
        Val::Buffer(vec![b'o', b'k', 0, 0]).decode().unwrap(),
        OutVal::String(String::from("ok"))
    );
    assert_eq!(
        Val::from_text("demo").unwrap().decode().unwrap(),
        OutVal::String(String::from("demo"))
    );
}

#[test]
fn decode_of_unsupported_shape_fails_loudly() {
    assert!(Val::U128(0).decode().is_err());
}

#[test]
fn decode_of_invalid_text_fails() {
    assert!(Val::Buffer(vec![0xff, 0xfe, 1]).decode().is_err());
}

#[test]
fn ipv4_round_trip_through_value() {
    let a = Ip4Addr::from_octets(127, 0, 0, 1);
    let v = Val::from_ip4(a);
    assert_eq!(v, Val::Ip4(0x0100007f));
    match v.decode().unwrap() {
        OutVal::Ip4(back) => assert_eq!(back, a),
        other => panic!("expected an IPv4 output value, got {:?}", other),
    }
}

#[test]
fn ipv4_octets_round_trip() {
    let a = Ip4Addr::from_octets(10, 20, 30, 40);
    assert_eq!(a.octets(), (10, 20, 30, 40));
}

#[test]
fn ipv6_round_trip_through_value() {
    let loopback = Ip6Addr::from_segments(&[0, 0, 0, 0, 0, 0, 0, 1]);
    assert_eq!(loopback.bits, 1);
    let v = Val::from_ip6(loopback);
    match v.decode().unwrap() {
        OutVal::Ip6(back) => assert_eq!(back, loopback),
        other => panic!("expected an IPv6 output value, got {:?}", other),
    }
    let mixed = Ip6Addr::from_segments(&[0x2001, 0xdb8, 0, 0, 0, 0, 0, 0x17]);
    let v2 = Val::from_ip6(mixed);
    match v2.decode().unwrap() {
        OutVal::Ip6(back) => {
            assert_eq!(back, mixed);
            assert_eq!(back.segments(), [0x2001, 0xdb8, 0, 0, 0, 0, 0, 0x17]);
        }
        other => panic!("expected an IPv6 output value, got {:?}", other),
    }
}

#[test]
fn ipv4_network_byte_order_is_stored() {
    let a = Ip4Addr::from_octets(127, 0, 0, 2);
    assert_eq!(a.bits, 0x7f000002);
    let v = Val::from_ip4(a);
    assert_eq!(v, Val::Ip4(0x0200007f));
    assert_eq!(v.to_bytes(), vec![127, 0, 0, 2]);
}

#[test]
fn value_text_renderings() {
    assert_eq!(Val::I32(0).into_string().unwrap(), "0");
    assert_eq!(Val::I32(-17).into_string().unwrap(), "-17");
    assert_eq!(Val::U32(4294967295).into_string().unwrap(), "4294967295");
    assert_eq!(Val::U64(18446744073709551615).into_string().unwrap(), "18446744073709551615");
    assert_eq!(Val::U128(340282366920938463463374607431768211455).into_string().unwrap(),
        "340282366920938463463374607431768211455");
    assert_eq!(Val::Bool(true).into_string().unwrap(), "true");
    assert_eq!(Val::Bool(false).into_string().unwrap(), "false");
    assert_eq!(Val::Null.into_string().unwrap(), "");
    assert_eq!(Val::from_text("host.name").unwrap().into_string().unwrap(), "host.name");
    assert_eq!(Val::Buffer(vec![b'h', b'i', 0, 0]).into_string().unwrap(), "hi");
}

#[test]
fn address_text_renderings() {
    let v = Val::from_ip4(Ip4Addr::from_octets(127, 0, 0, 1));
    assert_eq!(v.into_string().unwrap(), "127.0.0.1");
    let v6 = Val::from_ip6(Ip6Addr::from_segments(&[0, 0, 0, 0, 0, 0, 0, 1]));
    assert_eq!(v6.into_string().unwrap(), "0:0:0:0:0:0:0:1");
    let v6b = Val::from_ip6(Ip6Addr::from_segments(&[0x2001, 0xdb8, 0, 0, 0, 0, 0, 0xff]));
    assert_eq!(v6b.into_string().unwrap(), "2001:db8:0:0:0:0:0:ff");
}

#[test]
fn out_val_into_string_keeps_only_text() {
    assert_eq!(OutVal::String(String::from("demo")).into_string(), "demo");
    assert_eq!(OutVal::I32(5).into_string(), "");
    assert_eq!(OutVal::Null.into_string(), "");
}

#[test]
fn duplicate_preserves_the_value() {
    let v = Val::from_text("abc").unwrap();
    assert_eq!(v.duplicate(), v);
    let b = Val::Buffer(vec![1, 2]);
    assert_eq!(b.duplicate(), b);
}

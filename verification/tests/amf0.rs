use flv::amf0::{AmfValue, parse_amf0_value, write_boolean, write_ecma_array_start, write_number, write_object_end, write_object_start, write_property_name, write_string};
use flv::amf3::Amf3Value;
use flv::error::Error;
use flv::double::Double;

fn d(x: f64) -> Double {
    Double { bits: x.to_bits() }
}

#[test]
fn number() {
    let mut bytes = vec![0x00];
    bytes.extend_from_slice(&(1234.5_f64).to_be_bytes());
    let (v, p) = parse_amf0_value(&bytes, 0).unwrap();
    assert_eq!(v, AmfValue::Number(d(1234.5)));
    assert_eq!(p, bytes.len());
}

#[test]
fn string() {
    let s = "hello";
    let mut bytes = vec![0x02];
    bytes.extend_from_slice(&(s.len() as u16).to_be_bytes());
    bytes.extend_from_slice(s.as_bytes());
    let (v, p) = parse_amf0_value(&bytes, 0).unwrap();
    assert_eq!(v, AmfValue::String(s.into()));
    assert_eq!(p, bytes.len());
}

#[test]
fn object_with_number_and_string() {
    let mut b = vec![0x03];

    b.extend_from_slice(&[0x00, 0x01, b'a']);
    b.push(0x00);
    b.extend_from_slice(&1.0_f64.to_be_bytes());

    b.extend_from_slice(&[0x00, 0x01, b'b']);
    b.push(0x02);
    b.extend_from_slice(&(1u16).to_be_bytes());
    b.push(b'x');

    b.extend_from_slice(&[0x00, 0x00, 0x09]);
    let (v, p) = parse_amf0_value(&b, 0).unwrap();
    assert_eq!(p, b.len());
    match v {
        AmfValue::Object(body) => {
            assert_eq!(body.len(), 2);
            assert_eq!(body[0].0, "a");
            assert_eq!(body[0].1, AmfValue::Number(d(1.0)));
            assert_eq!(body[1].0, "b");
            assert_eq!(body[1].1, AmfValue::String("x".into()));
        }
        _ => panic!("expected object"),
    }
}

#[test]
fn amf0_rejects_unknown_marker() {
    let bytes = [0xFF];
    assert!(matches!(
        parse_amf0_value(&bytes, 0),
        Err(Error::InvalidData(_))
    ));
}

#[test]
fn reference_marker() {
    let bytes = [0x07, 0x01, 0x02];
    let (v, p) = parse_amf0_value(&bytes, 0).unwrap();
    assert_eq!(v, AmfValue::Reference(0x0102));
    assert_eq!(p, 3);
}

#[test]
fn long_string_via_type_0c() {
    let s = "hi";
    let mut b = vec![0x0C];
    b.extend_from_slice(&(s.len() as u32).to_be_bytes());
    b.extend_from_slice(s.as_bytes());
    let (v, p) = parse_amf0_value(&b, 0).unwrap();
    assert_eq!(v, AmfValue::String(s.into()));
    assert_eq!(p, b.len());
}

#[test]
fn unsupported_marker_stands_alone() {
    let bytes = [0x0D];
    let (v, p) = parse_amf0_value(&bytes, 0).unwrap();
    assert_eq!(v, AmfValue::Unsupported);
    assert_eq!(p, 1);
}

#[test]
fn xml_document_round_trips_as_long_utf8() {
    let xml = "<x>hi</x>";
    let mut b = vec![0x0F];
    b.extend_from_slice(&(xml.len() as u32).to_be_bytes());
    b.extend_from_slice(xml.as_bytes());
    let (v, p) = parse_amf0_value(&b, 0).unwrap();
    assert_eq!(v, AmfValue::Xml(xml.into()));
    assert_eq!(p, b.len());
}

#[test]
fn typed_object_carries_class_name_and_body() {
    let class = "Foo";
    let mut b = vec![0x10];
    b.extend_from_slice(&(class.len() as u16).to_be_bytes());
    b.extend_from_slice(class.as_bytes());

    b.extend_from_slice(&[0x00, 0x01, b'a']);
    b.push(0x00);
    b.extend_from_slice(&1.0_f64.to_be_bytes());

    b.extend_from_slice(&[0x00, 0x00, 0x09]);
    let (v, p) = parse_amf0_value(&b, 0).unwrap();
    assert_eq!(p, b.len());
    match &v {
        AmfValue::TypedObject { class_name, body } => {
            assert_eq!(class_name, "Foo");
            assert_eq!(body.len(), 1);
            assert_eq!(body[0].0, "a");
            assert_eq!(body[0].1, AmfValue::Number(d(1.0)));
        }
        other => panic!("expected typed object, got {other:?}"),
    }

    assert_eq!(v.get("a"), Some(&AmfValue::Number(d(1.0))));
    assert_eq!(v.class_name(), Some("Foo"));
}

#[test]
fn typed_object_with_empty_class_name() {
    let mut b = vec![0x10, 0x00, 0x00];
    b.extend_from_slice(&[0x00, 0x00, 0x09]);
    let (v, p) = parse_amf0_value(&b, 0).unwrap();
    assert_eq!(p, b.len());
    match v {
        AmfValue::TypedObject { class_name, body } => {
            assert_eq!(class_name, "");
            assert!(body.is_empty());
        }
        other => panic!("expected typed object, got {other:?}"),
    }
}

#[test]
fn amf3_switch_marker_decodes_inner_value() {
    let bytes = [0x11, 0x03];
    let (v, p) = parse_amf0_value(&bytes, 0).unwrap();
    assert_eq!(p, 2);
    match v {
        AmfValue::AvmPlus(inner) => {
            assert_eq!(*inner, Amf3Value::Boolean(true));
        }
        other => panic!("expected AvmPlus, got {other:?}"),
    }
}

#[test]
fn amf3_switch_marker_with_truncated_inner_errors() {
    let bytes = [0x11];
    assert!(matches!(
        parse_amf0_value(&bytes, 0),
        Err(Error::InvalidData(_))
    ));
}

#[test]
fn write_number_round_trips_through_parse() {
    let mut b = Vec::new();
    write_number(&mut b, d(1234.5)).unwrap();
    let (v, p) = parse_amf0_value(&b, 0).unwrap();
    assert_eq!(v, AmfValue::Number(d(1234.5)));
    assert_eq!(p, b.len());
}

#[test]
fn write_boolean_round_trips() {
    for tv in [true, false] {
        let mut b = Vec::new();
        write_boolean(&mut b, tv).unwrap();
        let (v, _) = parse_amf0_value(&b, 0).unwrap();
        assert_eq!(v, AmfValue::Boolean(tv));
    }
}

#[test]
fn write_string_round_trips() {
    let mut b = Vec::new();
    write_string(&mut b, "onMetaData").unwrap();

    assert_eq!(b[0], 0x02);
    assert_eq!(u16::from_be_bytes([b[1], b[2]]), 10);
    let (v, p) = parse_amf0_value(&b, 0).unwrap();
    assert_eq!(v, AmfValue::String("onMetaData".into()));
    assert_eq!(p, b.len());
}

#[test]
fn write_ecma_array_round_trips_with_object_parser() {
    let mut b = Vec::new();
    write_ecma_array_start(&mut b, 3).unwrap();
    write_property_name(&mut b, "a").unwrap();
    write_number(&mut b, d(1.0)).unwrap();
    write_property_name(&mut b, "ok").unwrap();
    write_boolean(&mut b, true).unwrap();
    write_property_name(&mut b, "s").unwrap();
    write_string(&mut b, "x").unwrap();
    write_object_end(&mut b).unwrap();
    let (v, p) = parse_amf0_value(&b, 0).unwrap();
    assert_eq!(p, b.len());
    match v {
        AmfValue::EcmaArray(body) => {
            assert_eq!(body.len(), 3);
            assert_eq!(body[0], ("a".into(), AmfValue::Number(d(1.0))));
            assert_eq!(body[1], ("ok".into(), AmfValue::Boolean(true)));
            assert_eq!(body[2], ("s".into(), AmfValue::String("x".into())));
        }
        other => panic!("expected ecma array, got {other:?}"),
    }
}

#[test]
fn write_object_round_trips_with_parser() {
    let mut b = Vec::new();
    write_object_start(&mut b).unwrap();
    write_property_name(&mut b, "k").unwrap();
    write_number(&mut b, d(7.0)).unwrap();
    write_object_end(&mut b).unwrap();
    let (v, _) = parse_amf0_value(&b, 0).unwrap();
    assert_eq!(v.get("k"), Some(&AmfValue::Number(d(7.0))));
}

#[test]
fn write_string_rejects_oversize() {
    let big = "x".repeat(70_000);
    let mut b = Vec::new();
    assert!(matches!(
        write_string(&mut b, &big),
        Err(Error::InvalidData(_))
    ));
}

#[test]
fn strict_array_holds_ordered_values() {
    let mut b = vec![0x0A];
    b.extend_from_slice(&(2u32).to_be_bytes());
    b.push(0x00);
    b.extend_from_slice(&1.0_f64.to_be_bytes());
    b.push(0x02);
    b.extend_from_slice(&(1u16).to_be_bytes());
    b.push(b'x');
    let (v, _) = parse_amf0_value(&b, 0).unwrap();
    match v {
        AmfValue::StrictArray(items) => {
            assert_eq!(items.len(), 2);
            assert_eq!(items[0], AmfValue::Number(d(1.0)));
            assert_eq!(items[1], AmfValue::String("x".into()));
        }
        other => panic!("expected strict array, got {other:?}"),
    }
}

#[test]
fn a_value_depends_only_on_its_bytes() {
    let values: [&[u8]; 5] = [
        b"\x02\x00\x02ab",
        b"\x03\x00\x01k\x01\x01\x00\x00\x09",
        b"\x0A\x00\x00\x00\x02\x05\x0C\x00\x00\x00\x01z",
        b"\x11\x09\x05\x01\x04\x81\x00\x06\x03q",
        b"\x0B\x40\x00\x00\x00\x00\x00\x00\x00\xFF\xC4",
    ];
    for bytes in values {
        let (v, p) = parse_amf0_value(bytes, 0).unwrap();
        assert_eq!(p, bytes.len());
        for (before, behind) in [(&b"\x05\x09"[..], &b"\x00\x00\x09"[..]), (b"", b"\xFF"), (b"x", b"")] {
            let mut data = before.to_vec();
            data.extend_from_slice(bytes);
            data.extend_from_slice(behind);
            let (w, q) = parse_amf0_value(&data, before.len()).unwrap();
            assert_eq!(w, v);
            assert_eq!(q, before.len() + p);
        }
    }
}

use flv::amf3::{Amf3Array, Amf3Object, Amf3Value, U29_MAX, parse_amf3_value, read_u29, write_amf3_value};
use flv::error::Error;
use flv::double::Double;

fn d(x: f64) -> Double {
    Double { bits: x.to_bits() }
}

fn u29_lit_len(len: usize) -> Vec<u8> {
    u29_encode(((len as u32) << 1) | 1)
}

fn u29_ref(idx: usize) -> Vec<u8> {
    u29_encode((idx as u32) << 1)
}

fn u29_encode(v: u32) -> Vec<u8> {
    assert!(v <= U29_MAX);
    if v < 0x80 {
        vec![v as u8]
    } else if v < 0x4000 {
        vec![(((v >> 7) & 0x7F) | 0x80) as u8, (v & 0x7F) as u8]
    } else if v < 0x20_0000 {
        vec![
            (((v >> 14) & 0x7F) | 0x80) as u8,
            (((v >> 7) & 0x7F) | 0x80) as u8,
            (v & 0x7F) as u8,
        ]
    } else {
        vec![
            (((v >> 22) & 0x7F) | 0x80) as u8,
            (((v >> 15) & 0x7F) | 0x80) as u8,
            (((v >> 8) & 0x7F) | 0x80) as u8,
            (v & 0xFF) as u8,
        ]
    }
}

#[test]
fn u29_round_trip_at_boundaries() {
    for &v in &[
        0u32, 1, 0x7F, 0x80, 0x3FFF, 0x4000, 0x1F_FFFF, 0x20_0000, U29_MAX,
    ] {
        let enc = u29_encode(v);
        let (got, np) = read_u29(&enc, 0).unwrap();
        assert_eq!(got, v, "value {v:#x} round-tripped wrong");
        assert_eq!(np, enc.len(), "value {v:#x} cursor wrong");
    }
}

#[test]
fn u29_four_byte_form_reaches_max_exactly() {
    let bytes = [0xFF, 0xFF, 0xFF, 0xFF];
    let (got, np) = read_u29(&bytes, 0).unwrap();
    assert_eq!(got, U29_MAX);
    assert_eq!(np, 4);
}

#[test]
fn undefined_marker() {
    let (v, p) = parse_amf3_value(&[0x00], 0).unwrap();
    assert_eq!(v, Amf3Value::Undefined);
    assert_eq!(p, 1);
}

#[test]
fn null_marker() {
    let (v, _) = parse_amf3_value(&[0x01], 0).unwrap();
    assert_eq!(v, Amf3Value::Null);
}

#[test]
fn boolean_markers() {
    let (v, _) = parse_amf3_value(&[0x02], 0).unwrap();
    assert_eq!(v, Amf3Value::Boolean(false));
    let (v, _) = parse_amf3_value(&[0x03], 0).unwrap();
    assert_eq!(v, Amf3Value::Boolean(true));
}

#[test]
fn integer_positive_and_negative() {
    let (v, _) = parse_amf3_value(&[0x04, 0x00], 0).unwrap();
    assert_eq!(v, Amf3Value::Integer(0));

    let (v, _) = parse_amf3_value(&[0x04, 0x01], 0).unwrap();
    assert_eq!(v, Amf3Value::Integer(1));

    let (v, _) = parse_amf3_value(&[0x04, 0x7F], 0).unwrap();
    assert_eq!(v, Amf3Value::Integer(127));

    let mut b = vec![0x04];
    b.extend_from_slice(&u29_encode(U29_MAX));
    let (v, _) = parse_amf3_value(&b, 0).unwrap();
    assert_eq!(v, Amf3Value::Integer(-1));

    let mut b = vec![0x04];
    b.extend_from_slice(&u29_encode(U29_MAX - 1));
    let (v, _) = parse_amf3_value(&b, 0).unwrap();
    assert_eq!(v, Amf3Value::Integer(-2));
}

#[test]
fn double_marker() {
    let mut b = vec![0x05];
    b.extend_from_slice(&core::f64::consts::PI.to_be_bytes());
    let (v, p) = parse_amf3_value(&b, 0).unwrap();
    assert_eq!(v, Amf3Value::Double(d(core::f64::consts::PI)));
    assert_eq!(p, 9);
}

#[test]
fn string_literal_and_reference() {
    let mut b = vec![0x09];
    b.extend_from_slice(&u29_lit_len(0));

    b.extend_from_slice(&u29_lit_len(2));
    b.extend_from_slice(b"ab");

    b.push(0x06);
    b.extend_from_slice(&u29_ref(0));

    b.extend_from_slice(&u29_lit_len(0));

    let (v, _) = parse_amf3_value(&b, 0).unwrap();
    let arr = match v {
        Amf3Value::Array(a) => a,
        other => panic!("expected array, got {other:?}"),
    };
    assert_eq!(arr.dense, Vec::<Amf3Value>::new());
    assert_eq!(arr.assoc.len(), 1);
    assert_eq!(arr.assoc[0].0, "ab");
    assert_eq!(arr.assoc[0].1, Amf3Value::String("ab".into()));
}

#[test]
fn empty_string_never_referenced() {
    let b = [0x06u8, 0x01];
    let (v, p) = parse_amf3_value(&b, 0).unwrap();
    assert_eq!(v, Amf3Value::String(String::new()));
    assert_eq!(p, 2);
}

#[test]
fn string_reference_out_of_range_errors() {
    let b = [0x06u8, 0x00];
    assert!(matches!(
        parse_amf3_value(&b, 0),
        Err(Error::InvalidData(_))
    ));
}

#[test]
fn date_literal_records_epoch_ms() {
    let mut b = vec![0x08, 0x01];
    let ms = 1_700_000_000_000.0_f64;
    b.extend_from_slice(&ms.to_be_bytes());
    let (v, _) = parse_amf3_value(&b, 0).unwrap();
    assert_eq!(v, Amf3Value::Date(d(ms)));
}

#[test]
fn array_with_assoc_and_dense() {
    let mut b = vec![0x09];
    b.extend_from_slice(&u29_lit_len(2));
    b.extend_from_slice(&u29_lit_len(1));
    b.push(b'x');
    b.push(0x04);
    b.push(0x01);
    b.extend_from_slice(&u29_lit_len(0));
    b.push(0x04);
    b.push(0x02);
    b.push(0x04);
    b.push(0x03);
    let (v, _) = parse_amf3_value(&b, 0).unwrap();
    let arr = match v {
        Amf3Value::Array(a) => a,
        _ => panic!(),
    };
    assert_eq!(arr.assoc.len(), 1);
    assert_eq!(arr.assoc[0], ("x".into(), Amf3Value::Integer(1)));
    assert_eq!(
        arr.dense,
        vec![Amf3Value::Integer(2), Amf3Value::Integer(3)]
    );
}

#[test]
fn anonymous_dynamic_object() {
    let mut b = vec![0x0A];
    b.extend_from_slice(&u29_encode(0b1011));

    b.extend_from_slice(&u29_lit_len(0));

    b.extend_from_slice(&u29_lit_len(1));
    b.push(b'k');
    b.push(0x04);
    b.push(0x07);

    b.extend_from_slice(&u29_lit_len(0));

    let (v, _) = parse_amf3_value(&b, 0).unwrap();
    let obj = match v {
        Amf3Value::Object(o) => o,
        _ => panic!(),
    };
    assert_eq!(obj.class_name, "");
    assert!(obj.dynamic);
    assert!(!obj.externalizable);
    assert!(obj.sealed_names.is_empty());
    assert!(obj.sealed_values.is_empty());
    assert_eq!(obj.dynamic_members.len(), 1);
    assert_eq!(obj.dynamic_members[0], ("k".into(), Amf3Value::Integer(7)));
}

#[test]
fn typed_sealed_object_with_two_members() {
    let header: u32 = (2 << 4) | (0 << 3) | (0 << 2) | (1 << 1) | 1;
    let mut b = vec![0x0A];
    b.extend_from_slice(&u29_encode(header));
    b.extend_from_slice(&u29_lit_len(5));
    b.extend_from_slice(b"Point");

    b.extend_from_slice(&u29_lit_len(1));
    b.push(b'x');
    b.extend_from_slice(&u29_lit_len(1));
    b.push(b'y');

    b.push(0x04);
    b.push(0x03);
    b.push(0x04);
    b.push(0x04);

    let (v, _) = parse_amf3_value(&b, 0).unwrap();
    let obj = match v {
        Amf3Value::Object(o) => o,
        _ => panic!(),
    };
    assert_eq!(obj.class_name, "Point");
    assert!(!obj.dynamic);
    assert_eq!(obj.sealed_names, vec!["x".to_string(), "y".to_string()]);
    assert_eq!(
        obj.sealed_values,
        vec![Amf3Value::Integer(3), Amf3Value::Integer(4)]
    );
}

#[test]
fn traits_reference_round_trips_second_instance_cheaply() {
    let header: u32 = (2 << 4) | (0 << 3) | (0 << 2) | (1 << 1) | 1;
    let mut p1 = vec![0x0A];
    p1.extend_from_slice(&u29_encode(header));
    p1.extend_from_slice(&u29_lit_len(5));
    p1.extend_from_slice(b"Point");
    p1.extend_from_slice(&u29_lit_len(1));
    p1.push(b'x');
    p1.extend_from_slice(&u29_lit_len(1));
    p1.push(b'y');
    p1.push(0x04);
    p1.push(0x03);
    p1.push(0x04);
    p1.push(0x04);

    let mut p2 = vec![0x0A];
    p2.extend_from_slice(&u29_encode(0b01));

    p2.push(0x04);
    p2.push(0x05);
    p2.push(0x04);
    p2.push(0x06);

    let mut b = vec![0x09];
    b.extend_from_slice(&u29_lit_len(2));
    b.extend_from_slice(&u29_lit_len(0));
    b.extend_from_slice(&p1);
    b.extend_from_slice(&p2);

    let (v, _) = parse_amf3_value(&b, 0).unwrap();
    let arr = match v {
        Amf3Value::Array(a) => a,
        _ => panic!(),
    };
    let o1 = match &arr.dense[0] {
        Amf3Value::Object(o) => o,
        _ => panic!(),
    };
    assert_eq!(o1.class_name, "Point");
    assert_eq!(
        o1.sealed_values,
        vec![Amf3Value::Integer(3), Amf3Value::Integer(4)]
    );
    let o2 = match &arr.dense[1] {
        Amf3Value::Object(o) => o,
        _ => panic!(),
    };
    assert_eq!(o2.class_name, "Point");
    assert_eq!(o2.sealed_names, o1.sealed_names);
    assert_eq!(
        o2.sealed_values,
        vec![Amf3Value::Integer(5), Amf3Value::Integer(6)]
    );
}

#[test]
fn object_reference_round_trips_second_instance_as_alias() {
    let header: u32 = (1 << 4) | (0 << 3) | (0 << 2) | (1 << 1) | 1;
    let mut p1 = vec![0x0A];
    p1.extend_from_slice(&u29_encode(header));
    p1.extend_from_slice(&u29_lit_len(1));
    p1.push(b'P');
    p1.extend_from_slice(&u29_lit_len(1));
    p1.push(b'x');
    p1.push(0x04);
    p1.push(0x09);

    let mut p2 = vec![0x0A];
    p2.extend_from_slice(&u29_ref(1));

    let mut b = vec![0x09];
    b.extend_from_slice(&u29_lit_len(2));
    b.extend_from_slice(&u29_lit_len(0));
    b.extend_from_slice(&p1);
    b.extend_from_slice(&p2);

    let (v, _) = parse_amf3_value(&b, 0).unwrap();
    let arr = match v {
        Amf3Value::Array(a) => a,
        _ => panic!(),
    };
    assert_eq!(arr.dense[0], arr.dense[1]);
}

#[test]
fn externalizable_object_records_flag_no_body_bytes() {
    let header: u32 = 0b0111;
    let mut b = vec![0x0A];
    b.extend_from_slice(&u29_encode(header));
    b.extend_from_slice(&u29_lit_len(3));
    b.extend_from_slice(b"Ext");

    let trailer_pos_before = b.len();
    let (v, p) = parse_amf3_value(&b, 0).unwrap();
    assert_eq!(p, trailer_pos_before);
    let obj = match v {
        Amf3Value::Object(o) => o,
        _ => panic!(),
    };
    assert_eq!(obj.class_name, "Ext");
    assert!(obj.externalizable);
    assert!(!obj.dynamic);
    assert!(obj.sealed_names.is_empty());
}

#[test]
fn xml_document_marker() {
    let xml = "<n/>";
    let mut b = vec![0x07];
    b.extend_from_slice(&u29_lit_len(xml.len()));
    b.extend_from_slice(xml.as_bytes());
    let (v, _) = parse_amf3_value(&b, 0).unwrap();
    assert_eq!(v, Amf3Value::XmlDocument(xml.into()));
}

#[test]
fn xml_marker() {
    let xml = "<n/>";
    let mut b = vec![0x0B];
    b.extend_from_slice(&u29_lit_len(xml.len()));
    b.extend_from_slice(xml.as_bytes());
    let (v, _) = parse_amf3_value(&b, 0).unwrap();
    assert_eq!(v, Amf3Value::Xml(xml.into()));
}

#[test]
fn byte_array_literal_and_reference() {
    let mut p1 = vec![0x0C];
    p1.extend_from_slice(&u29_lit_len(3));
    p1.extend_from_slice(&[0xDE, 0xAD, 0xBE]);
    let mut p2 = vec![0x0C];
    p2.extend_from_slice(&u29_ref(1));
    let mut b = vec![0x09];
    b.extend_from_slice(&u29_lit_len(2));
    b.extend_from_slice(&u29_lit_len(0));
    b.extend_from_slice(&p1);
    b.extend_from_slice(&p2);
    let (v, _) = parse_amf3_value(&b, 0).unwrap();
    let arr = match v {
        Amf3Value::Array(a) => a,
        _ => panic!(),
    };
    assert_eq!(
        arr.dense,
        vec![
            Amf3Value::ByteArray(vec![0xDE, 0xAD, 0xBE]),
            Amf3Value::ByteArray(vec![0xDE, 0xAD, 0xBE])
        ]
    );
}

#[test]
fn amf3_rejects_unknown_marker() {
    let b = [0xEE];
    assert!(matches!(
        parse_amf3_value(&b, 0),
        Err(Error::InvalidData(_))
    ));
}

#[test]
fn truncated_double_errors() {
    let b = [0x05, 0x40, 0x09, 0x21, 0xFB, 0x54, 0x44, 0x2D];
    assert!(matches!(
        parse_amf3_value(&b, 0),
        Err(Error::InvalidData(_))
    ));
}

#[test]
fn truncated_string_body_errors() {
    let mut b = vec![0x06];
    b.extend_from_slice(&u29_lit_len(5));
    b.extend_from_slice(b"ab");
    assert!(matches!(
        parse_amf3_value(&b, 0),
        Err(Error::InvalidData(_))
    ));
}

#[test]
fn truncated_byte_array_errors() {
    let mut b = vec![0x0C];
    b.extend_from_slice(&u29_lit_len(4));
    b.extend_from_slice(&[0xAA, 0xBB]);
    assert!(matches!(
        parse_amf3_value(&b, 0),
        Err(Error::InvalidData(_))
    ));
}

#[test]
fn as_f64_and_as_str_helpers() {
    assert_eq!(Amf3Value::Integer(7).as_f64(), Some(d(7.0)));
    assert_eq!(Amf3Value::Double(d(1.5)).as_f64(), Some(d(1.5)));
    assert_eq!(Amf3Value::Boolean(true).as_f64(), Some(d(1.0)));
    assert_eq!(Amf3Value::Boolean(false).as_f64(), Some(d(0.0)));
    assert_eq!(Amf3Value::Null.as_f64(), None);
    assert_eq!(Amf3Value::String("hi".into()).as_str(), Some("hi"));
    assert_eq!(Amf3Value::Xml("<n/>".into()).as_str(), Some("<n/>"));
    assert_eq!(Amf3Value::XmlDocument("<n/>".into()).as_str(), Some("<n/>"));
    assert_eq!(Amf3Value::Integer(7).as_str(), None);
}

fn enc_round_trip(v: &Amf3Value) -> Vec<u8> {
    let mut out = Vec::new();
    write_amf3_value(&mut out, v).expect("encode");
    let (back, p) = parse_amf3_value(&out, 0).expect("decode");
    assert_eq!(&back, v, "value did not survive encode→decode");
    assert_eq!(p, out.len(), "decoder did not consume the whole encoding");
    out
}

#[test]
fn encode_scalar_markers_round_trip() {
    enc_round_trip(&Amf3Value::Undefined);
    enc_round_trip(&Amf3Value::Null);
    enc_round_trip(&Amf3Value::Boolean(false));
    enc_round_trip(&Amf3Value::Boolean(true));
    enc_round_trip(&Amf3Value::Double(d(core::f64::consts::PI)));
    enc_round_trip(&Amf3Value::Double(d(0.0)));
    enc_round_trip(&Amf3Value::Date(d(1_700_000_000_000.0)));
}

#[test]
fn encode_scalar_marker_bytes_are_spec_exact() {
    let mut out = Vec::new();
    write_amf3_value(&mut out, &Amf3Value::Undefined).unwrap();
    assert_eq!(out, [0x00]);
    out.clear();
    write_amf3_value(&mut out, &Amf3Value::Null).unwrap();
    assert_eq!(out, [0x01]);
    out.clear();
    write_amf3_value(&mut out, &Amf3Value::Boolean(false)).unwrap();
    assert_eq!(out, [0x02]);
    out.clear();
    write_amf3_value(&mut out, &Amf3Value::Boolean(true)).unwrap();
    assert_eq!(out, [0x03]);
}

#[test]
fn encode_integer_boundaries_round_trip() {
    for &i in &[0i32, 1, -1, 2, -2, 127, -128, (1 << 28) - 1, -(1 << 28)] {
        enc_round_trip(&Amf3Value::Integer(i));
    }
}

#[test]
fn encode_negative_one_is_u29_max() {
    let mut out = Vec::new();
    write_amf3_value(&mut out, &Amf3Value::Integer(-1)).unwrap();
    let mut expect = vec![0x04];
    expect.extend_from_slice(&u29_encode(U29_MAX));
    assert_eq!(out, expect);
}

#[test]
fn encode_integer_out_of_29bit_range_errors() {
    let mut out = Vec::new();
    assert!(matches!(
        write_amf3_value(&mut out, &Amf3Value::Integer(1 << 28)),
        Err(Error::InvalidData(_))
    ));
}

#[test]
fn encode_string_round_trip() {
    enc_round_trip(&Amf3Value::String(String::new()));
    enc_round_trip(&Amf3Value::String("hello".into()));
    enc_round_trip(&Amf3Value::String("üñîçödé".into()));
}

#[test]
fn encode_empty_string_is_always_literal() {
    let mut out = Vec::new();
    write_amf3_value(&mut out, &Amf3Value::String(String::new())).unwrap();
    assert_eq!(out, [0x06, 0x01]);
}

#[test]
fn encode_string_dedup_uses_reference() {
    let arr = Amf3Value::Array(Amf3Array {
        assoc: vec![("ab".into(), Amf3Value::String("ab".into()))],
        dense: vec![],
    });
    let out = enc_round_trip(&arr);

    assert_eq!(out, [0x09, 0x01, 0x05, b'a', b'b', 0x06, 0x00, 0x01]);
}

#[test]
fn encode_array_with_assoc_and_dense_round_trip() {
    enc_round_trip(&Amf3Value::Array(Amf3Array {
        assoc: vec![
            ("x".into(), Amf3Value::Integer(1)),
            ("flag".into(), Amf3Value::Boolean(true)),
        ],
        dense: vec![
            Amf3Value::Integer(2),
            Amf3Value::Double(d(3.5)),
            Amf3Value::String("z".into()),
        ],
    }));
}

#[test]
fn encode_empty_array_round_trip() {
    enc_round_trip(&Amf3Value::Array(Amf3Array {
        assoc: vec![],
        dense: vec![],
    }));
}

#[test]
fn encode_array_empty_assoc_key_errors() {
    let mut out = Vec::new();
    let v = Amf3Value::Array(Amf3Array {
        assoc: vec![(String::new(), Amf3Value::Null)],
        dense: vec![],
    });
    assert!(matches!(
        write_amf3_value(&mut out, &v),
        Err(Error::InvalidData(_))
    ));
}

#[test]
fn encode_anonymous_dynamic_object_round_trip() {
    enc_round_trip(&Amf3Value::Object(Amf3Object {
        class_name: String::new(),
        dynamic: true,
        externalizable: false,
        sealed_names: vec![],
        sealed_values: vec![],
        dynamic_members: vec![
            ("k".into(), Amf3Value::Integer(7)),
            ("name".into(), Amf3Value::String("v".into())),
        ],
    }));
}

#[test]
fn encode_typed_sealed_object_round_trip() {
    enc_round_trip(&Amf3Value::Object(Amf3Object {
        class_name: "com.example.Point".into(),
        dynamic: false,
        externalizable: false,
        sealed_names: vec!["x".into(), "y".into()],
        sealed_values: vec![Amf3Value::Integer(3), Amf3Value::Integer(4)],
        dynamic_members: vec![],
    }));
}

#[test]
fn encode_sealed_and_dynamic_object_round_trip() {
    enc_round_trip(&Amf3Value::Object(Amf3Object {
        class_name: "Mixed".into(),
        dynamic: true,
        externalizable: false,
        sealed_names: vec!["a".into()],
        sealed_values: vec![Amf3Value::Boolean(false)],
        dynamic_members: vec![("extra".into(), Amf3Value::Double(d(1.25)))],
    }));
}

#[test]
fn encode_externalizable_object_round_trips_flag_only() {
    enc_round_trip(&Amf3Value::Object(Amf3Object {
        class_name: "flex.messaging.io.ArrayCollection".into(),
        dynamic: false,
        externalizable: true,
        sealed_names: vec![],
        sealed_values: vec![],
        dynamic_members: vec![],
    }));
}

#[test]
fn encode_object_sealed_length_mismatch_errors() {
    let mut out = Vec::new();
    let v = Amf3Value::Object(Amf3Object {
        class_name: String::new(),
        dynamic: false,
        externalizable: false,
        sealed_names: vec!["only".into()],
        sealed_values: vec![],
        dynamic_members: vec![],
    });
    assert!(matches!(
        write_amf3_value(&mut out, &v),
        Err(Error::InvalidData(_))
    ));
}

#[test]
fn encode_xml_and_xml_document_round_trip() {
    enc_round_trip(&Amf3Value::Xml("<root><a/></root>".into()));
    enc_round_trip(&Amf3Value::XmlDocument("<legacy/>".into()));
    enc_round_trip(&Amf3Value::Xml(String::new()));
}

#[test]
fn encode_byte_array_round_trip() {
    enc_round_trip(&Amf3Value::ByteArray(vec![0xDE, 0xAD, 0xBE, 0xEF]));
    enc_round_trip(&Amf3Value::ByteArray(vec![]));
}

#[test]
fn encode_nested_graph_round_trip() {
    let inner = Amf3Value::Object(Amf3Object {
        class_name: String::new(),
        dynamic: true,
        externalizable: false,
        sealed_names: vec![],
        sealed_values: vec![],
        dynamic_members: vec![("label".into(), Amf3Value::String("label".into()))],
    });
    enc_round_trip(&Amf3Value::Object(Amf3Object {
        class_name: String::new(),
        dynamic: true,
        externalizable: false,
        sealed_names: vec![],
        sealed_values: vec![],
        dynamic_members: vec![(
            "items".into(),
            Amf3Value::Array(Amf3Array {
                assoc: vec![("label".into(), Amf3Value::Integer(1))],
                dense: vec![inner.clone(), inner],
            }),
        )],
    }));
}

#[test]
fn encode_is_a_fixed_point_for_a_value_corpus() {
    let corpus = [
        Amf3Value::Undefined,
        Amf3Value::Null,
        Amf3Value::Boolean(true),
        Amf3Value::Integer(-(1 << 28)),
        Amf3Value::Double(d(-0.0)),
        Amf3Value::String("repeat".into()),
        Amf3Value::Xml("<x/>".into()),
        Amf3Value::XmlDocument("<y/>".into()),
        Amf3Value::Date(d(42.0)),
        Amf3Value::ByteArray(vec![1, 2, 3]),
        Amf3Value::Array(Amf3Array {
            assoc: vec![("k".into(), Amf3Value::String("k".into()))],
            dense: vec![Amf3Value::Integer(9), Amf3Value::Null],
        }),
        Amf3Value::Object(Amf3Object {
            class_name: "C".into(),
            dynamic: true,
            externalizable: false,
            sealed_names: vec!["s".into()],
            sealed_values: vec![Amf3Value::Boolean(false)],
            dynamic_members: vec![("d".into(), Amf3Value::Double(d(1.0)))],
        }),
    ];
    for v in &corpus {
        let mut e1 = Vec::new();
        write_amf3_value(&mut e1, v).unwrap();
        let (back, p) = parse_amf3_value(&e1, 0).unwrap();
        assert_eq!(p, e1.len(), "value {v:?} left trailing bytes");
        assert_eq!(&back, v, "value {v:?} drifted across encode→decode");
        let mut e2 = Vec::new();
        write_amf3_value(&mut e2, &back).unwrap();
        assert_eq!(e1, e2, "value {v:?} encoding is not a fixed point");
    }
}

#[test]
fn decode_then_encode_is_byte_identity() {
    let mut b = vec![0x09];
    b.extend_from_slice(&u29_lit_len(0));
    b.extend_from_slice(&u29_lit_len(2));
    b.extend_from_slice(b"ab");
    b.push(0x06);
    b.extend_from_slice(&u29_ref(0));
    b.extend_from_slice(&u29_lit_len(0));
    let (v, p) = parse_amf3_value(&b, 0).unwrap();
    assert_eq!(p, b.len());
    let mut out = Vec::new();
    write_amf3_value(&mut out, &v).unwrap();
    assert_eq!(out, b, "re-encode did not reproduce the canonical bytes");
}

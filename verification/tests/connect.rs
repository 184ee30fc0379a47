use flv::connect::{COMMAND_NAME, CapsExMask, ConnectCommandObject, FOURCC_WILDCARD, FourCcInfoMask, ScalarValue, parse_connect_command, write_command_object, write_connect_command};
use flv::amf0;
use flv::double::Double;

fn d(x: f64) -> Double {
    Double { bits: x.to_bits() }
}

#[test]
fn masks_match_spec_bit_values() {
    assert_eq!(FourCcInfoMask::CAN_DECODE, 0x01);
    assert_eq!(FourCcInfoMask::CAN_ENCODE, 0x02);
    assert_eq!(FourCcInfoMask::CAN_FORWARD, 0x04);
    assert_eq!(CapsExMask::RECONNECT, 0x01);
    assert_eq!(CapsExMask::MULTITRACK, 0x02);
    assert_eq!(CapsExMask::MOD_EX, 0x04);
    assert_eq!(CapsExMask::TIMESTAMP_NANO_OFFSET, 0x08);
}

#[test]
fn command_body_starts_with_name_and_txn() {
    let obj = ConnectCommandObject::new().caps_ex(CapsExMask::RECONNECT);
    let bytes = write_connect_command(d(1.0), &obj).unwrap();

    assert_eq!(bytes[0], 0x02);
    assert_eq!(u16::from_be_bytes([bytes[1], bytes[2]]), 7);
    assert_eq!(&bytes[3..10], b"connect");

    assert_eq!(bytes[10], 0x00);
    assert_eq!(&bytes[11..19], &1.0f64.to_be_bytes());

    assert_eq!(bytes[19], 0x03);
}

#[test]
fn full_connect_round_trips() {
    let obj = ConnectCommandObject::new()
        .string("app", "live")
        .string("tcUrl", "rtmp://127.0.0.1/live")
        .number("objectEncoding", d(0.0))
        .four_cc_list(&["av01", "hvc1", "Opus"])
        .video_codec(
            "vp09",
            FourCcInfoMask::CAN_DECODE | FourCcInfoMask::CAN_ENCODE,
        )
        .audio_codec("Opus", FourCcInfoMask::CAN_DECODE)
        .caps_ex(CapsExMask::RECONNECT | CapsExMask::MULTITRACK);
    let bytes = write_connect_command(d(1.0), &obj).unwrap();
    let back = parse_connect_command(&bytes).unwrap();
    assert_eq!(back, obj);
    assert!(back.supports_reconnect());
    assert!(back.supports_multitrack());
}

#[test]
fn wildcard_four_cc_list_round_trips() {
    let obj = ConnectCommandObject::new().four_cc_list_wildcard();
    let bytes = write_connect_command(d(1.0), &obj).unwrap();
    let back = parse_connect_command(&bytes).unwrap();
    assert_eq!(
        back.four_cc_list.as_deref(),
        Some(&[FOURCC_WILDCARD.to_string()][..])
    );
}

#[test]
fn info_map_preserves_wildcard_and_order() {
    let obj = ConnectCommandObject::new()
        .video_codec(FOURCC_WILDCARD, FourCcInfoMask::CAN_FORWARD)
        .video_codec(
            "vp09",
            FourCcInfoMask::CAN_DECODE | FourCcInfoMask::CAN_ENCODE,
        );
    let bytes = write_connect_command(d(1.0), &obj).unwrap();
    let back = parse_connect_command(&bytes).unwrap();
    let map = back.video_four_cc_info_map.unwrap();
    assert_eq!(map[0], ("*".to_string(), FourCcInfoMask::CAN_FORWARD));
    assert_eq!(
        map[1],
        (
            "vp09".to_string(),
            FourCcInfoMask::CAN_DECODE | FourCcInfoMask::CAN_ENCODE
        )
    );
}

#[test]
fn extra_properties_survive_in_order() {
    let obj = ConnectCommandObject::new()
        .string("app", "myapp")
        .number("audioCodecs", d(4071.0))
        .number("videoCodecs", d(252.0))
        .boolean("fpad", false);
    let bytes = write_connect_command(d(1.0), &obj).unwrap();
    let back = parse_connect_command(&bytes).unwrap();
    assert_eq!(
        back.extra,
        vec![
            ("app".to_string(), ScalarValue::Str("myapp".to_string())),
            ("audioCodecs".to_string(), ScalarValue::Num(d(4071.0))),
            ("videoCodecs".to_string(), ScalarValue::Num(d(252.0))),
            ("fpad".to_string(), ScalarValue::Bool(false)),
        ]
    );
}

#[test]
fn caps_ex_all_bits_round_trip() {
    let obj = ConnectCommandObject::new().caps_ex(CapsExMask::ALL);
    let bytes = write_connect_command(d(1.0), &obj).unwrap();
    let back = parse_connect_command(&bytes).unwrap();
    assert_eq!(back.caps_ex, Some(CapsExMask::ALL));
    assert!(back.supports_reconnect());
    assert!(back.supports_multitrack());
}

#[test]
fn reserved_caps_ex_bits_preserved() {
    let obj = ConnectCommandObject::new().caps_ex(CapsExMask::RECONNECT | 0x10);
    let bytes = write_connect_command(d(1.0), &obj).unwrap();
    let back = parse_connect_command(&bytes).unwrap();
    assert_eq!(back.caps_ex, Some(CapsExMask::RECONNECT | 0x10));
}

#[test]
fn absent_properties_stay_none() {
    let obj = ConnectCommandObject::new().string("app", "live");
    let bytes = write_connect_command(d(1.0), &obj).unwrap();
    let back = parse_connect_command(&bytes).unwrap();
    assert!(back.four_cc_list.is_none());
    assert!(back.video_four_cc_info_map.is_none());
    assert!(back.audio_four_cc_info_map.is_none());
    assert!(back.caps_ex.is_none());
    assert!(!back.supports_reconnect());
}

#[test]
fn connect_parse_rejects_wrong_command_name() {
    let mut bytes = Vec::new();
    amf0::write_string(&mut bytes, "onStatus").unwrap();
    amf0::write_number(&mut bytes, d(1.0)).unwrap();
    write_command_object(&mut bytes, &ConnectCommandObject::new()).unwrap();
    let err = parse_connect_command(&bytes).unwrap_err();
    assert!(err.message().contains("connect"));
}

#[test]
fn parse_ignores_non_scalar_info_map_entries() {
    let mut bytes = Vec::new();
    amf0::write_string(&mut bytes, COMMAND_NAME).unwrap();
    amf0::write_number(&mut bytes, d(1.0)).unwrap();
    amf0::write_object_start(&mut bytes).unwrap();
    amf0::write_property_name(&mut bytes, "videoFourCcInfoMap").unwrap();
    amf0::write_object_start(&mut bytes).unwrap();
    amf0::write_property_name(&mut bytes, "vp09").unwrap();
    amf0::write_number(&mut bytes, d(f64::from(FourCcInfoMask::CAN_DECODE))).unwrap();
    amf0::write_property_name(&mut bytes, "bogus").unwrap();
    amf0::write_string(&mut bytes, "not-a-number").unwrap();
    amf0::write_object_end(&mut bytes).unwrap();
    amf0::write_object_end(&mut bytes).unwrap();

    let back = parse_connect_command(&bytes).unwrap();
    let map = back.video_four_cc_info_map.unwrap();
    assert_eq!(map, vec![("vp09".to_string(), FourCcInfoMask::CAN_DECODE)]);
}

#[test]
fn out_of_range_caps_ex_clamps_to_zero() {
    let mut bytes = Vec::new();
    amf0::write_string(&mut bytes, COMMAND_NAME).unwrap();
    amf0::write_number(&mut bytes, d(1.0)).unwrap();
    amf0::write_object_start(&mut bytes).unwrap();
    amf0::write_property_name(&mut bytes, "capsEx").unwrap();
    amf0::write_number(&mut bytes, d(f64::INFINITY)).unwrap();
    amf0::write_object_end(&mut bytes).unwrap();

    let back = parse_connect_command(&bytes).unwrap();
    assert_eq!(back.caps_ex, Some(0));
}

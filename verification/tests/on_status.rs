use flv::on_status::{CODE_RECONNECT_REQUEST, COMMAND_NAME, LEVEL_STATUS, OnStatusInfo, parse_on_status_command, reconnect_request, write_info_object, write_on_status_command};
use flv::amf0;
use flv::double::Double;

fn d(x: f64) -> Double {
    Double { bits: x.to_bits() }
}

#[test]
fn reconnect_request_fills_mandated_code_and_level() {
    let info = reconnect_request(Some("rtmp://foo.example/app"), None);
    assert_eq!(info.code, CODE_RECONNECT_REQUEST);
    assert_eq!(info.level, LEVEL_STATUS);
    assert_eq!(info.tc_url.as_deref(), Some("rtmp://foo.example/app"));
    assert!(info.description.is_none());
    assert!(info.is_reconnect_request());
}

#[test]
fn command_body_starts_with_name_txn_null() {
    let info = reconnect_request(None, None);
    let bytes = write_on_status_command(&info).unwrap();

    assert_eq!(bytes[0], 0x02);
    assert_eq!(u16::from_be_bytes([bytes[1], bytes[2]]), 8);
    assert_eq!(&bytes[3..11], b"onStatus");

    assert_eq!(bytes[11], 0x00);
    assert_eq!(&bytes[12..20], &0.0f64.to_be_bytes());

    assert_eq!(bytes[20], 0x05);

    assert_eq!(bytes[21], 0x03);
}

#[test]
fn full_reconnect_round_trips() {
    let info = reconnect_request(
        Some("rtmp://127.0.0.1/realtimeapp"),
        Some("The streaming server is undergoing updates."),
    );
    let bytes = write_on_status_command(&info).unwrap();
    let back = parse_on_status_command(&bytes).unwrap();
    assert_eq!(back, info);
    assert!(back.is_reconnect_request());
}

#[test]
fn base_status_without_optionals_round_trips() {
    let info = OnStatusInfo::new("NetConnection.Connect.Success", LEVEL_STATUS);
    let bytes = write_on_status_command(&info).unwrap();
    let back = parse_on_status_command(&bytes).unwrap();
    assert_eq!(back.code, "NetConnection.Connect.Success");
    assert_eq!(back.level, "status");
    assert!(back.description.is_none());
    assert!(back.tc_url.is_none());
    assert_eq!(back, info);
}

#[test]
fn extra_properties_survive_round_trip_in_order() {
    let info = OnStatusInfo::new("NetConnection.Connect.Closed", LEVEL_STATUS)
        .description("closed cleanly")
        .property("clientId", "abc-123")
        .property("region", "us-east");
    let bytes = write_on_status_command(&info).unwrap();
    let back = parse_on_status_command(&bytes).unwrap();
    assert_eq!(
        back.extra,
        vec![
            ("clientId".to_string(), "abc-123".to_string()),
            ("region".to_string(), "us-east".to_string()),
        ]
    );
    assert_eq!(back, info);
}

#[test]
fn property_order_in_body_is_tcurl_code_description_level() {
    let info = reconnect_request(Some("rtmp://s/app"), Some("d"));
    let mut body = Vec::new();
    write_info_object(&mut body, &info).unwrap();

    assert_eq!(body[0], 0x03);

    let len = u16::from_be_bytes([body[1], body[2]]) as usize;
    assert_eq!(&body[3..3 + len], b"tcUrl");
}

#[test]
fn on_status_parse_rejects_wrong_command_name() {
    let mut bytes = Vec::new();
    amf0::write_string(&mut bytes, "onMetaData").unwrap();
    amf0::write_number(&mut bytes, d(0.0)).unwrap();
    amf0::write_null(&mut bytes).unwrap();
    write_info_object(&mut bytes, &OnStatusInfo::new("x", "status")).unwrap();
    let err = parse_on_status_command(&bytes).unwrap_err();
    assert!(err.message().contains("onStatus"));
}

#[test]
fn parse_ignores_non_string_info_properties() {
    let mut bytes = Vec::new();
    amf0::write_string(&mut bytes, COMMAND_NAME).unwrap();
    amf0::write_number(&mut bytes, d(0.0)).unwrap();
    amf0::write_null(&mut bytes).unwrap();
    amf0::write_object_start(&mut bytes).unwrap();
    amf0::write_property_name(&mut bytes, "code").unwrap();
    amf0::write_string(&mut bytes, CODE_RECONNECT_REQUEST).unwrap();
    amf0::write_property_name(&mut bytes, "level").unwrap();
    amf0::write_string(&mut bytes, LEVEL_STATUS).unwrap();
    amf0::write_property_name(&mut bytes, "retryAfter").unwrap();
    amf0::write_number(&mut bytes, d(5.0)).unwrap();
    amf0::write_object_end(&mut bytes).unwrap();

    let back = parse_on_status_command(&bytes).unwrap();
    assert!(back.is_reconnect_request());

    assert!(back.extra.is_empty());
}

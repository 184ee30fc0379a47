use flv::amf0::{AmfValue, parse_amf0_value};
use flv::error::Error;
use flv::script::{CuePointParams, CuePointType, MetaValue, MetadataBag, ObjectBuilder, TrackInfo, TrackInfoMap, write_on_cue_point, write_on_cue_point_body, write_on_metadata, write_on_metadata_body, write_on_xmp_data, write_on_xmp_data_body};
use flv::double::Double;

fn d(x: f64) -> Double {
    Double { bits: x.to_bits() }
}

#[test]
fn bag_preserves_insertion_order() {
    let bag = MetadataBag::new()
        .number("duration", d(2.0))
        .boolean("stereo", true)
        .string("encoder", "oxideav-flv");
    let keys: Vec<&str> = bag.entries().iter().map(|(k, _)| k.as_str()).collect();
    assert_eq!(keys, ["duration", "stereo", "encoder"]);
}

#[test]
fn body_parses_back_as_name_then_ecma_array() {
    let bag = MetadataBag::new()
        .number("duration", d(2.0))
        .number("width", d(320.0))
        .boolean("stereo", true)
        .string("encoder", "oxideav-flv");
    let mut body = Vec::new();
    write_on_metadata_body(&mut body, &bag).unwrap();

    let (name, p) = parse_amf0_value(&body, 0).unwrap();
    assert_eq!(name, AmfValue::String("onMetaData".into()));

    let (value, np) = parse_amf0_value(&body, p).unwrap();
    assert_eq!(np, body.len());
    match value {
        AmfValue::EcmaArray(props) => {
            assert_eq!(props.len(), 4);
            assert_eq!(props[0], ("duration".into(), AmfValue::Number(d(2.0))));
            assert_eq!(props[1], ("width".into(), AmfValue::Number(d(320.0))));
            assert_eq!(props[2], ("stereo".into(), AmfValue::Boolean(true)));
            assert_eq!(
                props[3],
                ("encoder".into(), AmfValue::String("oxideav-flv".into()))
            );
        }
        other => panic!("expected ecma array, got {other:?}"),
    }
}

#[test]
fn date_property_round_trips_through_parser() {
    let bag = MetadataBag::new().number("duration", d(2.0)).date(
        "creationdate",
        d(1_735_689_600_000.0),
        540,
    );
    let mut body = Vec::new();
    write_on_metadata_body(&mut body, &bag).unwrap();

    let (name, p) = parse_amf0_value(&body, 0).unwrap();
    assert_eq!(name, AmfValue::String("onMetaData".into()));
    let (value, np) = parse_amf0_value(&body, p).unwrap();
    assert_eq!(np, body.len());
    match value {
        AmfValue::EcmaArray(props) => {
            assert_eq!(props.len(), 2);
            assert_eq!(props[0], ("duration".into(), AmfValue::Number(d(2.0))));
            assert_eq!(
                props[1],
                (
                    "creationdate".into(),
                    AmfValue::Date {
                        time_ms: d(1_735_689_600_000.0),
                        tz: 540
                    }
                )
            );
        }
        other => panic!("expected ecma array, got {other:?}"),
    }
}

#[test]
fn date_property_rejects_non_finite_time() {
    let bag = MetadataBag::new().date("creationdate", d(f64::NAN), 0);
    let mut body = Vec::new();
    assert!(matches!(
        write_on_metadata_body(&mut body, &bag),
        Err(Error::InvalidData(_))
    ));
}

#[test]
fn keyframes_property_round_trips_through_parser() {
    let bag = MetadataBag::new()
        .number("duration", d(2.0))
        .keyframes(vec![13, 8_192], vec![d(0.0), d(1.0)]);
    let mut body = Vec::new();
    write_on_metadata_body(&mut body, &bag).unwrap();

    let (name, p) = parse_amf0_value(&body, 0).unwrap();
    assert_eq!(name, AmfValue::String("onMetaData".into()));

    let (value, np) = parse_amf0_value(&body, p).unwrap();
    assert_eq!(np, body.len());
    let props = match value {
        AmfValue::EcmaArray(props) => props,
        other => panic!("expected ecma array, got {other:?}"),
    };
    assert_eq!(props.len(), 2);
    assert_eq!(props[0].0, "duration");
    assert_eq!(props[1].0, "keyframes");

    let kf_entries = match &props[1].1 {
        AmfValue::Object(entries) => entries,
        other => panic!("expected anonymous object, got {other:?}"),
    };
    assert_eq!(kf_entries.len(), 2);
    assert_eq!(kf_entries[0].0, "filepositions");
    assert_eq!(kf_entries[1].0, "times");
    match &kf_entries[0].1 {
        AmfValue::StrictArray(vs) => {
            assert_eq!(vs, &vec![AmfValue::Number(d(13.0)), AmfValue::Number(d(8_192.0))]);
        }
        other => panic!("filepositions: expected strict array, got {other:?}"),
    }
    match &kf_entries[1].1 {
        AmfValue::StrictArray(vs) => {
            assert_eq!(vs, &vec![AmfValue::Number(d(0.0)), AmfValue::Number(d(1.0))]);
        }
        other => panic!("times: expected strict array, got {other:?}"),
    }
}

#[test]
fn keyframes_rejects_length_mismatch() {
    let bag = MetadataBag::new().keyframes(vec![13, 8_192], vec![d(0.0)]);
    let err = write_on_metadata_body(&mut Vec::new(), &bag).unwrap_err();
    let msg = err.message();
    assert!(msg.contains("length mismatch"), "got {msg}");
}

#[test]
fn keyframes_rejects_empty_arrays() {
    let bag = MetadataBag::new().keyframes(Vec::new(), Vec::new());
    let err = write_on_metadata_body(&mut Vec::new(), &bag).unwrap_err();
    let msg = err.message();
    assert!(msg.contains("non-empty"), "got {msg}");
}

#[test]
fn keyframes_rejects_non_monotonic_times() {
    let bag = MetadataBag::new().keyframes(vec![13, 8_192], vec![d(1.0), d(0.5)]);
    let err = write_on_metadata_body(&mut Vec::new(), &bag).unwrap_err();
    let msg = err.message();
    assert!(msg.contains("ascending"), "got {msg}");
}

#[test]
fn keyframes_accepts_equal_timestamps() {
    let bag = MetadataBag::new().keyframes(vec![13, 14], vec![d(0.500), d(0.500)]);
    let mut body = Vec::new();
    write_on_metadata_body(&mut body, &bag).expect("equal timestamps allowed");
    assert!(!body.is_empty());
}

#[test]
fn keyframes_rejects_non_finite_time() {
    let bag = MetadataBag::new().keyframes(vec![13, 8_192], vec![d(0.0), d(f64::NAN)]);
    let err = write_on_metadata_body(&mut Vec::new(), &bag).unwrap_err();
    let msg = err.message();
    assert!(msg.contains("finite"), "got {msg}");
}

#[test]
fn keyframes_rejects_position_above_2pow53() {
    let just_too_big = (1u64 << 53) + 1;
    let bag = MetadataBag::new().keyframes(vec![13, just_too_big], vec![d(0.0), d(1.0)]);
    let err = write_on_metadata_body(&mut Vec::new(), &bag).unwrap_err();
    let msg = err.message();
    assert!(
        msg.contains("2^53") || msg.contains("would round"),
        "got {msg}"
    );
}

#[test]
fn keyframes_accepts_position_at_2pow53_boundary() {
    let bag = MetadataBag::new().keyframes(vec![13, 1u64 << 53], vec![d(0.0), d(1.0)]);
    let mut body = Vec::new();
    write_on_metadata_body(&mut body, &bag).expect("2^53 is the boundary, allowed");
    assert!(!body.is_empty());
}

#[test]
fn full_tag_has_script_tagtype_and_consistent_size() {
    let bag = MetadataBag::new().number("duration", d(1.0));
    let mut out = Vec::new();
    let total = write_on_metadata(&mut out, &bag).unwrap();
    assert_eq!(total as usize, out.len());

    assert_eq!(out[0], 0x12);

    let data_size = ((out[1] as u32) << 16) | ((out[2] as u32) << 8) | (out[3] as u32);
    assert_eq!(data_size, total - 15);

    let trailer = u32::from_be_bytes([
        out[out.len() - 4],
        out[out.len() - 3],
        out[out.len() - 2],
        out[out.len() - 1],
    ]);
    assert_eq!(trailer, 11 + data_size);
}

#[test]
fn on_cue_point_body_round_trips_through_parser() {
    let cue = CuePointParams::new("chapter-1", d(12.5), CuePointType::Navigation)
        .parameter("title", "Intro")
        .parameter("section", "A");
    let mut body = Vec::new();
    write_on_cue_point_body(&mut body, &cue).unwrap();

    let (name, p) = parse_amf0_value(&body, 0).unwrap();
    assert_eq!(name, AmfValue::String("onCuePoint".into()));

    let (value, np) = parse_amf0_value(&body, p).unwrap();
    assert_eq!(np, body.len());
    let entries = match value {
        AmfValue::Object(b) => b,
        other => panic!("expected anonymous object, got {other:?}"),
    };

    assert_eq!(entries.len(), 4);
    assert_eq!(
        entries[0],
        ("name".into(), AmfValue::String("chapter-1".into()))
    );
    assert_eq!(entries[1], ("time".into(), AmfValue::Number(d(12.5))));
    assert_eq!(
        entries[2],
        ("type".into(), AmfValue::String("navigation".into()))
    );
    let params = match &entries[3].1 {
        AmfValue::Object(b) => b,
        other => panic!("parameters: expected anonymous object, got {other:?}"),
    };
    assert_eq!(entries[3].0, "parameters");
    assert_eq!(params.len(), 2);
    assert_eq!(
        params[0],
        ("title".into(), AmfValue::String("Intro".into()))
    );
    assert_eq!(params[1], ("section".into(), AmfValue::String("A".into())));
}

#[test]
fn on_cue_point_typed_parameters_round_trip_through_parser() {
    let cue = CuePointParams::new("ad-break", d(30.0), CuePointType::Event)
        .parameter("label", "midroll")
        .parameter_typed("duration", MetaValue::Number(d(15.0)))
        .parameter_typed("skippable", MetaValue::Boolean(true))
        .parameter_typed(
            "meta",
            ObjectBuilder::new().string("campaign", "summer").build(),
        );
    let mut body = Vec::new();
    write_on_cue_point_body(&mut body, &cue).unwrap();
    let (_, p) = parse_amf0_value(&body, 0).unwrap();
    let (value, np) = parse_amf0_value(&body, p).unwrap();
    assert_eq!(np, body.len());
    let entries = match value {
        AmfValue::Object(b) => b,
        other => panic!("expected object, got {other:?}"),
    };
    let params = match &entries[3].1 {
        AmfValue::Object(b) => b,
        other => panic!("parameters: expected object, got {other:?}"),
    };
    assert_eq!(params.len(), 4);
    assert_eq!(
        params[0],
        ("label".into(), AmfValue::String("midroll".into()))
    );
    assert_eq!(params[1], ("duration".into(), AmfValue::Number(d(15.0))));
    assert_eq!(params[2], ("skippable".into(), AmfValue::Boolean(true)));
    match &params[3].1 {
        AmfValue::Object(inner) => {
            assert_eq!(
                inner[0],
                ("campaign".into(), AmfValue::String("summer".into()))
            );
        }
        other => panic!("meta: expected object, got {other:?}"),
    }
}

#[test]
fn on_cue_point_event_emits_event_string() {
    let cue = CuePointParams::new("ad-1", d(30.0), CuePointType::Event);
    let mut body = Vec::new();
    write_on_cue_point_body(&mut body, &cue).unwrap();
    let (_, p) = parse_amf0_value(&body, 0).unwrap();
    let (value, _) = parse_amf0_value(&body, p).unwrap();
    let entries = match value {
        AmfValue::Object(b) => b,
        other => panic!("expected object, got {other:?}"),
    };
    assert_eq!(entries[2].0, "type");
    assert_eq!(entries[2].1, AmfValue::String("event".into()));
}

#[test]
fn on_cue_point_empty_parameters_round_trip() {
    let cue = CuePointParams::new("mark", d(0.0), CuePointType::Event);
    let mut body = Vec::new();
    write_on_cue_point_body(&mut body, &cue).unwrap();
    let (_, p) = parse_amf0_value(&body, 0).unwrap();
    let (value, np) = parse_amf0_value(&body, p).unwrap();
    assert_eq!(np, body.len());
    let entries = match value {
        AmfValue::Object(b) => b,
        other => panic!("expected object, got {other:?}"),
    };
    let params = match &entries[3].1 {
        AmfValue::Object(b) => b,
        other => panic!("expected object, got {other:?}"),
    };
    assert!(params.is_empty());
}

#[test]
fn on_cue_point_rejects_non_finite_time() {
    let cue = CuePointParams::new("nan", d(f64::NAN), CuePointType::Event);
    let err = write_on_cue_point_body(&mut Vec::new(), &cue).unwrap_err();
    let msg = err.message();
    assert!(msg.contains("finite"), "got {msg}");
}

#[test]
fn on_cue_point_full_tag_has_correct_timestamp_and_size() {
    let cue = CuePointParams::new("c", d(1.0), CuePointType::Event);
    let mut out = Vec::new();
    let total = write_on_cue_point(&mut out, 1_000, &cue).unwrap();
    assert_eq!(total as usize, out.len());

    assert_eq!(out[0], 0x12);

    let ts = ((out[4] as u32) << 16) | ((out[5] as u32) << 8) | (out[6] as u32);
    assert_eq!(ts, 1_000);
    assert_eq!(out[7], 0);

    let data_size = ((out[1] as u32) << 16) | ((out[2] as u32) << 8) | (out[3] as u32);
    assert_eq!(data_size, total - 15);
}

#[test]
fn on_xmp_data_body_round_trips_through_parser() {
    let xml = "<x:xmpmeta xmlns:x=\"adobe:ns:meta/\">hi</x:xmpmeta>";
    let mut body = Vec::new();
    write_on_xmp_data_body(&mut body, xml).unwrap();

    let (name, p) = parse_amf0_value(&body, 0).unwrap();
    assert_eq!(name, AmfValue::String("onXMPData".into()));
    let (value, np) = parse_amf0_value(&body, p).unwrap();
    assert_eq!(np, body.len());
    let entries = match value {
        AmfValue::Object(b) => b,
        other => panic!("expected anonymous object, got {other:?}"),
    };

    assert_eq!(entries.len(), 1);
    assert_eq!(entries[0], ("liveXML".into(), AmfValue::String(xml.into())));
}

#[test]
fn on_xmp_data_full_tag_has_script_tagtype() {
    let mut out = Vec::new();
    write_on_xmp_data(&mut out, 0, "<x>x</x>").unwrap();

    assert_eq!(out[0], 0x12);
}

#[test]
fn cue_point_type_wire_strings_match_demuxer_expectation() {
    assert_eq!(CuePointType::Event.as_str(), "event");
    assert_eq!(CuePointType::Navigation.as_str(), "navigation");
}

fn parse_meta_props(body: &[u8]) -> Vec<(String, AmfValue)> {
    let (name, p) = parse_amf0_value(body, 0).unwrap();
    assert_eq!(name, AmfValue::String("onMetaData".into()));
    let (value, np) = parse_amf0_value(body, p).unwrap();
    assert_eq!(np, body.len(), "ECMA array must consume the body exactly");
    match value {
        AmfValue::EcmaArray(props) => props,
        other => panic!("expected ecma array, got {other:?}"),
    }
}

#[test]
fn nested_object_property_round_trips_through_parser() {
    let bag = MetadataBag::new().number("duration", d(2.0)).object(
        "producerInfo",
        ObjectBuilder::new()
            .string("name", "oxideav")
            .number("buildno", d(42.0))
            .build(),
    );
    let mut body = Vec::new();
    write_on_metadata_body(&mut body, &bag).unwrap();

    let props = parse_meta_props(&body);
    assert_eq!(props.len(), 2);
    assert_eq!(props[0], ("duration".into(), AmfValue::Number(d(2.0))));
    match &props[1] {
        (k, AmfValue::Object(inner)) if k == "producerInfo" => {
            assert_eq!(
                inner[0],
                ("name".into(), AmfValue::String("oxideav".into()))
            );
            assert_eq!(inner[1], ("buildno".into(), AmfValue::Number(d(42.0))));
        }
        other => panic!("expected producerInfo object, got {other:?}"),
    }
}

#[test]
fn nested_object_recurses() {
    let bag = MetadataBag::new().object(
        "outer",
        ObjectBuilder::new()
            .object("inner", ObjectBuilder::new().number("leaf", d(7.0)).build())
            .build(),
    );
    let mut body = Vec::new();
    write_on_metadata_body(&mut body, &bag).unwrap();
    let props = parse_meta_props(&body);
    let outer = match &props[0] {
        (k, AmfValue::Object(b)) if k == "outer" => b,
        other => panic!("expected outer, got {other:?}"),
    };
    let inner = match &outer[0] {
        (k, AmfValue::Object(b)) if k == "inner" => b,
        other => panic!("expected inner, got {other:?}"),
    };
    assert_eq!(inner[0], ("leaf".into(), AmfValue::Number(d(7.0))));
}

#[test]
fn video_track_info_map_emits_spec_property_names_and_keys() {
    let map = TrackInfoMap::new()
        .track(
            1,
            TrackInfo::new()
                .width(1024)
                .height(768)
                .video_data_rate_kbps(d(2000.0))
                .video_codec_id(1_635_135_537),
        )
        .track(2, TrackInfo::new().width(3840).height(2160));
    let bag = MetadataBag::new().video_track_info_map(&map);
    let mut body = Vec::new();
    write_on_metadata_body(&mut body, &bag).unwrap();

    let props = parse_meta_props(&body);
    assert_eq!(props.len(), 1);
    let outer = match &props[0] {
        (k, AmfValue::Object(b)) if k == "videoTrackIdInfoMap" => b,
        other => panic!("expected videoTrackIdInfoMap, got {other:?}"),
    };

    assert_eq!(outer[0].0, "1");
    assert_eq!(outer[1].0, "2");
    let t1 = match &outer[0].1 {
        AmfValue::Object(b) => b,
        other => panic!("expected track1 object, got {other:?}"),
    };
    assert_eq!(t1[0], ("width".into(), AmfValue::Number(d(1024.0))));
    assert_eq!(t1[1], ("height".into(), AmfValue::Number(d(768.0))));
    assert_eq!(t1[2], ("videodatarate".into(), AmfValue::Number(d(2000.0))));
    assert_eq!(
        t1[3],
        ("videocodecid".into(), AmfValue::Number(d(1_635_135_537.0)))
    );

    let t2 = match &outer[1].1 {
        AmfValue::Object(b) => b,
        other => panic!("expected track2 object, got {other:?}"),
    };
    assert_eq!(t2.len(), 2);
    assert_eq!(t2[0], ("width".into(), AmfValue::Number(d(3840.0))));
    assert_eq!(t2[1], ("height".into(), AmfValue::Number(d(2160.0))));
}

#[test]
fn audio_track_info_map_emits_audio_property_names() {
    let map = TrackInfoMap::new().track(
        1,
        TrackInfo::new()
            .audio_data_rate_kbps(d(256.0))
            .channels(2)
            .audio_sample_rate(d(44_100.0))
            .audio_codec_id(1_297_377_380),
    );
    let bag = MetadataBag::new().audio_track_info_map(&map);
    let mut body = Vec::new();
    write_on_metadata_body(&mut body, &bag).unwrap();
    let props = parse_meta_props(&body);
    let outer = match &props[0] {
        (k, AmfValue::Object(b)) if k == "audioTrackIdInfoMap" => b,
        other => panic!("expected audioTrackIdInfoMap, got {other:?}"),
    };
    let t1 = match &outer[0].1 {
        AmfValue::Object(b) => b,
        other => panic!("expected track1 object, got {other:?}"),
    };
    assert_eq!(t1[0], ("audiodatarate".into(), AmfValue::Number(d(256.0))));
    assert_eq!(t1[1], ("channels".into(), AmfValue::Number(d(2.0))));
    assert_eq!(t1[2], ("samplerate".into(), AmfValue::Number(d(44_100.0))));
    assert_eq!(t1[3].0, "audiocodecid");
}

#[test]
fn track_info_map_ignores_cross_kind_fields() {
    let map = TrackInfoMap::new().track(1, TrackInfo::new().width(640).channels(6));
    let bag = MetadataBag::new().video_track_info_map(&map);
    let mut body = Vec::new();
    write_on_metadata_body(&mut body, &bag).unwrap();
    let props = parse_meta_props(&body);
    let outer = match &props[0] {
        (_, AmfValue::Object(b)) => b,
        other => panic!("expected object, got {other:?}"),
    };
    let t1 = match &outer[0].1 {
        AmfValue::Object(b) => b,
        other => panic!("expected track object, got {other:?}"),
    };

    assert_eq!(t1.len(), 1);
    assert_eq!(t1[0].0, "width");
}

#[test]
fn empty_track_info_map_emits_empty_object() {
    let bag = MetadataBag::new().video_track_info_map(&TrackInfoMap::new());
    let mut body = Vec::new();
    write_on_metadata_body(&mut body, &bag).unwrap();
    let props = parse_meta_props(&body);
    match &props[0] {
        (k, AmfValue::Object(b)) if k == "videoTrackIdInfoMap" => assert!(b.is_empty()),
        other => panic!("expected empty videoTrackIdInfoMap, got {other:?}"),
    }
}

#[test]
fn null_undefined_xml_round_trip_through_parser() {
    let bag = MetadataBag::new()
        .null("a")
        .undefined("b")
        .xml("c", "<x>hi</x>");
    let mut body = Vec::new();
    write_on_metadata_body(&mut body, &bag).unwrap();
    let props = parse_meta_props(&body);
    assert_eq!(props[0], ("a".into(), AmfValue::Null));
    assert_eq!(props[1], ("b".into(), AmfValue::Undefined));
    assert_eq!(props[2], ("c".into(), AmfValue::Xml("<x>hi</x>".into())));
}

#[test]
fn ecma_array_value_round_trips_through_parser() {
    let bag = MetadataBag::new().object(
        "wrapped",
        MetaValue::EcmaArray(vec![
            ("k1".into(), MetaValue::Number(d(1.0))),
            ("k2".into(), MetaValue::String("v".into())),
        ]),
    );
    let mut body = Vec::new();
    write_on_metadata_body(&mut body, &bag).unwrap();
    let props = parse_meta_props(&body);
    match &props[0] {
        (k, AmfValue::EcmaArray(inner)) if k == "wrapped" => {
            assert_eq!(inner[0], ("k1".into(), AmfValue::Number(d(1.0))));
            assert_eq!(inner[1], ("k2".into(), AmfValue::String("v".into())));
        }
        other => panic!("expected ecma array, got {other:?}"),
    }
}

#[test]
fn strict_array_mixed_values_round_trips_through_parser() {
    let bag = MetadataBag::new().strict_array(
        "list",
        vec![
            MetaValue::Number(d(3.0)),
            MetaValue::String("x".into()),
            MetaValue::Boolean(true),
            MetaValue::Null,
        ],
    );
    let mut body = Vec::new();
    write_on_metadata_body(&mut body, &bag).unwrap();
    let props = parse_meta_props(&body);
    match &props[0] {
        (k, AmfValue::StrictArray(items)) if k == "list" => {
            assert_eq!(items.len(), 4);
            assert_eq!(items[0], AmfValue::Number(d(3.0)));
            assert_eq!(items[1], AmfValue::String("x".into()));
            assert_eq!(items[2], AmfValue::Boolean(true));
            assert_eq!(items[3], AmfValue::Null);
        }
        other => panic!("expected strict array, got {other:?}"),
    }
}

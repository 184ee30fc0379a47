use flv::amf0::{self, parse_amf0_value};
use flv::amf3::{parse_amf3_value, write_amf3_value, Amf3Array, Amf3Object, Amf3Value};
use flv::color_info::{ColorConfig, ColorInfo, HdrCll, HdrMdcv};
use flv::connect::parse_connect_command;
use flv::demuxer::stream::{build_audio_stream, build_video_stream};
use flv::double::Double;
use flv::error::{ColorField, Error, Fault};
use flv::ex_audio::{ExAudioPacketType, ExAudioTagHeader, FOURCC_OPUS};
use flv::ex_video::{
    ExFrameType, ExPacketType, ExVideoTagHeader, VideoCommand, FOURCC_AV01, FOURCC_HVC1,
};
use flv::header::FlvHeader;
use flv::mod_ex::{emit, encode_size, walk, ModExEntry, ModExPayload};
use flv::multichannel::{AudioChannel, AudioChannelOrder, MultichannelConfig};
use flv::multitrack::{join_tracks, split_tracks, AvMultitrackType, JoinTrack};
use flv::on_status::parse_on_status_command;
use flv::script::{
    write_on_cue_point_body, write_on_metadata_body, CuePointParams, CuePointType, MetadataBag,
};
use flv::tag::filter::EncryptedTagPreamble;
use flv::tag::{write_avc_nalu_tag, write_tag, TagType};

fn d(x: f64) -> Double {
    Double { bits: x.to_bits() }
}

fn bad<T>(f: Fault) -> Result<T, Error> {
    Err(Error::InvalidData(f))
}

#[test]
fn amf0_reading() {
    for (bytes, fault) in [
        (&[][..], Fault::Amf0TruncatedValue),
        (&[0x01], Fault::Amf0TruncatedValue),
        (&[0x00, 1, 2], Fault::Amf0TruncatedDouble),
        (&[0x02, 0], Fault::Amf0TruncatedU16),
        (&[0x07, 0], Fault::Amf0TruncatedU16),
        (&[0x02, 0, 2, b'a'], Fault::Amf0TruncatedString),
        (&[0x02, 0, 1, 0xFF], Fault::Amf0StringNotUtf8),
        (&[0x08, 0, 0], Fault::Amf0TruncatedObject),
        (&[0x03], Fault::Amf0TruncatedObject),
        (&[0x0A, 0], Fault::Amf0TruncatedU32),
        (&[0x0B, 0], Fault::Amf0TruncatedDouble),
        (&[0x0B, 0, 0, 0, 0, 0, 0, 0, 0, 0], Fault::Amf0TruncatedI16),
        (&[0x0C, 0, 0, 0], Fault::Amf0TruncatedU32),
        (&[0x04], Fault::Amf0UnknownMarker),
        (&[0xFF], Fault::Amf0UnknownMarker),
    ] {
        assert_eq!(parse_amf0_value(bytes, 0), bad(fault), "{:?}", bytes);
    }
}

#[test]
fn amf0_writing() {
    let long = "x".repeat(65_536);
    let mut out = Vec::new();
    assert_eq!(amf0::write_string(&mut out, &long), bad(Fault::Amf0StringTooLong));
    let mut out = Vec::new();
    assert_eq!(amf0::write_string(&mut out, &long[1..]), Ok(()));
    assert_eq!(out.len(), 3 + 65_535);
    let mut out = Vec::new();
    assert_eq!(
        amf0::write_property_name(&mut out, &long),
        bad(Fault::Amf0StringTooLong)
    );
    assert!(out.is_empty());
}

#[test]
fn amf3_reading() {
    let date = [0x08, 0x01, 0, 0, 0, 0, 0, 0, 0, 0];
    let behind_date = |tail: &[u8]| [&[0x09, 0x05, 0x01][..], &date, tail].concat();
    for (bytes, fault) in [
        (vec![], Fault::Amf3TruncatedValue),
        (vec![0x04], Fault::Amf3TruncatedValue),
        (vec![0x04, 0x80, 0x80, 0x80], Fault::Amf3TruncatedValue),
        (vec![0x05, 0], Fault::Amf3TruncatedDouble),
        (vec![0x08, 0x01, 0], Fault::Amf3TruncatedDouble),
        (vec![0x06, 0x05, b'a'], Fault::Amf3TruncatedText),
        (vec![0x06, 0x03, 0xFF], Fault::Amf3TextNotUtf8),
        (vec![0x0D], Fault::Amf3UnknownMarker),
        (vec![0x06, 0x00], Fault::Amf3StringRefOutOfRange),
        (vec![0x0A, 0x00], Fault::Amf3ObjectRefOutOfRange),
        (vec![0x0B, 0x00], Fault::Amf3ObjectRefOutOfRange),
        (vec![0x08, 0x00], Fault::Amf3DateRefOutOfRange),
        (vec![0x09, 0x00], Fault::Amf3ArrayRefOutOfRange),
        (vec![0x0C, 0x00], Fault::Amf3BytesRefOutOfRange),
        (vec![0x0C, 0x05, 1], Fault::Amf3TruncatedBytes),
        (vec![0x0A, 0x01], Fault::Amf3TraitsRefOutOfRange),
        (vec![0x0A, 0x17, 0x01], Fault::Amf3ExternalizableWithSealed),
        (behind_date(&[0x0A, 0x02]), Fault::Amf3ObjectRefWrongType),
        (behind_date(&[0x07, 0x02]), Fault::Amf3ObjectRefWrongType),
        (behind_date(&[0x09, 0x02]), Fault::Amf3ArrayRefWrongType),
        (behind_date(&[0x0C, 0x02]), Fault::Amf3BytesRefWrongType),
        (
            vec![0x09, 0x05, 0x01, 0x0C, 0x01, 0x08, 0x02],
            Fault::Amf3DateRefWrongType,
        ),
    ] {
        assert_eq!(parse_amf3_value(&bytes, 0), bad(fault), "{:?}", bytes);
    }
    let again = behind_date(&[0x08, 0x02]);
    let array = Amf3Array {
        assoc: vec![],
        dense: vec![Amf3Value::Date(d(0.0)), Amf3Value::Date(d(0.0))],
    };
    assert_eq!(
        parse_amf3_value(&again, 0),
        Ok((Amf3Value::Array(array), again.len()))
    );
}

fn thing() -> Amf3Object {
    Amf3Object {
        class_name: String::new(),
        dynamic: true,
        externalizable: false,
        sealed_names: vec![],
        sealed_values: vec![],
        dynamic_members: vec![],
    }
}

#[test]
fn amf3_writing() {
    for (value, fault) in [
        (Amf3Value::Integer(1 << 28), Fault::Amf3IntegerTooWide),
        (Amf3Value::Integer(-(1 << 28) - 1), Fault::Amf3IntegerTooWide),
        (
            Amf3Value::Array(Amf3Array {
                assoc: vec![(String::new(), Amf3Value::Null)],
                dense: vec![],
            }),
            Fault::Amf3EmptyAssocKey,
        ),
        (
            Amf3Value::Object(Amf3Object {
                sealed_names: vec!["a".into()],
                ..thing()
            }),
            Fault::Amf3SealedMismatch,
        ),
        (
            Amf3Value::Object(Amf3Object {
                dynamic_members: vec![(String::new(), Amf3Value::Null)],
                ..thing()
            }),
            Fault::Amf3EmptyDynamicKey,
        ),
        (Amf3Value::ByteArray(vec![0; 1 << 28]), Fault::Amf3BytesTooLong),
    ] {
        let mut out = Vec::new();
        assert_eq!(write_amf3_value(&mut out, &value), bad(fault));
    }
    let mut out = Vec::new();
    assert_eq!(write_amf3_value(&mut out, &Amf3Value::Integer((1 << 28) - 1)), Ok(()));
    assert_eq!(out, [0x04, 0xBF, 0xFF, 0xFF, 0xFF]);
}

#[test]
fn file_headers() {
    assert_eq!(FlvHeader::read(b"FLV\x01\x05\0\0\0"), Err(Error::UnexpectedEof));
    assert_eq!(FlvHeader::read(b"FLX\x01\x05\0\0\0\x09"), bad(Fault::HeaderSignature));
    assert_eq!(FlvHeader::read(b"FLV\x02\x05\0\0\0\x09"), bad(Fault::HeaderVersion));
    assert_eq!(FlvHeader::read(b"FLV\x01\x05\0\0\0\x0A"), bad(Fault::HeaderDataOffset));
}

#[test]
fn tag_limits() {
    let mut out = Vec::new();
    assert_eq!(
        write_tag(&mut out, TagType::Audio, 0, 0, &vec![0; 1 << 24]),
        bad(Fault::TagDataTooLong)
    );
    assert_eq!(
        write_tag(&mut out, TagType::Audio, 0, 1 << 24, &[]),
        bad(Fault::TagStreamIdTooLarge)
    );
    for cto in [1 << 23, -(1 << 23) - 1] {
        assert_eq!(
            write_avc_nalu_tag(&mut out, 0, true, cto, &[]),
            bad(Fault::TagCompositionTimeRange)
        );
    }
    assert!(out.is_empty());
    assert_eq!(write_avc_nalu_tag(&mut out, 0, true, (1 << 23) - 1, &[]), Ok(16));
    assert_eq!(out[13..16], [0x7F, 0xFF, 0xFF]);
}

#[test]
fn filter_headers() {
    let named = |name: &str, size: u8, params: &[u8]| {
        [&[1][..], name.as_bytes(), &[0, 0, 0, size], params].concat()
    };
    for (body, fault) in [
        (vec![], Fault::FilterEmptyBody),
        (vec![0], Fault::FilterCount),
        (vec![1, b'a'], Fault::FilterNameUnterminated),
        (vec![1, 0xFF, 0], Fault::FilterNameNotUtf8),
        (vec![1, b'a', 0, 0], Fault::FilterTruncatedLength),
        (named("a", 2, &[1]), Fault::FilterTruncatedParams),
        (named("Encryption", 15, &[0; 15]), Fault::FilterShortIv),
        (named("SE", 0, &[]), Fault::FilterNoSelector),
        (named("SE", 2, &[0x80, 0]), Fault::FilterTruncatedIv),
        (named("Other", 0, &[]), Fault::FilterUnknownName),
    ] {
        assert_eq!(EncryptedTagPreamble::parse(&body), bad(fault), "{:?}", body);
    }
}

#[test]
fn script_values() {
    for (bag, fault) in [
        (
            MetadataBag::new().date("d", d(f64::NAN), 0),
            Fault::MetaDateNotFinite,
        ),
        (MetadataBag::new().keyframes(vec![], vec![]), Fault::KeyframesEmpty),
        (
            MetadataBag::new().keyframes(vec![1], vec![d(0.0), d(1.0)]),
            Fault::KeyframesLengthMismatch,
        ),
        (
            MetadataBag::new().keyframes(vec![(1 << 53) + 1], vec![d(0.0)]),
            Fault::KeyframesPositionTooLarge,
        ),
        (
            MetadataBag::new().keyframes(vec![1], vec![d(f64::INFINITY)]),
            Fault::KeyframesTimeNotFinite,
        ),
        (
            MetadataBag::new().keyframes(vec![1, 2], vec![d(1.0), d(0.5)]),
            Fault::KeyframesTimesNotAscending,
        ),
    ] {
        let mut out = Vec::new();
        assert_eq!(write_on_metadata_body(&mut out, &bag), bad(fault));
    }
    let cue = CuePointParams::new("c", d(f64::NEG_INFINITY), CuePointType::Event);
    let mut out = Vec::new();
    assert_eq!(
        write_on_cue_point_body(&mut out, &cue),
        bad(Fault::CuePointTimeNotFinite)
    );
}

#[test]
fn colours() {
    for depth in [7, 17] {
        let ci = ColorInfo {
            color_config: Some(ColorConfig {
                bit_depth: Some(depth),
                ..ColorConfig::default()
            }),
            ..ColorInfo::default()
        };
        assert_eq!(ci.encode_amf(), bad(Fault::ColorBitDepth));
    }
    let cll = |max_fall: Option<f64>, max_cll: Option<f64>| ColorInfo {
        hdr_cll: Some(HdrCll {
            max_fall: max_fall.map(d),
            max_cll: max_cll.map(d),
        }),
        ..ColorInfo::default()
    };
    assert_eq!(
        cll(Some(f64::NAN), None).encode_amf(),
        bad(Fault::ColorNotFinite(ColorField::MaxFall))
    );
    assert_eq!(
        cll(None, Some(10_000.5)).encode_amf(),
        bad(Fault::ColorOutOfRange(ColorField::MaxCll))
    );
    assert!(cll(Some(0.0001), Some(10_000.0)).encode_amf().is_ok());
    let none = HdrMdcv::default();
    let v = Some(d(0.85));
    for (hdr, field) in [
        (HdrMdcv { red_x: v, ..none }, ColorField::RedX),
        (HdrMdcv { red_y: v, ..none }, ColorField::RedY),
        (HdrMdcv { green_x: v, ..none }, ColorField::GreenX),
        (HdrMdcv { green_y: v, ..none }, ColorField::GreenY),
        (HdrMdcv { blue_x: v, ..none }, ColorField::BlueX),
        (HdrMdcv { blue_y: v, ..none }, ColorField::BlueY),
        (HdrMdcv { white_point_x: v, ..none }, ColorField::WhitePointX),
        (HdrMdcv { white_point_y: v, ..none }, ColorField::WhitePointY),
        (HdrMdcv { max_luminance: v, ..none }, ColorField::MaxLuminance),
        (
            HdrMdcv {
                min_luminance: Some(d(5.5)),
                ..none
            },
            ColorField::MinLuminance,
        ),
    ] {
        let ci = ColorInfo {
            hdr_mdcv: Some(hdr),
            ..ColorInfo::default()
        };
        assert_eq!(ci.encode_amf(), bad(Fault::ColorOutOfRange(field)));
    }
}

#[test]
fn commands() {
    let call = |name: &str, tail: &[u8]| {
        let mut out = Vec::new();
        amf0::write_string(&mut out, name).unwrap();
        amf0::write_number(&mut out, d(1.0)).unwrap();
        out.extend_from_slice(tail);
        out
    };
    assert_eq!(
        parse_connect_command(&call("bind", &[])),
        bad(Fault::ConnectCommandName)
    );
    assert_eq!(
        parse_connect_command(&call("connect", &[0x05])),
        bad(Fault::ConnectNotAnObject)
    );
    assert_eq!(
        parse_on_status_command(&call("onBind", &[])),
        bad(Fault::OnStatusCommandName)
    );
    assert_eq!(
        parse_on_status_command(&call("onStatus", &[0x05, 0x05])),
        bad(Fault::OnStatusNotAnObject)
    );
}

#[test]
fn fourcc_audio_reading() {
    for (body, fault) in [
        (&[0x95][..], Fault::ExAudioTruncatedMultitrack),
        (&[0x95, 0x05], Fault::ExAudioNestedMultitrack),
        (&[0x95, 0x00, b'O'], Fault::ExAudioTruncatedMultitrackFourCc),
        (&[0x90, b'O'], Fault::ExAudioTruncatedFourCc),
    ] {
        assert_eq!(ExAudioTagHeader::parse(body), bad(fault));
    }
}

fn sound() -> ExAudioTagHeader {
    ExAudioTagHeader {
        packet_type: ExAudioPacketType::CodedFrames,
        fourcc: Some(FOURCC_OPUS),
        multitrack: None,
        timestamp_offset_nano: 0,
        mod_ex_entries: vec![],
        bytes_consumed: 0,
    }
}

fn nanos(offset_ns: u32) -> ModExEntry {
    ModExEntry {
        subtype_raw: 0,
        payload: ModExPayload::TimestampOffsetNano { offset_ns },
        raw: offset_ns.to_be_bytes()[1..].to_vec(),
    }
}

#[test]
fn fourcc_audio_writing() {
    for (h, fault) in [
        (
            ExAudioTagHeader {
                mod_ex_entries: vec![nanos(5)],
                timestamp_offset_nano: 5,
                ..sound()
            },
            Fault::ExAudioEntriesNotWritten,
        ),
        (
            ExAudioTagHeader {
                timestamp_offset_nano: 5,
                ..sound()
            },
            Fault::ExAudioOffsetWithoutEntries,
        ),
        (
            ExAudioTagHeader {
                multitrack: Some(AvMultitrackType::OneTrack),
                ..sound()
            },
            Fault::ExAudioMultitrackNotWritten,
        ),
        (
            ExAudioTagHeader {
                packet_type: ExAudioPacketType::Multitrack,
                ..sound()
            },
            Fault::ExAudioWrapperPacketType,
        ),
        (
            ExAudioTagHeader {
                packet_type: ExAudioPacketType::ModEx,
                ..sound()
            },
            Fault::ExAudioWrapperPacketType,
        ),
        (
            ExAudioTagHeader {
                fourcc: None,
                ..sound()
            },
            Fault::ExAudioNoFourCc,
        ),
    ] {
        let mut out = Vec::new();
        assert_eq!(h.to_bytes(&mut out), bad(fault));
    }
}

#[test]
fn fourcc_video_reading() {
    for (body, fault) in [
        (&[0x96][..], Fault::ExVideoTruncatedMultitrack),
        (&[0x96, 0x06], Fault::ExVideoNestedMultitrack),
        (&[0x96, 0x10, b'h'], Fault::ExVideoTruncatedMultitrackFourCc),
        (&[0x90, b'h'], Fault::ExVideoTruncatedFourCc),
        (b"\x91hvc1\x00", Fault::ExVideoTruncatedCompositionTime),
        (b"\xD0hvc1", Fault::ExVideoTruncatedCommand),
    ] {
        assert_eq!(ExVideoTagHeader::parse(body), bad(fault), "{:?}", body);
    }
}

fn picture() -> ExVideoTagHeader {
    ExVideoTagHeader {
        frame_type: ExFrameType::KeyFrame,
        packet_type: ExPacketType::CodedFrames,
        fourcc: Some(FOURCC_HVC1),
        multitrack: None,
        bytes_consumed: 0,
        composition_time_offset_ms: Some(0),
        timestamp_offset_nano: 0,
        mod_ex_entries: vec![],
        video_command: None,
    }
}

#[test]
fn fourcc_video_writing() {
    let many = Some(AvMultitrackType::ManyTracks);
    for (h, fault) in [
        (
            ExVideoTagHeader {
                timestamp_offset_nano: 1,
                ..picture()
            },
            Fault::ExVideoOffsetWithoutEntries,
        ),
        (
            ExVideoTagHeader {
                packet_type: ExPacketType::ModEx,
                composition_time_offset_ms: None,
                ..picture()
            },
            Fault::ExVideoWrapperPacketType,
        ),
        (
            ExVideoTagHeader {
                packet_type: ExPacketType::Multitrack,
                composition_time_offset_ms: None,
                ..picture()
            },
            Fault::ExVideoWrapperPacketType,
        ),
        (
            ExVideoTagHeader {
                packet_type: ExPacketType::Reserved(6),
                composition_time_offset_ms: None,
                ..picture()
            },
            Fault::ExVideoWrapperPacketType,
        ),
        (
            ExVideoTagHeader {
                packet_type: ExPacketType::ModEx,
                composition_time_offset_ms: None,
                mod_ex_entries: vec![nanos(5)],
                timestamp_offset_nano: 5,
                ..picture()
            },
            Fault::ExVideoWrapperPacketType,
        ),
        (
            ExVideoTagHeader {
                multitrack: Some(AvMultitrackType::ManyTracksManyCodecs),
                composition_time_offset_ms: None,
                ..picture()
            },
            Fault::ExVideoSharedFourCc,
        ),
        (
            ExVideoTagHeader {
                multitrack: many,
                composition_time_offset_ms: None,
                fourcc: None,
                ..picture()
            },
            Fault::ExVideoNoSharedFourCc,
        ),
        (
            ExVideoTagHeader {
                fourcc: None,
                ..picture()
            },
            Fault::ExVideoNoFourCc,
        ),
        (
            ExVideoTagHeader {
                multitrack: many,
                ..picture()
            },
            Fault::ExVideoCompositionTimeInMultitrack,
        ),
        (
            ExVideoTagHeader {
                multitrack: many,
                packet_type: ExPacketType::Multitrack,
                composition_time_offset_ms: None,
                ..picture()
            },
            Fault::ExVideoNestedMultitrack,
        ),
        (
            ExVideoTagHeader {
                composition_time_offset_ms: Some(1 << 23),
                ..picture()
            },
            Fault::ExVideoCompositionTimeRange,
        ),
        (
            ExVideoTagHeader {
                composition_time_offset_ms: None,
                ..picture()
            },
            Fault::ExVideoNoCompositionTime,
        ),
        (
            ExVideoTagHeader {
                fourcc: Some(FOURCC_AV01),
                ..picture()
            },
            Fault::ExVideoCompositionTimeUndefined,
        ),
        (
            ExVideoTagHeader {
                frame_type: ExFrameType::Command,
                ..picture()
            },
            Fault::ExVideoNoCommand,
        ),
        (
            ExVideoTagHeader {
                video_command: Some(VideoCommand::StartSeek),
                ..picture()
            },
            Fault::ExVideoCommandUndefined,
        ),
    ] {
        let mut out = Vec::new();
        assert_eq!(h.to_bytes(&mut out), bad(fault), "{:?}", h);
    }
}

#[test]
fn speaker_layouts() {
    for (body, fault) in [
        (&[0][..], Fault::MultichannelTooShort),
        (&[2, 2, 0], Fault::MultichannelTruncatedMapping),
        (&[1, 2, 0, 0, 0], Fault::MultichannelTruncatedFlags),
    ] {
        assert_eq!(MultichannelConfig::parse(body), bad(fault));
    }
    let flat = |order, mapping: Option<Vec<AudioChannel>>, channel_flags| MultichannelConfig {
        order,
        channel_count: 2,
        mapping,
        channel_flags,
    };
    let left = AudioChannel::FrontLeft;
    for (c, fault) in [
        (
            flat(AudioChannelOrder::Unspecified, None, Some(3)),
            Fault::MultichannelUnspecifiedExtra,
        ),
        (
            flat(AudioChannelOrder::Custom, Some(vec![left, left]), Some(3)),
            Fault::MultichannelCustomFlags,
        ),
        (
            flat(AudioChannelOrder::Custom, None, None),
            Fault::MultichannelNoMapping,
        ),
        (
            flat(AudioChannelOrder::Custom, Some(vec![left]), None),
            Fault::MultichannelMappingLength,
        ),
        (
            flat(AudioChannelOrder::Native, Some(vec![left, left]), Some(3)),
            Fault::MultichannelNativeMapping,
        ),
        (
            flat(AudioChannelOrder::Native, None, None),
            Fault::MultichannelNoFlags,
        ),
        (
            flat(AudioChannelOrder::Native, None, Some(1 | 1 << 24)),
            Fault::MultichannelFlagsRange,
        ),
        (
            flat(AudioChannelOrder::Native, None, Some(7)),
            Fault::MultichannelFlagsCount,
        ),
        (
            flat(AudioChannelOrder::Reserved(9), None, None),
            Fault::MultichannelReservedOrder,
        ),
    ] {
        let mut out = Vec::new();
        assert_eq!(c.to_bytes(&mut out), bad(fault));
        assert!(out.is_empty());
    }
}

#[test]
fn track_lists() {
    let one = AvMultitrackType::OneTrack;
    let many = AvMultitrackType::ManyTracks;
    let mixed = AvMultitrackType::ManyTracksManyCodecs;
    for (layout, body, fault) in [
        (AvMultitrackType::Reserved(7), &[0][..], Fault::MultitrackReservedType),
        (mixed, b"av", Fault::MultitrackTruncatedFourCc),
        (mixed, b"av01", Fault::MultitrackTruncatedTrackId),
        (one, &[], Fault::MultitrackTruncatedTrackId),
        (many, &[0, 0, 0], Fault::MultitrackTruncatedSize),
        (many, &[0, 0, 0, 2, 9], Fault::MultitrackOverrun),
    ] {
        assert_eq!(split_tracks(layout, FOURCC_AV01, body), bad(fault));
    }
    let track = JoinTrack::new(0, FOURCC_AV01, vec![1]);
    assert_eq!(
        join_tracks(one, &[track.clone(), track.clone()]),
        bad(Fault::MultitrackNotOneTrack)
    );
    assert_eq!(join_tracks(many, &[]), bad(Fault::MultitrackNoTracks));
    assert_eq!(
        join_tracks(AvMultitrackType::Reserved(7), &[track]),
        bad(Fault::MultitrackReservedType)
    );
    let long = JoinTrack::new(0, FOURCC_AV01, vec![0; 1 << 24]);
    assert_eq!(join_tracks(many, &[long]), bad(Fault::MultitrackPayloadTooLong));
}

#[test]
fn modifiers_reading() {
    for (body, fault) in [
        (&[][..], Fault::ModExTruncatedSize),
        (&[0xFF, 0], Fault::ModExTruncatedLongSize),
        (&[2, 1], Fault::ModExTruncatedData),
        (&[0, 9], Fault::ModExTruncatedTrailer),
        (&[0, 9, 0x01], Fault::ModExShortTimestampOffset),
    ] {
        assert_eq!(walk::<7>(body, 0, 7), bad(fault));
    }
}

#[test]
fn modifiers_writing() {
    let entry = |subtype_raw: u8, offset_ns: u32, raw: &[u8]| ModExEntry {
        subtype_raw,
        payload: ModExPayload::TimestampOffsetNano { offset_ns },
        raw: raw.to_vec(),
    };
    for (entries, last, fault) in [
        (vec![], 1, Fault::ModExNoEntries),
        (vec![nanos(1)], 16, Fault::ModExPacketTypeTooWide),
        (vec![nanos(1)], 7, Fault::ModExEndsInModEx),
        (vec![entry(16, 1, &[0, 0, 1])], 1, Fault::ModExSubtypeTooWide),
        (vec![entry(0, 1, &[0, 1])], 1, Fault::ModExShortTimestampOffset),
        (vec![nanos(1_000_000)], 1, Fault::ModExOffsetTooLarge),
        (vec![entry(0, 2, &[0, 0, 1])], 1, Fault::ModExOffsetMismatch),
        (vec![entry(1, 1, &[0, 0, 1])], 1, Fault::ModExOffsetSubtype),
        (
            vec![ModExEntry {
                subtype_raw: 0,
                payload: ModExPayload::Reserved { subtype_raw: 0 },
                raw: vec![0xAA],
            }],
            1,
            Fault::ModExOffsetUntyped,
        ),
        (
            vec![ModExEntry {
                subtype_raw: 2,
                payload: ModExPayload::Reserved { subtype_raw: 2 },
                raw: vec![],
            }],
            1,
            Fault::ModExBadSize,
        ),
    ] {
        let mut out = Vec::new();
        assert_eq!(emit::<7>(&mut out, &entries, last), bad(fault));
    }
    let mut out = Vec::new();
    assert_eq!(encode_size(&mut out, 65_537), bad(Fault::ModExBadSize));
    assert_eq!(encode_size(&mut out, 65_536), Ok(()));
    assert_eq!(out, [0xFF, 0xFF, 0xFF]);
}

#[test]
fn empty_tags() {
    assert_eq!(
        build_audio_stream(&[], &[], &[], None).unwrap_err(),
        Error::InvalidData(Fault::EmptyAudioTag)
    );
    assert_eq!(
        build_video_stream(&[], &[], &[]).unwrap_err(),
        Error::InvalidData(Fault::EmptyVideoTag)
    );
}

#[test]
fn messages() {
    assert_eq!(Fault::HeaderSignature.message(), "FLV: signature mismatch");
    assert_eq!(
        Fault::ColorOutOfRange(ColorField::RedX).message(),
        "colorInfo: redX outside spec range"
    );
    assert_eq!(
        Fault::ColorNotFinite(ColorField::MaxFall).message(),
        "colorInfo: maxFall is not finite"
    );
    assert_eq!(
        Error::InvalidData(Fault::NoStreams).message(),
        "invalid data: FLV: no audio or video tags discovered"
    );
}

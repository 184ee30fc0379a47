use flv::error::Error;
use flv::ex_video::{ExFrameType, ExPacketType, ExVideoTagHeader, FOURCC_AV01, FOURCC_HVC1, VideoCommand, fourcc_codec_id_str};
use flv::mod_ex::{ModExEntry, VideoPacketModExType};
use flv::multitrack::AvMultitrackType;

#[test]
fn rejects_legacy_video_tag_header() {
    let body = [0x17, 0x00, 0x00, 0x00, 0x00];
    assert_eq!(ExVideoTagHeader::parse(&body).unwrap(), None);
}

#[test]
fn ex_video_rejects_empty_body() {
    assert_eq!(ExVideoTagHeader::parse(&[]).unwrap(), None);
}

#[test]
fn av1_sequence_start() {
    let mut body = vec![0x90];
    body.extend_from_slice(b"av01");
    body.extend_from_slice(&[0xDE, 0xAD]);
    let h = ExVideoTagHeader::parse(&body).unwrap().unwrap();
    assert_eq!(h.frame_type, ExFrameType::KeyFrame);
    assert!(h.frame_type.is_keyframe());
    assert_eq!(h.packet_type, ExPacketType::SequenceStart);
    assert_eq!(h.fourcc, Some(FOURCC_AV01));
    assert_eq!(h.bytes_consumed, 5);
    assert_eq!(h.composition_time_offset_ms, None);
    assert_eq!(fourcc_codec_id_str(h.fourcc.unwrap()), "av1");
    assert_eq!(&body[h.bytes_consumed..], &[0xDE, 0xAD]);
}

#[test]
fn hevc_coded_frames_carries_composition_time_offset() {
    let mut body = vec![0xA1];
    body.extend_from_slice(b"hvc1");

    body.extend_from_slice(&[0x00, 0x00, 0x21]);
    body.extend_from_slice(&[0xCA, 0xFE]);
    let h = ExVideoTagHeader::parse(&body).unwrap().unwrap();
    assert_eq!(h.frame_type, ExFrameType::InterFrame);
    assert!(!h.frame_type.is_keyframe());
    assert_eq!(h.packet_type, ExPacketType::CodedFrames);
    assert_eq!(h.fourcc, Some(FOURCC_HVC1));
    assert_eq!(h.bytes_consumed, 8);
    assert_eq!(h.composition_time_offset_ms, Some(33));
    assert_eq!(fourcc_codec_id_str(h.fourcc.unwrap()), "h265");
    assert_eq!(&body[h.bytes_consumed..], &[0xCA, 0xFE]);
}

#[test]
fn hevc_coded_frames_negative_composition_time_offset() {
    let mut body = vec![0xA1];
    body.extend_from_slice(b"hvc1");
    body.extend_from_slice(&[0xFF, 0xFF, 0xFF]);
    body.push(0x00);
    let h = ExVideoTagHeader::parse(&body).unwrap().unwrap();
    assert_eq!(h.composition_time_offset_ms, Some(-1));
}

#[test]
fn av1_coded_frames_skips_composition_time_offset() {
    let mut body = vec![0xA1];
    body.extend_from_slice(b"av01");
    body.extend_from_slice(&[0xFE, 0xED]);
    let h = ExVideoTagHeader::parse(&body).unwrap().unwrap();
    assert_eq!(h.packet_type, ExPacketType::CodedFrames);
    assert_eq!(h.fourcc, Some(FOURCC_AV01));
    assert_eq!(h.bytes_consumed, 5);
    assert_eq!(h.composition_time_offset_ms, None);
    assert_eq!(&body[h.bytes_consumed..], &[0xFE, 0xED]);
}

#[test]
fn coded_frames_x_optimisation_skips_cto() {
    let mut body = vec![0xA3];
    body.extend_from_slice(b"hvc1");
    body.extend_from_slice(&[0xBE, 0xEF]);
    let h = ExVideoTagHeader::parse(&body).unwrap().unwrap();
    assert_eq!(h.packet_type, ExPacketType::CodedFramesX);
    assert_eq!(h.bytes_consumed, 5);
    assert_eq!(h.composition_time_offset_ms, None);
}

#[test]
fn ex_video_sequence_end_recognised() {
    let mut body = vec![0x92];
    body.extend_from_slice(b"av01");
    let h = ExVideoTagHeader::parse(&body).unwrap().unwrap();
    assert_eq!(h.packet_type, ExPacketType::SequenceEnd);
    assert_eq!(h.bytes_consumed, 5);
}

#[test]
fn metadata_packet_type_recognised() {
    let mut body = vec![0x94];
    body.extend_from_slice(b"hvc1");
    body.extend_from_slice(b"colorInfo-amf-blob");
    let h = ExVideoTagHeader::parse(&body).unwrap().unwrap();
    assert_eq!(h.packet_type, ExPacketType::Metadata);

    assert_eq!(h.bytes_consumed, 5);
}

#[test]
fn ex_video_multitrack_one_track_with_fourcc() {
    let mut body = vec![0x96];
    body.push(0x01);
    body.extend_from_slice(b"av01");
    body.extend_from_slice(&[0x00, 0xDE, 0xAD]);
    let h = ExVideoTagHeader::parse(&body).unwrap().unwrap();
    assert_eq!(h.frame_type, ExFrameType::KeyFrame);
    assert_eq!(h.multitrack, Some(AvMultitrackType::OneTrack));

    assert_eq!(h.packet_type, ExPacketType::CodedFrames);
    assert_eq!(h.fourcc, Some(FOURCC_AV01));

    assert_eq!(h.composition_time_offset_ms, None);
    assert_eq!(h.bytes_consumed, 6);
    assert_eq!(&body[h.bytes_consumed..], &[0x00, 0xDE, 0xAD]);
}

#[test]
fn ex_video_multitrack_many_tracks_many_codecs_omits_fourcc() {
    let mut body = vec![0x96];
    body.push(0x21);
    body.extend_from_slice(&[0xCA, 0xFE]);
    let h = ExVideoTagHeader::parse(&body).unwrap().unwrap();
    assert_eq!(h.multitrack, Some(AvMultitrackType::ManyTracksManyCodecs));
    assert_eq!(h.packet_type, ExPacketType::CodedFrames);
    assert_eq!(h.fourcc, None);

    assert_eq!(h.bytes_consumed, 2);
    assert_eq!(&body[h.bytes_consumed..], &[0xCA, 0xFE]);
}

#[test]
fn multitrack_does_not_read_single_track_cto() {
    let mut body = vec![0x96];
    body.push(0x11);
    body.extend_from_slice(b"hvc1");
    body.extend_from_slice(&[0x00, 0x00, 0x00, 0x21]);
    let h = ExVideoTagHeader::parse(&body).unwrap().unwrap();
    assert_eq!(h.multitrack, Some(AvMultitrackType::ManyTracks));
    assert_eq!(h.composition_time_offset_ms, None);
    assert_eq!(h.bytes_consumed, 6);
}

#[test]
fn truncated_multitrack_header_byte_errors() {
    let body = [0x96];
    assert!(matches!(
        ExVideoTagHeader::parse(&body),
        Err(Error::InvalidData(_))
    ));
}

#[test]
fn ex_video_nested_multitrack_rejected() {
    let body = [0x96, 0x06];
    assert!(matches!(
        ExVideoTagHeader::parse(&body),
        Err(Error::InvalidData(_))
    ));
}

#[test]
fn truncated_multitrack_fourcc_errors() {
    let body = [0x96, 0x01, b'a', b'v'];
    assert!(matches!(
        ExVideoTagHeader::parse(&body),
        Err(Error::InvalidData(_))
    ));
}

#[test]
fn ex_video_truncated_fourcc_errors() {
    let body = [0x90, b'a', b'v'];
    assert!(matches!(
        ExVideoTagHeader::parse(&body),
        Err(Error::InvalidData(_))
    ));
}

#[test]
fn truncated_cto_errors() {
    let mut body = vec![0xA1];
    body.extend_from_slice(b"hvc1");
    body.push(0x00);
    assert!(matches!(
        ExVideoTagHeader::parse(&body),
        Err(Error::InvalidData(_))
    ));
}

#[test]
fn ex_video_unknown_fourcc_falls_through() {
    let mut body = vec![0x90];
    body.extend_from_slice(b"zzzz");
    body.push(0x00);
    let h = ExVideoTagHeader::parse(&body).unwrap().unwrap();
    assert_eq!(h.fourcc, Some(u32::from_be_bytes(*b"zzzz")));
    assert_eq!(fourcc_codec_id_str(h.fourcc.unwrap()), "flv:exvideo:zzzz");
}

#[test]
fn ex_video_unknown_fourcc_non_ascii_falls_through_as_hex() {
    let mut body = vec![0x90];
    body.extend_from_slice(&[0x01, 0x02, 0x03, 0x04]);
    body.push(0x00);
    let h = ExVideoTagHeader::parse(&body).unwrap().unwrap();
    assert_eq!(
        fourcc_codec_id_str(h.fourcc.unwrap()),
        "flv:exvideo:0x01020304"
    );
}

#[test]
fn command_frame_type_recognised_and_command_byte_decoded() {
    let mut body = vec![0xD0];
    body.extend_from_slice(b"av01");
    body.push(0x00);
    let h = ExVideoTagHeader::parse(&body).unwrap().unwrap();
    assert_eq!(h.frame_type, ExFrameType::Command);
    assert!(!h.frame_type.is_keyframe());
    assert_eq!(h.video_command, Some(VideoCommand::StartSeek));

    assert_eq!(h.bytes_consumed, body.len());
    assert!(body[h.bytes_consumed..].is_empty());
}

#[test]
fn command_end_seek_decoded() {
    let mut body = vec![0xD0];
    body.extend_from_slice(b"av01");
    body.push(0x01);
    let h = ExVideoTagHeader::parse(&body).unwrap().unwrap();
    assert_eq!(h.video_command, Some(VideoCommand::EndSeek));
}

#[test]
fn command_reserved_value_preserved() {
    let mut body = vec![0xD0];
    body.extend_from_slice(b"av01");
    body.push(0x07);
    let h = ExVideoTagHeader::parse(&body).unwrap().unwrap();
    assert_eq!(h.video_command, Some(VideoCommand::Reserved(7)));
    assert_eq!(h.video_command.unwrap().as_u8(), 7);
}

#[test]
fn command_with_metadata_packet_type_has_no_command_byte() {
    let mut body = vec![0xD4];
    body.extend_from_slice(b"hvc1");
    body.extend_from_slice(b"colorInfo-amf");
    let h = ExVideoTagHeader::parse(&body).unwrap().unwrap();
    assert_eq!(h.frame_type, ExFrameType::Command);
    assert_eq!(h.packet_type, ExPacketType::Metadata);
    assert_eq!(h.video_command, None);

    assert_eq!(h.bytes_consumed, 5);
    assert_eq!(&body[h.bytes_consumed..], b"colorInfo-amf");
}

#[test]
fn command_byte_truncated_errors() {
    let mut body = vec![0xD0];
    body.extend_from_slice(b"av01");

    assert!(matches!(
        ExVideoTagHeader::parse(&body),
        Err(Error::InvalidData(_))
    ));
}

#[test]
fn command_after_hevc_cto_when_packet_type_is_coded_frames() {
    let mut body = vec![0xD1];
    body.extend_from_slice(b"hvc1");
    body.extend_from_slice(&[0x00, 0x00, 0x21]);
    body.push(0x00);
    let h = ExVideoTagHeader::parse(&body).unwrap().unwrap();
    assert_eq!(h.frame_type, ExFrameType::Command);
    assert_eq!(h.packet_type, ExPacketType::CodedFrames);
    assert_eq!(h.composition_time_offset_ms, Some(33));
    assert_eq!(h.video_command, Some(VideoCommand::StartSeek));
    assert_eq!(h.bytes_consumed, body.len());
}

#[test]
fn video_command_roundtrips_as_u8() {
    assert_eq!(VideoCommand::from_u8(0), VideoCommand::StartSeek);
    assert_eq!(VideoCommand::from_u8(1), VideoCommand::EndSeek);
    assert_eq!(VideoCommand::from_u8(42), VideoCommand::Reserved(42));
    assert_eq!(VideoCommand::StartSeek.as_u8(), 0);
    assert_eq!(VideoCommand::EndSeek.as_u8(), 1);
    assert_eq!(VideoCommand::Reserved(255).as_u8(), 255);
}

#[test]
fn modex_timestamp_offset_nano_decoded_on_video() {
    let mut body = vec![0x97];
    body.push(0x02);
    body.extend_from_slice(&[0x00, 0x05, 0xDC]);
    body.push(0x01);
    body.extend_from_slice(b"av01");
    body.extend_from_slice(&[0xDE, 0xAD]);
    let h = ExVideoTagHeader::parse(&body).unwrap().unwrap();
    assert_eq!(h.frame_type, ExFrameType::KeyFrame);
    assert_eq!(h.packet_type, ExPacketType::CodedFrames);
    assert_eq!(h.fourcc, Some(FOURCC_AV01));
    assert_eq!(h.timestamp_offset_nano, 1500);
    assert_eq!(h.mod_ex_entries.len(), 1);
    assert_eq!(h.mod_ex_entries[0].timestamp_offset_nano(), Some(1500));
    assert_eq!(
        h.mod_ex_entries[0].video_subtype(),
        VideoPacketModExType::TimestampOffsetNano
    );

    assert_eq!(h.bytes_consumed, 10);
    assert_eq!(&body[h.bytes_consumed..], &[0xDE, 0xAD]);
}

#[test]
fn modex_chains_then_resolves_to_hevc_coded_frames_with_cto() {
    let mut body = vec![0xA7];
    body.push(0x02);
    body.extend_from_slice(&[0x00, 0x00, 0x64]);
    body.push(0x07);
    body.push(0x02);
    body.extend_from_slice(&[0x00, 0x00, 0xFA]);
    body.push(0x01);
    body.extend_from_slice(b"hvc1");
    body.extend_from_slice(&[0x00, 0x00, 0x21]);
    body.extend_from_slice(&[0xCA, 0xFE]);
    let h = ExVideoTagHeader::parse(&body).unwrap().unwrap();
    assert_eq!(h.frame_type, ExFrameType::InterFrame);
    assert_eq!(h.packet_type, ExPacketType::CodedFrames);
    assert_eq!(h.fourcc, Some(FOURCC_HVC1));
    assert_eq!(h.timestamp_offset_nano, 350);
    assert_eq!(h.mod_ex_entries.len(), 2);
    assert_eq!(h.composition_time_offset_ms, Some(33));
    assert_eq!(&body[h.bytes_consumed..], &[0xCA, 0xFE]);
}

#[test]
fn modex_reserved_subtype_tolerated_on_video() {
    let mut body = vec![0x97];
    body.push(0x03);
    body.extend_from_slice(&[0xDE, 0xAD, 0xBE, 0xEF]);
    body.push(0x50);
    body.extend_from_slice(b"av01");
    body.extend_from_slice(&[0x42]);
    let h = ExVideoTagHeader::parse(&body).unwrap().unwrap();
    assert_eq!(h.packet_type, ExPacketType::SequenceStart);
    assert_eq!(h.fourcc, Some(FOURCC_AV01));
    assert_eq!(h.timestamp_offset_nano, 0);
    assert_eq!(h.mod_ex_entries.len(), 1);
    let entry = &h.mod_ex_entries[0];
    assert_eq!(entry.subtype_raw, 5);
    assert_eq!(entry.video_subtype(), VideoPacketModExType::Reserved(5));
    assert_eq!(entry.timestamp_offset_nano(), None);
    assert_eq!(entry.raw, vec![0xDE, 0xAD, 0xBE, 0xEF]);
    assert_eq!(&body[h.bytes_consumed..], &[0x42]);
}

#[test]
fn modex_size_escape_handles_257_byte_payload_on_video() {
    let mut body = vec![0x97];
    body.push(0xFF);
    body.extend_from_slice(&[0x01, 0x00]);
    body.extend(std::iter::repeat(0xAB).take(257));
    body.push(0xF0);
    body.extend_from_slice(b"av01");
    let h = ExVideoTagHeader::parse(&body).unwrap().unwrap();
    assert_eq!(h.packet_type, ExPacketType::SequenceStart);
    assert_eq!(h.fourcc, Some(FOURCC_AV01));
    assert_eq!(h.mod_ex_entries.len(), 1);
    assert_eq!(h.mod_ex_entries[0].raw.len(), 257);
}

#[test]
fn modex_truncated_size_errors_on_video() {
    let body = [0x97];
    assert!(matches!(
        ExVideoTagHeader::parse(&body),
        Err(Error::InvalidData(_))
    ));
}

#[test]
fn modex_short_timestamp_offset_nano_errors_on_video() {
    let mut body = vec![0x97];
    body.push(0x01);
    body.extend_from_slice(&[0xAA, 0xBB]);
    body.push(0x01);
    body.extend_from_slice(b"av01");
    assert!(matches!(
        ExVideoTagHeader::parse(&body),
        Err(Error::InvalidData(_))
    ));
}

#[test]
fn video_packet_modex_type_round_trips() {
    assert_eq!(
        VideoPacketModExType::from_u8(0),
        VideoPacketModExType::TimestampOffsetNano
    );
    for v in 1u8..=15 {
        assert_eq!(
            VideoPacketModExType::from_u8(v),
            VideoPacketModExType::Reserved(v)
        );
    }
}

fn assert_round_trips(body: &[u8]) -> Vec<u8> {
    let h = ExVideoTagHeader::parse(body).unwrap().unwrap();
    let payload_tail = &body[h.bytes_consumed..];
    let mut out = Vec::new();
    h.to_bytes(&mut out).unwrap();
    out.extend_from_slice(payload_tail);
    let h2 = ExVideoTagHeader::parse(&out).unwrap().unwrap();
    assert_eq!(h.frame_type, h2.frame_type);
    assert_eq!(h.packet_type, h2.packet_type);
    assert_eq!(h.fourcc, h2.fourcc);
    assert_eq!(h.multitrack, h2.multitrack);
    assert_eq!(h.composition_time_offset_ms, h2.composition_time_offset_ms);
    assert_eq!(h.video_command, h2.video_command);
    assert_eq!(h.bytes_consumed, h2.bytes_consumed);
    assert_eq!(&out[h2.bytes_consumed..], payload_tail);
    out
}

#[test]
fn to_bytes_av1_sequence_start_round_trip() {
    let mut body = vec![0x90];
    body.extend_from_slice(b"av01");
    body.extend_from_slice(&[0xDE, 0xAD, 0xBE, 0xEF]);
    let out = assert_round_trips(&body);

    assert_eq!(out, body);
}

#[test]
fn to_bytes_hevc_coded_frames_round_trip_with_cto() {
    let mut body = vec![0xA1];
    body.extend_from_slice(b"hvc1");
    body.extend_from_slice(&[0x00, 0x00, 0x21]);
    body.extend_from_slice(&[0xCA, 0xFE]);
    let out = assert_round_trips(&body);
    assert_eq!(out, body);
}

#[test]
fn to_bytes_hevc_coded_frames_round_trip_with_negative_cto() {
    let mut body = vec![0xA1];
    body.extend_from_slice(b"hvc1");
    body.extend_from_slice(&[0xFF, 0xFF, 0xFF]);
    body.extend_from_slice(&[0x00]);
    let out = assert_round_trips(&body);
    assert_eq!(out, body);
}

#[test]
fn to_bytes_coded_frames_x_round_trip() {
    let mut body = vec![0xA3];
    body.extend_from_slice(b"hvc1");
    body.extend_from_slice(&[0xBE, 0xEF]);
    let out = assert_round_trips(&body);
    assert_eq!(out, body);
}

#[test]
fn ex_video_to_bytes_sequence_end_round_trip() {
    let mut body = vec![0x92];
    body.extend_from_slice(b"av01");
    let out = assert_round_trips(&body);
    assert_eq!(out, body);
}

#[test]
fn to_bytes_metadata_round_trip() {
    let mut body = vec![0x94];
    body.extend_from_slice(b"hvc1");
    body.extend_from_slice(b"colorInfo-blob");
    let out = assert_round_trips(&body);
    assert_eq!(out, body);
}

#[test]
fn to_bytes_multitrack_one_track_round_trip() {
    let mut body = vec![0x96];
    body.push(0x01);
    body.extend_from_slice(b"av01");
    body.extend_from_slice(&[0x00, 0xDE, 0xAD]);
    let out = assert_round_trips(&body);
    assert_eq!(out, body);
}

#[test]
fn to_bytes_multitrack_many_tracks_many_codecs_round_trip() {
    let mut body = vec![0x96];
    body.push(0x21);
    body.extend_from_slice(&[0xCA, 0xFE]);
    let out = assert_round_trips(&body);
    assert_eq!(out, body);
}

#[test]
fn to_bytes_command_start_seek_round_trip() {
    let mut body = vec![0xD0];
    body.extend_from_slice(b"av01");
    body.push(0x00);
    let out = assert_round_trips(&body);
    assert_eq!(out, body);
}

#[test]
fn to_bytes_command_end_seek_round_trip() {
    let mut body = vec![0xD0];
    body.extend_from_slice(b"av01");
    body.push(0x01);
    let out = assert_round_trips(&body);
    assert_eq!(out, body);
}

#[test]
fn to_bytes_command_after_hevc_cto_round_trip() {
    let mut body = vec![0xD1];
    body.extend_from_slice(b"hvc1");
    body.extend_from_slice(&[0x00, 0x00, 0x21]);
    body.push(0x00);
    let out = assert_round_trips(&body);
    assert_eq!(out, body);
}

#[test]
fn to_bytes_rejects_cto_on_non_hevc_codec() {
    let h = ExVideoTagHeader {
        frame_type: ExFrameType::InterFrame,
        packet_type: ExPacketType::CodedFrames,
        fourcc: Some(FOURCC_AV01),
        multitrack: None,
        bytes_consumed: 0,
        composition_time_offset_ms: Some(33),
        timestamp_offset_nano: 0,
        mod_ex_entries: Vec::new(),
        video_command: None,
    };
    let mut out = Vec::new();
    assert!(matches!(h.to_bytes(&mut out), Err(Error::InvalidData(_))));
}

#[test]
fn to_bytes_rejects_missing_cto_for_hevc_coded_frames() {
    let h = ExVideoTagHeader {
        frame_type: ExFrameType::InterFrame,
        packet_type: ExPacketType::CodedFrames,
        fourcc: Some(FOURCC_HVC1),
        multitrack: None,
        bytes_consumed: 0,
        composition_time_offset_ms: None,
        timestamp_offset_nano: 0,
        mod_ex_entries: Vec::new(),
        video_command: None,
    };
    let mut out = Vec::new();
    assert!(matches!(h.to_bytes(&mut out), Err(Error::InvalidData(_))));
}

#[test]
fn to_bytes_rejects_cto_overflow() {
    let h = ExVideoTagHeader {
        frame_type: ExFrameType::InterFrame,
        packet_type: ExPacketType::CodedFrames,
        fourcc: Some(FOURCC_HVC1),
        multitrack: None,
        bytes_consumed: 0,
        composition_time_offset_ms: Some(1 << 23),
        timestamp_offset_nano: 0,
        mod_ex_entries: Vec::new(),
        video_command: None,
    };
    let mut out = Vec::new();
    assert!(matches!(h.to_bytes(&mut out), Err(Error::InvalidData(_))));
}

#[test]
fn to_bytes_emits_modex_timestamp_offset_nano_then_resolves_to_packet_type() {
    let h = ExVideoTagHeader {
        frame_type: ExFrameType::KeyFrame,
        packet_type: ExPacketType::SequenceStart,
        fourcc: Some(FOURCC_AV01),
        multitrack: None,
        bytes_consumed: 0,
        composition_time_offset_ms: None,
        timestamp_offset_nano: 100,
        mod_ex_entries: vec![ModExEntry {
            subtype_raw: 0,
            payload: flv::mod_ex::ModExPayload::TimestampOffsetNano { offset_ns: 100 },
            raw: vec![0, 0, 0x64],
        }],
        video_command: None,
    };
    let mut out = Vec::new();
    h.to_bytes(&mut out).unwrap();

    assert_eq!(out[0], 0x80 | (1 << 4) | 7);
    out.extend_from_slice(&[0xDE, 0xAD]);
    let h2 = ExVideoTagHeader::parse(&out).unwrap().unwrap();
    assert_eq!(h2.frame_type, ExFrameType::KeyFrame);
    assert_eq!(h2.packet_type, ExPacketType::SequenceStart);
    assert_eq!(h2.fourcc, Some(FOURCC_AV01));
    assert_eq!(h2.timestamp_offset_nano, 100);
    assert_eq!(h2.mod_ex_entries.len(), 1);
    assert_eq!(h2.mod_ex_entries[0].timestamp_offset_nano(), Some(100));
    assert_eq!(&out[h2.bytes_consumed..], &[0xDE, 0xAD]);
}

#[test]
fn to_bytes_emits_modex_resolves_to_hevc_coded_frames_carrying_cto() {
    let h = ExVideoTagHeader {
        frame_type: ExFrameType::InterFrame,
        packet_type: ExPacketType::CodedFrames,
        fourcc: Some(FOURCC_HVC1),
        multitrack: None,
        bytes_consumed: 0,
        composition_time_offset_ms: Some(42),
        timestamp_offset_nano: 500,
        mod_ex_entries: vec![ModExEntry {
            subtype_raw: 0,
            payload: flv::mod_ex::ModExPayload::TimestampOffsetNano { offset_ns: 500 },
            raw: vec![0, 0x01, 0xF4],
        }],
        video_command: None,
    };
    let mut out = Vec::new();
    h.to_bytes(&mut out).unwrap();
    out.extend_from_slice(&[0x00, 0x00, 0x01, 0x40]);
    let h2 = ExVideoTagHeader::parse(&out).unwrap().unwrap();
    assert_eq!(h2.frame_type, ExFrameType::InterFrame);
    assert_eq!(h2.packet_type, ExPacketType::CodedFrames);
    assert_eq!(h2.fourcc, Some(FOURCC_HVC1));
    assert_eq!(h2.composition_time_offset_ms, Some(42));
    assert_eq!(h2.timestamp_offset_nano, 500);
    assert_eq!(h2.mod_ex_entries.len(), 1);
}

#[test]
fn to_bytes_emits_modex_resolves_to_multitrack_one_track() {
    let h = ExVideoTagHeader {
        frame_type: ExFrameType::KeyFrame,
        packet_type: ExPacketType::SequenceStart,
        fourcc: Some(FOURCC_AV01),
        multitrack: Some(AvMultitrackType::OneTrack),
        bytes_consumed: 0,
        composition_time_offset_ms: None,
        timestamp_offset_nano: 250,
        mod_ex_entries: vec![ModExEntry {
            subtype_raw: 0,
            payload: flv::mod_ex::ModExPayload::TimestampOffsetNano { offset_ns: 250 },
            raw: vec![0, 0, 0xFA],
        }],
        video_command: None,
    };
    let mut out = Vec::new();
    h.to_bytes(&mut out).unwrap();
    out.extend_from_slice(&[0xCA, 0xFE]);
    let h2 = ExVideoTagHeader::parse(&out).unwrap().unwrap();
    assert_eq!(h2.multitrack, Some(AvMultitrackType::OneTrack));
    assert_eq!(h2.packet_type, ExPacketType::SequenceStart);
    assert_eq!(h2.fourcc, Some(FOURCC_AV01));
    assert_eq!(h2.timestamp_offset_nano, 250);
    assert_eq!(h2.mod_ex_entries.len(), 1);
}

#[test]
fn to_bytes_rejects_internally_inconsistent_timestamp_offset_nano() {
    let h = ExVideoTagHeader {
        frame_type: ExFrameType::KeyFrame,
        packet_type: ExPacketType::CodedFrames,
        fourcc: Some(FOURCC_AV01),
        multitrack: None,
        bytes_consumed: 0,
        composition_time_offset_ms: None,
        timestamp_offset_nano: 100,
        mod_ex_entries: Vec::new(),
        video_command: None,
    };
    let mut out = Vec::new();
    assert!(matches!(h.to_bytes(&mut out), Err(Error::InvalidData(_))));
}

#[test]
fn to_bytes_rejects_modex_with_wrong_raw_ui24() {
    let h = ExVideoTagHeader {
        frame_type: ExFrameType::KeyFrame,
        packet_type: ExPacketType::CodedFrames,
        fourcc: Some(FOURCC_AV01),
        multitrack: None,
        bytes_consumed: 0,
        composition_time_offset_ms: None,
        timestamp_offset_nano: 200,
        mod_ex_entries: vec![ModExEntry {
            subtype_raw: 0,
            payload: flv::mod_ex::ModExPayload::TimestampOffsetNano { offset_ns: 200 },
            raw: vec![0, 0, 0x64],
        }],
        video_command: None,
    };
    let mut out = Vec::new();
    assert!(matches!(h.to_bytes(&mut out), Err(Error::InvalidData(_))));
}

#[test]
fn frame_type_round_trips_through_to_u8() {
    for v in 0u8..8 {
        assert_eq!(ExFrameType::from_u8(v).to_u8(), v);
    }
}

#[test]
fn packet_type_round_trips_through_to_u8() {
    for v in 0u8..16 {
        assert_eq!(ExPacketType::from_u8(v).to_u8(), v);
    }
}

use flv::error::Error;
use flv::ex_audio::{ExAudioPacketType, ExAudioTagHeader, FOURCC_AAC, FOURCC_AC3, FOURCC_FLAC, FOURCC_MP3, FOURCC_OPUS, fourcc_audio_codec_id_str};
use flv::mod_ex::{AudioPacketModExType, ModExEntry};
use flv::multitrack::AvMultitrackType;

#[test]
fn rejects_legacy_audio_tag_header() {
    let body = [0xAF, 0x01, 0xDE, 0xAD];
    assert_eq!(ExAudioTagHeader::parse(&body).unwrap(), None);
}

#[test]
fn ex_audio_rejects_empty_body() {
    assert_eq!(ExAudioTagHeader::parse(&[]).unwrap(), None);
}

#[test]
fn opus_sequence_start() {
    let mut body = vec![0x90];
    body.extend_from_slice(b"Opus");
    body.extend_from_slice(&[0x4F, 0x70]);
    let h = ExAudioTagHeader::parse(&body).unwrap().unwrap();
    assert_eq!(h.packet_type, ExAudioPacketType::SequenceStart);
    assert_eq!(h.fourcc, Some(FOURCC_OPUS));
    assert_eq!(h.multitrack, None);
    assert_eq!(h.timestamp_offset_nano, 0);
    assert_eq!(h.bytes_consumed, 5);
    assert_eq!(fourcc_audio_codec_id_str(h.fourcc.unwrap()), "opus");
    assert_eq!(&body[h.bytes_consumed..], &[0x4F, 0x70]);
}

#[test]
fn flac_sequence_start_id_string_matches() {
    let mut body = vec![0x90];
    body.extend_from_slice(b"fLaC");
    let h = ExAudioTagHeader::parse(&body).unwrap().unwrap();
    assert_eq!(h.fourcc, Some(FOURCC_FLAC));
    assert_eq!(fourcc_audio_codec_id_str(h.fourcc.unwrap()), "flac");
}

#[test]
fn ac3_coded_frames() {
    let mut body = vec![0x91];
    body.extend_from_slice(b"ac-3");
    body.extend_from_slice(&[0x0B, 0x77]);
    let h = ExAudioTagHeader::parse(&body).unwrap().unwrap();
    assert_eq!(h.packet_type, ExAudioPacketType::CodedFrames);
    assert_eq!(h.fourcc, Some(FOURCC_AC3));
    assert_eq!(fourcc_audio_codec_id_str(h.fourcc.unwrap()), "ac3");
    assert_eq!(&body[h.bytes_consumed..], &[0x0B, 0x77]);
}

#[test]
fn eac3_recognised() {
    let mut body = vec![0x91];
    body.extend_from_slice(b"ec-3");
    let h = ExAudioTagHeader::parse(&body).unwrap().unwrap();
    assert_eq!(fourcc_audio_codec_id_str(h.fourcc.unwrap()), "eac3");
}

#[test]
fn mp3_fourcc_decoded() {
    let mut body = vec![0x91];
    body.extend_from_slice(b".mp3");
    let h = ExAudioTagHeader::parse(&body).unwrap().unwrap();
    assert_eq!(h.fourcc, Some(FOURCC_MP3));
    assert_eq!(fourcc_audio_codec_id_str(h.fourcc.unwrap()), "mp3");
}

#[test]
fn aac_fourcc_decoded() {
    let mut body = vec![0x90];
    body.extend_from_slice(b"mp4a");
    let h = ExAudioTagHeader::parse(&body).unwrap().unwrap();
    assert_eq!(h.fourcc, Some(FOURCC_AAC));
    assert_eq!(fourcc_audio_codec_id_str(h.fourcc.unwrap()), "aac");
}

#[test]
fn ex_audio_sequence_end_recognised() {
    let mut body = vec![0x92];
    body.extend_from_slice(b"Opus");
    let h = ExAudioTagHeader::parse(&body).unwrap().unwrap();
    assert_eq!(h.packet_type, ExAudioPacketType::SequenceEnd);
    assert_eq!(h.fourcc, Some(FOURCC_OPUS));
    assert_eq!(h.bytes_consumed, 5);
}

#[test]
fn multichannel_config_recognised() {
    let mut body = vec![0x94];
    body.extend_from_slice(b"Opus");
    body.push(0x01);
    let h = ExAudioTagHeader::parse(&body).unwrap().unwrap();
    assert_eq!(h.packet_type, ExAudioPacketType::MultichannelConfig);
    assert_eq!(h.fourcc, Some(FOURCC_OPUS));
    assert_eq!(&body[h.bytes_consumed..], &[0x01]);
}

#[test]
fn ex_audio_multitrack_one_track_with_fourcc() {
    let mut body = vec![0x95];
    body.push(0x01);
    body.extend_from_slice(b"Opus");
    body.extend_from_slice(&[0xAA, 0xBB]);
    let h = ExAudioTagHeader::parse(&body).unwrap().unwrap();
    assert_eq!(h.packet_type, ExAudioPacketType::Multitrack);
    assert_eq!(h.multitrack, Some(AvMultitrackType::OneTrack));
    assert_eq!(h.fourcc, Some(FOURCC_OPUS));
    assert_eq!(&body[h.bytes_consumed..], &[0xAA, 0xBB]);
}

#[test]
fn ex_audio_multitrack_many_tracks_many_codecs_omits_fourcc() {
    let mut body = vec![0x95];
    body.push(0x21);
    body.extend_from_slice(&[0xCA, 0xFE]);
    let h = ExAudioTagHeader::parse(&body).unwrap().unwrap();
    assert_eq!(h.multitrack, Some(AvMultitrackType::ManyTracksManyCodecs));
    assert_eq!(h.fourcc, None);

    assert_eq!(h.bytes_consumed, 2);
}

#[test]
fn modex_timestamp_offset_nano_accumulates() {
    let mut body = vec![0x97];
    body.push(0x02);
    body.extend_from_slice(&[0x00, 0x03, 0xE8]);
    body.push(0x01);
    body.extend_from_slice(b"Opus");
    body.extend_from_slice(&[0xDE, 0xAD]);
    let h = ExAudioTagHeader::parse(&body).unwrap().unwrap();
    assert_eq!(h.packet_type, ExAudioPacketType::CodedFrames);
    assert_eq!(h.fourcc, Some(FOURCC_OPUS));
    assert_eq!(h.timestamp_offset_nano, 1000);
    assert_eq!(&body[h.bytes_consumed..], &[0xDE, 0xAD]);
}

#[test]
fn modex_chains_two_offsets() {
    let mut body = vec![0x97];
    body.push(0x02);
    body.extend_from_slice(&[0x00, 0x00, 0x64]);
    body.push(0x07);
    body.push(0x02);
    body.extend_from_slice(&[0x00, 0x00, 0xC8]);
    body.push(0x01);
    body.extend_from_slice(b"Opus");
    let h = ExAudioTagHeader::parse(&body).unwrap().unwrap();
    assert_eq!(h.timestamp_offset_nano, 300);
    assert_eq!(h.packet_type, ExAudioPacketType::CodedFrames);
    assert_eq!(h.fourcc, Some(FOURCC_OPUS));
}

#[test]
fn modex_entries_field_exposes_typed_payloads() {
    let mut body = vec![0x97];
    body.push(0x02);
    body.extend_from_slice(&[0x00, 0x01, 0xF4]);
    body.push(0x07);
    body.push(0x01);
    body.extend_from_slice(&[0xAA, 0xBB]);
    body.push(0x31);
    body.extend_from_slice(b"Opus");
    let h = ExAudioTagHeader::parse(&body).unwrap().unwrap();
    assert_eq!(h.packet_type, ExAudioPacketType::CodedFrames);
    assert_eq!(h.timestamp_offset_nano, 500);
    assert_eq!(h.mod_ex_entries.len(), 2);

    let first = &h.mod_ex_entries[0];
    assert_eq!(first.subtype_raw, 0);
    assert_eq!(first.timestamp_offset_nano(), Some(500));
    assert_eq!(
        first.audio_subtype(),
        AudioPacketModExType::TimestampOffsetNano
    );
    assert_eq!(first.raw, vec![0x00, 0x01, 0xF4]);

    let second = &h.mod_ex_entries[1];
    assert_eq!(second.subtype_raw, 3);
    assert_eq!(second.audio_subtype(), AudioPacketModExType::Reserved(3));
    assert_eq!(second.timestamp_offset_nano(), None);
    assert_eq!(second.raw, vec![0xAA, 0xBB]);
}

#[test]
fn modex_size_escape_handles_256_byte_payload() {
    let mut body = vec![0x97];
    body.push(0xFF);
    body.extend_from_slice(&[0x01, 0x00]);
    body.extend(std::iter::repeat(0xAB).take(257));

    body.push(0xF1);
    body.extend_from_slice(b"Opus");
    let h = ExAudioTagHeader::parse(&body).unwrap().unwrap();
    assert_eq!(h.packet_type, ExAudioPacketType::CodedFrames);
    assert_eq!(h.fourcc, Some(FOURCC_OPUS));

    assert_eq!(h.timestamp_offset_nano, 0);
}

#[test]
fn ex_audio_truncated_fourcc_errors() {
    let body = [0x90, b'O', b'p'];
    assert!(matches!(
        ExAudioTagHeader::parse(&body),
        Err(Error::InvalidData(_))
    ));
}

#[test]
fn truncated_modex_errors() {
    let body = [0x97];
    assert!(matches!(
        ExAudioTagHeader::parse(&body),
        Err(Error::InvalidData(_))
    ));
}

#[test]
fn truncated_multitrack_errors() {
    let body = [0x95];
    assert!(matches!(
        ExAudioTagHeader::parse(&body),
        Err(Error::InvalidData(_))
    ));
}

#[test]
fn ex_audio_nested_multitrack_rejected() {
    let body = [0x95, 0x05];
    assert!(matches!(
        ExAudioTagHeader::parse(&body),
        Err(Error::InvalidData(_))
    ));
}

#[test]
fn ex_audio_unknown_fourcc_falls_through() {
    let mut body = vec![0x90];
    body.extend_from_slice(b"zzzz");
    let h = ExAudioTagHeader::parse(&body).unwrap().unwrap();
    assert_eq!(h.fourcc, Some(u32::from_be_bytes(*b"zzzz")));
    assert_eq!(
        fourcc_audio_codec_id_str(h.fourcc.unwrap()),
        "flv:exaudio:zzzz"
    );
}

#[test]
fn ex_audio_unknown_fourcc_non_ascii_falls_through_as_hex() {
    let mut body = vec![0x90];
    body.extend_from_slice(&[0x01, 0x02, 0x03, 0x04]);
    let h = ExAudioTagHeader::parse(&body).unwrap().unwrap();
    assert_eq!(
        fourcc_audio_codec_id_str(h.fourcc.unwrap()),
        "flv:exaudio:0x01020304"
    );
}

fn assert_round_trips(body: &[u8]) -> Vec<u8> {
    let h = ExAudioTagHeader::parse(body).unwrap().unwrap();
    let payload_tail = &body[h.bytes_consumed..];
    let mut out = Vec::new();
    h.to_bytes(&mut out).unwrap();
    out.extend_from_slice(payload_tail);
    let h2 = ExAudioTagHeader::parse(&out).unwrap().unwrap();
    assert_eq!(h.packet_type, h2.packet_type);
    assert_eq!(h.fourcc, h2.fourcc);
    assert_eq!(h.multitrack, h2.multitrack);
    assert_eq!(h.bytes_consumed, h2.bytes_consumed);
    assert_eq!(&out[h2.bytes_consumed..], payload_tail);
    out
}

#[test]
fn to_bytes_opus_sequence_start_round_trip() {
    let mut body = vec![0x90];
    body.extend_from_slice(b"Opus");
    body.extend_from_slice(&[0x4F, 0x70, 0x75, 0x73]);
    let out = assert_round_trips(&body);
    assert_eq!(out, body);
}

#[test]
fn to_bytes_flac_round_trip() {
    let mut body = vec![0x91];
    body.extend_from_slice(b"fLaC");
    body.extend_from_slice(&[0xFF, 0xF8]);
    let out = assert_round_trips(&body);
    assert_eq!(out, body);
}

#[test]
fn to_bytes_ac3_coded_frames_round_trip() {
    let mut body = vec![0x91];
    body.extend_from_slice(b"ac-3");
    body.extend_from_slice(&[0x0B, 0x77, 0x00]);
    let out = assert_round_trips(&body);
    assert_eq!(out, body);
}

#[test]
fn to_bytes_mp3_round_trip() {
    let mut body = vec![0x91];
    body.extend_from_slice(b".mp3");
    body.extend_from_slice(&[0xFF, 0xFB, 0x90]);
    let out = assert_round_trips(&body);
    assert_eq!(out, body);
}

#[test]
fn to_bytes_aac_mp4a_sequence_start_round_trip() {
    let mut body = vec![0x90];
    body.extend_from_slice(b"mp4a");
    body.extend_from_slice(&[0x12, 0x10]);
    let out = assert_round_trips(&body);
    assert_eq!(out, body);
}

#[test]
fn ex_audio_to_bytes_sequence_end_round_trip() {
    let mut body = vec![0x92];
    body.extend_from_slice(b"Opus");
    let out = assert_round_trips(&body);
    assert_eq!(out, body);
}

#[test]
fn to_bytes_multichannel_config_round_trip() {
    let mut body = vec![0x94];
    body.extend_from_slice(b"Opus");
    body.push(0x01);
    let out = assert_round_trips(&body);
    assert_eq!(out, body);
}

#[test]
fn to_bytes_rejects_multitrack_emission() {
    let h = ExAudioTagHeader {
        packet_type: ExAudioPacketType::Multitrack,
        fourcc: Some(FOURCC_OPUS),
        multitrack: Some(AvMultitrackType::OneTrack),
        timestamp_offset_nano: 0,
        mod_ex_entries: Vec::new(),
        bytes_consumed: 0,
    };
    let mut out = Vec::new();
    assert!(matches!(h.to_bytes(&mut out), Err(Error::InvalidData(_))));
}

#[test]
fn to_bytes_rejects_modex_emission() {
    let h = ExAudioTagHeader {
        packet_type: ExAudioPacketType::CodedFrames,
        fourcc: Some(FOURCC_OPUS),
        multitrack: None,
        timestamp_offset_nano: 0,
        mod_ex_entries: vec![ModExEntry {
            subtype_raw: 0,
            payload: flv::mod_ex::ModExPayload::TimestampOffsetNano { offset_ns: 100 },
            raw: vec![0, 0, 0x64],
        }],
        bytes_consumed: 0,
    };
    let mut out = Vec::new();
    assert!(matches!(h.to_bytes(&mut out), Err(Error::InvalidData(_))));
}

#[test]
fn to_bytes_rejects_missing_fourcc_single_track() {
    let h = ExAudioTagHeader {
        packet_type: ExAudioPacketType::CodedFrames,
        fourcc: None,
        multitrack: None,
        timestamp_offset_nano: 0,
        mod_ex_entries: Vec::new(),
        bytes_consumed: 0,
    };
    let mut out = Vec::new();
    assert!(matches!(h.to_bytes(&mut out), Err(Error::InvalidData(_))));
}

#[test]
fn audio_packet_type_round_trips_through_to_u8() {
    for v in 0u8..16 {
        assert_eq!(ExAudioPacketType::from_u8(v).to_u8(), v);
    }
}

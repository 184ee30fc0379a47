use flv::demuxer::entries::{Entry, EntryValue};
use flv::demuxer::open;
use flv::demuxer::stream::frame_rate_ratio;
use flv::double::Double;
use flv::error::Error;

fn d(x: f64) -> Double {
    Double { bits: x.to_bits() }
}

fn f(x: Double) -> f64 {
    f64::from_bits(x.bits)
}

fn text(s: &str) -> EntryValue {
    EntryValue::Text(s.to_string())
}

fn has(entries: &[Entry], key: &str, value: &EntryValue) -> bool {
    entries.iter().any(|e| e.key == key && e.value == *value)
}

fn make_flv(tags: &[&[u8]]) -> Vec<u8> {
    let mut out = Vec::new();
    out.extend_from_slice(b"FLV\x01");
    out.push(0x05);
    out.extend_from_slice(&9u32.to_be_bytes());
    out.extend_from_slice(&0u32.to_be_bytes());
    for t in tags {
        let len = t.len() as u32;
        out.extend_from_slice(t);
        out.extend_from_slice(&(len + 11).to_be_bytes());
    }
    out
}

fn make_tag(kind: u8, timestamp_ms: u32, body: &[u8]) -> Vec<u8> {
    let mut t = Vec::with_capacity(11 + body.len());
    t.push(kind);
    let sz = body.len() as u32;
    t.push((sz >> 16) as u8);
    t.push((sz >> 8) as u8);
    t.push(sz as u8);
    t.push((timestamp_ms >> 16) as u8);
    t.push((timestamp_ms >> 8) as u8);
    t.push(timestamp_ms as u8);
    t.push((timestamp_ms >> 24) as u8);
    t.extend_from_slice(&[0, 0, 0]);
    t.extend_from_slice(body);
    t
}

fn on_metadata_with_property(key: &str, value: f64) -> Vec<u8> {
    let mut body = Vec::new();
    body.push(0x02);
    body.extend_from_slice(&("onMetaData".len() as u16).to_be_bytes());
    body.extend_from_slice(b"onMetaData");
    body.push(0x08);
    body.extend_from_slice(&0u32.to_be_bytes());
    body.extend_from_slice(&(key.len() as u16).to_be_bytes());
    body.extend_from_slice(key.as_bytes());
    body.push(0x00);
    body.extend_from_slice(&value.to_be_bytes());
    body.extend_from_slice(&[0x00, 0x00, 0x09]);
    body
}

#[test]
fn open_empty_fails() {
    assert!(open(Vec::new()).is_err());
}

#[test]
fn open_synth_flv_mp3_vp6f_roundtrip() {
    let mp3_body = {
        let flags = (2 << 4) | (2 << 2) | 0x02 | 0x01;
        let mut v = vec![flags as u8];
        v.extend_from_slice(&[0xAA, 0xBB, 0xCC]);
        v
    };
    let vp6_body = {
        let flags = (1 << 4) | 4;
        let mut v = vec![flags as u8];
        v.extend_from_slice(&[0x00, 0xDE, 0xAD, 0xBE, 0xEF]);
        v
    };

    let audio_tag = make_tag(0x08, 0, &mp3_body);
    let video_tag = make_tag(0x09, 33, &vp6_body);
    let flv = make_flv(&[&audio_tag, &video_tag]);

    let mut dmx = open(flv).unwrap();
    assert_eq!(dmx.format_name(), "flv");
    assert_eq!(dmx.stream_count(), 2);
    assert_eq!(dmx.audio_stream_index(), Some(0));
    assert_eq!(dmx.video_stream_index(), Some(1));
    assert_eq!(dmx.audio_stream(&[]).unwrap().codec, "mp3");
    assert_eq!(dmx.video_stream(&[]).unwrap().codec, "vp6f");

    let p1 = dmx.next_packet().unwrap();
    assert_eq!(p1.stream_index, 0);
    assert_eq!(p1.pts, 0);
    assert_eq!(p1.data, vec![0xAA, 0xBB, 0xCC]);

    let p2 = dmx.next_packet().unwrap();
    assert_eq!(p2.stream_index, 1);
    assert_eq!(p2.pts, 33);
    assert!(p2.keyframe);
    assert_eq!(p2.data, vec![0x00, 0xDE, 0xAD, 0xBE, 0xEF]);

    assert!(matches!(dmx.next_packet(), Err(Error::Eof)));
}

#[test]
fn videodatarate_lifts_into_bit_rate() {
    let script_tag = make_tag(0x12, 0, &on_metadata_with_property("videodatarate", 768.0));
    let vp6_body = {
        let flags = (1 << 4) | 4;
        vec![flags as u8, 0x00, 0x42]
    };
    let video_tag = make_tag(0x09, 0, &vp6_body);
    let flv = make_flv(&[&script_tag, &video_tag]);
    let dmx = open(flv).unwrap();
    let kbps = dmx.video_stream(&[]).unwrap().data_rate_kbps.unwrap();
    assert_eq!((f(kbps) * 1000.0) as u64, 768_000);
}

#[test]
fn videoframerate_snaps_to_ntsc_fraction() {
    let script_tag = make_tag(0x12, 0, &on_metadata_with_property("videoframerate", 29.97));
    let vp6_body = {
        let flags = (1 << 4) | 4;
        vec![flags as u8, 0x00, 0x42]
    };
    let video_tag = make_tag(0x09, 0, &vp6_body);
    let flv = make_flv(&[&script_tag, &video_tag]);
    let dmx = open(flv).unwrap();
    let fps = dmx.video_stream(&[]).unwrap().frame_rate.expect("frame_rate set");
    let milli = (f(fps) * 1000.0).round() as i64;
    assert_eq!(frame_rate_ratio(fps, milli), (30_000, 1001));
}

#[test]
fn audiosamplerate_overrides_soundrate_field() {
    let script_tag = make_tag(
        0x12,
        0,
        &on_metadata_with_property("audiosamplerate", 48_000.0),
    );
    let flags = (10 << 4) | (3 << 2) | 0x02 | 0x01;
    let audio_body = vec![flags as u8, 0x01, 0xAA];
    let audio_tag = make_tag(0x08, 0, &audio_body);
    let flv = make_flv(&[&script_tag, &audio_tag]);
    let dmx = open(flv).unwrap();
    assert_eq!(dmx.audio_stream(&[]).unwrap().sample_rate, Some(48_000));
}

#[test]
fn video_info_command_packet_is_discardable_header() {
    let cmd_body = vec![(5u8 << 4) | 2, 0x00];
    let video_tag_cmd = make_tag(0x09, 100, &cmd_body);
    let kf_body = vec![(1u8 << 4) | 2, 0xAA, 0xBB];
    let video_tag_kf = make_tag(0x09, 0, &kf_body);
    let flv = make_flv(&[&video_tag_kf, &video_tag_cmd]);
    let mut dmx = open(flv).unwrap();
    let p1 = dmx.next_packet().unwrap();
    assert!(p1.keyframe, "first packet should be the keyframe");
    let p2 = dmx.next_packet().unwrap();
    assert!(p2.header, "video-info command must be header-flagged");
    assert!(
        p2.discard,
        "video-info command must be discard-flagged (not codec data)"
    );
    assert_eq!(p2.data, vec![0x00]);
    assert!(matches!(dmx.next_packet(), Err(Error::Eof)));
}

#[test]
fn additional_header_marks_demuxer_encrypted() {
    let mut body = Vec::new();
    body.push(0x02);
    body.extend_from_slice(&17u16.to_be_bytes());
    body.extend_from_slice(b"|AdditionalHeader");
    body.push(0x03);
    body.extend_from_slice(&10u16.to_be_bytes());
    body.extend_from_slice(b"Encryption");
    body.push(0x03);
    body.extend_from_slice(&7u16.to_be_bytes());
    body.extend_from_slice(b"Version");
    body.push(0x00);
    body.extend_from_slice(&2.0f64.to_be_bytes());
    body.extend_from_slice(&6u16.to_be_bytes());
    body.extend_from_slice(b"Method");
    body.push(0x02);
    body.extend_from_slice(&8u16.to_be_bytes());
    body.extend_from_slice(b"Standard");
    body.extend_from_slice(&6u16.to_be_bytes());
    body.extend_from_slice(b"Params");
    body.push(0x03);
    body.extend_from_slice(&19u16.to_be_bytes());
    body.extend_from_slice(b"EncryptionAlgorithm");
    body.push(0x02);
    body.extend_from_slice(&7u16.to_be_bytes());
    body.extend_from_slice(b"AES-CBC");
    body.extend_from_slice(&16u16.to_be_bytes());
    body.extend_from_slice(b"EncryptionParams");
    body.push(0x03);
    body.extend_from_slice(&9u16.to_be_bytes());
    body.extend_from_slice(b"KeyLength");
    body.push(0x00);
    body.extend_from_slice(&16.0f64.to_be_bytes());
    body.extend_from_slice(&[0x00, 0x00, 0x09]);
    body.extend_from_slice(&7u16.to_be_bytes());
    body.extend_from_slice(b"KeyInfo");
    body.push(0x03);
    body.extend_from_slice(&7u16.to_be_bytes());
    body.extend_from_slice(b"SubType");
    body.push(0x02);
    body.extend_from_slice(&13u16.to_be_bytes());
    body.extend_from_slice(b"FlashAccessv2");
    body.extend_from_slice(&[0x00, 0x00, 0x09]);
    body.extend_from_slice(&[0x00, 0x00, 0x09]);
    body.extend_from_slice(&[0x00, 0x00, 0x09]);
    body.extend_from_slice(&[0x00, 0x00, 0x09]);

    let script_tag = make_tag(0x12, 0, &body);
    let vp6_body = vec![(1u8 << 4) | 4, 0x00, 0x42];
    let video_tag = make_tag(0x09, 0, &vp6_body);
    let flv = make_flv(&[&script_tag, &video_tag]);
    let dmx = open(flv).unwrap();
    let md = dmx.metadata();
    assert!(dmx.is_encrypted());
    assert!(has(md, "encryption", &text("true")));
    assert!(has(md, "encryption.algorithm", &text("AES-CBC")));
    assert!(has(md, "encryption.key_subtype", &text("FlashAccessv2")));
    assert!(has(md, "encryption.version", &EntryValue::Number(d(2.0))));
    assert!(has(md, "encryption.method", &text("Standard")));
    assert!(has(md, "encryption.key_length", &EntryValue::Number(d(16.0))));
}

#[test]
fn filtered_audio_tag_emits_discardable_packet() {
    let mp3_body = {
        let flags = (2u8 << 4) | (2 << 2) | 0x02 | 0x01;
        vec![flags, 0xAA, 0xBB, 0xCC]
    };
    let plain_audio = make_tag(0x08, 0, &mp3_body);

    let mut filtered_body = vec![1u8];
    filtered_body.extend_from_slice(b"Encryption\0");
    filtered_body.push(0);
    filtered_body.push(0);
    filtered_body.push(16);
    filtered_body.extend_from_slice(&[0u8; 16]);
    filtered_body.extend_from_slice(&[0xDE, 0xAD, 0xBE, 0xEF]);
    let filtered_audio = make_tag(0x28, 100, &filtered_body);
    let flv = make_flv(&[&plain_audio, &filtered_audio]);

    let mut dmx = open(flv).unwrap();
    let p1 = dmx.next_packet().unwrap();
    assert!(!p1.discard, "plain audio should not be discardable");
    let p2 = dmx.next_packet().unwrap();
    assert!(
        p2.discard,
        "filtered audio body must surface with discard=true"
    );
    assert_eq!(p2.data, vec![0xDE, 0xAD, 0xBE, 0xEF]);
}

#[test]
fn on_xmp_data_surfaces_xmp_metadata_string() {
    let live_xml = "<x:xmpmeta>hi</x:xmpmeta>";
    let mut body = Vec::new();
    body.push(0x02);
    body.extend_from_slice(&("onXMPData".len() as u16).to_be_bytes());
    body.extend_from_slice(b"onXMPData");
    body.push(0x03);
    body.extend_from_slice(&("liveXML".len() as u16).to_be_bytes());
    body.extend_from_slice(b"liveXML");
    body.push(0x02);
    body.extend_from_slice(&(live_xml.len() as u16).to_be_bytes());
    body.extend_from_slice(live_xml.as_bytes());
    body.extend_from_slice(&[0x00, 0x00, 0x09]);
    let script_tag = make_tag(0x12, 0, &body);
    let vp6_body = vec![(1u8 << 4) | 4, 0x00, 0x42];
    let video_tag = make_tag(0x09, 0, &vp6_body);
    let flv = make_flv(&[&script_tag, &video_tag]);
    let dmx = open(flv).unwrap();
    assert!(has(dmx.metadata(), "xmp", &text(live_xml)));
}

#[test]
fn ex_video_av1_sequence_start_landed_in_extradata() {
    let mut tag_body = vec![0x90];
    tag_body.extend_from_slice(b"av01");
    let config = [0x81, 0x05, 0x0C, 0x00, 0x0A, 0x0B];
    tag_body.extend_from_slice(&config);
    let video_tag = make_tag(0x09, 0, &tag_body);
    let mut frame_body = vec![0xA1];
    frame_body.extend_from_slice(b"av01");
    frame_body.extend_from_slice(&[0xDE, 0xAD, 0xBE, 0xEF]);
    let frame_tag = make_tag(0x09, 33, &frame_body);
    let flv = make_flv(&[&video_tag, &frame_tag]);
    let mut dmx = open(flv).unwrap();
    let stream = dmx.video_stream(&[]).unwrap();
    assert_eq!(stream.codec, "av1");
    assert_eq!(stream.extradata, config.to_vec());
    let p1 = dmx.next_packet().unwrap();
    assert!(p1.header, "SequenceStart must be header-flagged");
    assert!(p1.keyframe);
    assert_eq!(p1.data, config.to_vec());
    let p2 = dmx.next_packet().unwrap();
    assert!(!p2.header);
    assert_eq!(p2.data, vec![0xDE, 0xAD, 0xBE, 0xEF]);
    assert_eq!(p2.pts, 33);
    assert_eq!(p2.dts, 33);
}

#[test]
fn ex_video_hevc_coded_frames_applies_composition_time_offset() {
    let mut seq_body = vec![0x90];
    seq_body.extend_from_slice(b"hvc1");
    seq_body.extend_from_slice(&[0x01, 0x02, 0x03, 0x04]);
    let seq_tag = make_tag(0x09, 0, &seq_body);
    let mut frame_body = vec![0xA1];
    frame_body.extend_from_slice(b"hvc1");
    frame_body.extend_from_slice(&[0x00, 0x00, 0x32]);
    frame_body.extend_from_slice(&[0xCA, 0xFE]);
    let frame_tag = make_tag(0x09, 100, &frame_body);
    let flv = make_flv(&[&seq_tag, &frame_tag]);
    let mut dmx = open(flv).unwrap();
    assert_eq!(dmx.video_stream(&[]).unwrap().codec, "h265");
    let _h = dmx.next_packet().unwrap();
    let p = dmx.next_packet().unwrap();
    assert_eq!(p.dts, 100);
    assert_eq!(p.pts, 150);
    assert_eq!(p.data, vec![0xCA, 0xFE]);
}

#[test]
fn ex_video_metadata_packet_is_discardable_header() {
    let mut seq_body = vec![0x90];
    seq_body.extend_from_slice(b"hvc1");
    seq_body.push(0x00);
    let seq_tag = make_tag(0x09, 0, &seq_body);
    let mut meta_body = vec![0x94];
    meta_body.extend_from_slice(b"hvc1");
    meta_body.extend_from_slice(b"amf-color-info-blob");
    let meta_tag = make_tag(0x09, 0, &meta_body);
    let flv = make_flv(&[&seq_tag, &meta_tag]);
    let mut dmx = open(flv).unwrap();
    let _seq = dmx.next_packet().unwrap();
    let m = dmx.next_packet().unwrap();
    assert!(m.header);
    assert!(m.discard);
    assert_eq!(m.data, b"amf-color-info-blob".to_vec());
}

#[test]
fn ex_video_sequence_end_yields_no_packet() {
    let mut seq_body = vec![0x90];
    seq_body.extend_from_slice(b"av01");
    seq_body.push(0x42);
    let seq_tag = make_tag(0x09, 0, &seq_body);
    let mut end_body = vec![0x92];
    end_body.extend_from_slice(b"av01");
    let end_tag = make_tag(0x09, 200, &end_body);
    let flv = make_flv(&[&seq_tag, &end_tag]);
    let mut dmx = open(flv).unwrap();
    let _seq = dmx.next_packet().unwrap();
    assert!(matches!(dmx.next_packet(), Err(Error::Eof)));
}

#[test]
fn ex_video_command_frame_is_discardable() {
    let mut seq_body = vec![0x90];
    seq_body.extend_from_slice(b"av01");
    seq_body.push(0x00);
    let seq_tag = make_tag(0x09, 0, &seq_body);
    let mut cmd_body = vec![0xD0];
    cmd_body.extend_from_slice(b"av01");
    cmd_body.push(0x00);
    let cmd_tag = make_tag(0x09, 100, &cmd_body);
    let flv = make_flv(&[&seq_tag, &cmd_tag]);
    let mut dmx = open(flv).unwrap();
    let _ = dmx.next_packet().unwrap();
    let cmd = dmx.next_packet().unwrap();
    assert!(cmd.header);
    assert!(cmd.discard);
    assert!(!cmd.keyframe);
}

#[test]
fn script_metadata_surfaces() {
    let mut body = Vec::new();
    body.push(0x02);
    body.extend_from_slice(&(10u16).to_be_bytes());
    body.extend_from_slice(b"onMetaData");
    body.push(0x08);
    body.extend_from_slice(&0u32.to_be_bytes());
    body.extend_from_slice(&(8u16).to_be_bytes());
    body.extend_from_slice(b"duration");
    body.push(0x00);
    body.extend_from_slice(&1.5_f64.to_be_bytes());
    body.extend_from_slice(&(5u16).to_be_bytes());
    body.extend_from_slice(b"width");
    body.push(0x00);
    body.extend_from_slice(&640.0_f64.to_be_bytes());
    body.extend_from_slice(&[0x00, 0x00, 0x09]);

    let script_tag = make_tag(0x12, 0, &body);
    let vp6_body = {
        let flags = (1 << 4) | 4;
        vec![flags as u8, 0x00, 0x42]
    };
    let video_tag = make_tag(0x09, 0, &vp6_body);
    let flv = make_flv(&[&script_tag, &video_tag]);

    let dmx = open(flv).unwrap();
    let seconds = f(dmx.duration_seconds().unwrap());
    assert_eq!((seconds * 1_000_000.0).round() as i64, 1_500_000);
    let md = dmx.metadata();
    assert!(has(md, "duration", &EntryValue::Number(d(1.5))));
    assert!(has(md, "width", &EntryValue::Number(d(640.0))));
    assert_eq!(dmx.video_stream(&[]).unwrap().width, Some(640));
}

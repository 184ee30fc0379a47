use flv::amf0;
use flv::amf3::{Amf3Array, Amf3Object, Amf3Value};
use flv::color_info::{ColorConfig, ColorInfo, HdrCll};
use flv::demuxer::discover::{Opening, MAX_DISCOVERY_TAGS};
use flv::demuxer::entries::{flatten_amf_value, Entry, EntryValue};
use flv::demuxer::seek::{check_landing, Landing};
use flv::demuxer::stream::{
    frame_rate_ratio, metadata_lookup_bool, metadata_lookup_f64, metadata_lookup_u32,
    ntsc_frame_rate,
};
use flv::demuxer::tracks::{list_tag_tracks, resolve_tracks};
use flv::demuxer::{open, probe};
use flv::double::Double;
use flv::error::{Error, Fault};
use flv::ex_audio::{ExAudioPacketType, ExAudioTagHeader, FOURCC_AAC, FOURCC_OPUS};
use flv::ex_video::{ExFrameType, ExPacketType, ExVideoTagHeader, FOURCC_AV01, FOURCC_HVC1};
use flv::multichannel::{AudioChannel, AudioChannelOrder, MultichannelConfig};
use flv::multitrack::{join_tracks, AvMultitrackType, JoinTrack, MultitrackPacketTrack};
use flv::script::{
    write_on_cue_point, write_on_metadata, write_on_xmp_data, CuePointParams, CuePointType,
    MetadataBag, ObjectBuilder, TrackInfo, TrackInfoMap,
};
use flv::tag::ex::{
    write_av1_coded_frames, write_av1_sequence_start, write_ex_audio_multichannel_config,
    write_ex_audio_sequence_end, write_ex_video_color_info, write_ex_video_color_info_reset,
    write_ex_video_tag, write_hevc_coded_frames, write_hevc_sequence_start, write_opus_coded_frames,
    write_opus_sequence_start,
};
use flv::tag::{
    write_aac_raw_tag, write_audio_tag, write_avc_end_of_sequence, write_avc_nalu_tag,
    write_avc_sequence_header, write_first_previous_tag_size, write_h263_tag, write_mp3_tag,
    write_tag, write_video_info_command_tag, write_vp6_tag, write_vp6a_tag, AudioTagHeader,
    TagHeader, TagType, VideoInfoCommand, AUDIO_CODEC_AAC, AUDIO_CODEC_LPCM_LE, AUDIO_CODEC_SPEEX,
};

fn d(x: f64) -> Double {
    Double { bits: x.to_bits() }
}

fn text(s: &str) -> EntryValue {
    EntryValue::Text(s.to_string())
}

fn number(x: f64) -> EntryValue {
    EntryValue::Number(d(x))
}

fn under<'a>(entries: &'a [Entry], key: &str) -> Vec<&'a EntryValue> {
    entries.iter().filter(|e| e.key == key).map(|e| &e.value).collect()
}

fn start(has_audio: bool, has_video: bool) -> Vec<u8> {
    let mut out = Vec::new();
    flv::header::write(&mut out, has_audio, has_video).unwrap();
    write_first_previous_tag_size(&mut out).unwrap();
    out
}

fn script_tag(out: &mut Vec<u8>, name: &str, value: &[u8]) {
    let mut body = Vec::new();
    amf0::write_string(&mut body, name).unwrap();
    body.extend_from_slice(value);
    write_tag(out, TagType::ScriptData, 0, 0, &body).unwrap();
}

#[test]
fn probe_is_sure_of_a_header_alone() {
    let file = start(true, true);
    assert_eq!(probe(&file), 100);
    assert_eq!(probe(&file[..9]), 100);
    assert_eq!(probe(&file[..8]), 0);
    assert_eq!(probe(b"FLX\x01\x05\x00\x00\x00\x09"), 0);
    assert_eq!(probe(b"FLV\x02\x05\x00\x00\x00\x09"), 0);
    assert_eq!(probe(b"FLV\x01\x05\x00\x00\x00\x0A"), 0);
}

#[test]
fn a_file_without_tags_has_no_streams() {
    let file = start(true, true);
    assert_eq!(
        open(file.clone()).unwrap_err(),
        Error::InvalidData(Fault::NoStreams)
    );
    assert_eq!(open(file[..12].to_vec()).unwrap_err(), Error::UnexpectedEof);
    assert_eq!(open(file[..5].to_vec()).unwrap_err(), Error::UnexpectedEof);
}

#[test]
fn metadata_alone_opens_and_every_scalar_survives() {
    let bag = MetadataBag::new()
        .number("duration", d(2.5))
        .boolean("stereo", true)
        .string("encoder", "me")
        .null("nothing")
        .undefined("unset")
        .xml("doc", "<a/>")
        .date("creationdate", d(1_735_689_600_000.0), 60)
        .object("nested", ObjectBuilder::new().number("x", d(1.0)).build());
    let mut file = start(true, false);
    write_on_metadata(&mut file, &bag).unwrap();
    let mut dmx = open(file).unwrap();
    assert_eq!(dmx.stream_count(), 0);
    assert_eq!(dmx.duration_seconds(), Some(d(2.5)));
    let md = dmx.metadata();
    assert_eq!(under(md, "duration"), [&number(2.5)]);
    assert_eq!(under(md, "stereo"), [&text("true")]);
    assert_eq!(under(md, "encoder"), [&text("me")]);
    assert_eq!(under(md, "nothing"), [&text("null")]);
    assert_eq!(under(md, "unset"), [&text("undefined")]);
    assert_eq!(under(md, "doc"), [&text("<a/>")]);
    assert_eq!(
        under(md, "creationdate"),
        [&EntryValue::Date {
            time_ms: d(1_735_689_600_000.0),
            tz: 60
        }]
    );
    assert_eq!(under(md, "nested.x"), [&number(1.0)]);
    assert_eq!(dmx.next_packet().unwrap_err(), Error::Eof);
}

#[test]
fn implausible_lengths_are_passed_over() {
    let bag = MetadataBag::new()
        .number("duration", d(-1.0))
        .number("duration", d(f64::NAN))
        .number("duration", d(f64::INFINITY))
        .number("duration", d(9_223_372_036_854.775))
        .number("duration", d(9_223_372_036_854.773))
        .number("duration", d(1.0));
    let mut file = start(true, false);
    write_on_metadata(&mut file, &bag).unwrap();
    let dmx = open(file).unwrap();
    assert_eq!(dmx.duration_seconds(), Some(d(9_223_372_036_854.773)));
}

#[test]
fn plain_audio_comes_back() {
    let mut file = start(true, false);
    let h = AudioTagHeader {
        codec_id: AUDIO_CODEC_SPEEX,
        sample_rate_idx: 1,
        is_16bit: true,
        is_stereo: false,
    };
    write_audio_tag(&mut file, 5, h, &[1, 2, 3]).unwrap();
    write_audio_tag(&mut file, 25, h, &[]).unwrap();
    write_tag(&mut file, TagType::Audio, 45, 0, &[]).unwrap();
    write_audio_tag(&mut file, 65, h, &[4]).unwrap();
    let mut dmx = open(file).unwrap();
    let s = dmx.audio_stream(&[]).unwrap();
    assert_eq!(s.codec, "speex");
    assert_eq!(s.sample_rate, Some(11025));
    assert_eq!(s.channels, Some(1));
    assert_eq!(s.sample_bits, Some(16));
    let p = dmx.next_packet().unwrap();
    assert_eq!((p.pts, p.dts, p.stream_index), (5, 5, 0));
    assert!(p.keyframe && !p.header && !p.discard);
    assert_eq!(p.data, [1, 2, 3]);
    for at in [25, 45] {
        let silence = dmx.next_packet().unwrap();
        assert_eq!(silence.pts, at);
        assert!(silence.header && silence.discard);
        assert!(silence.data.is_empty());
    }
    assert_eq!(dmx.next_packet().unwrap().data, [4]);
    assert_eq!(dmx.next_packet().unwrap_err(), Error::Eof);
    assert_eq!(dmx.next_packet().unwrap_err(), Error::Eof);
}

#[test]
fn silence_before_audio_makes_no_stream() {
    let mut file = start(true, true);
    write_tag(&mut file, TagType::Audio, 0, 0, &[]).unwrap();
    write_vp6_tag(&mut file, 0, true, &[7]).unwrap();
    let mut dmx = open(file).unwrap();
    assert_eq!(dmx.audio_stream_index(), None);
    assert_eq!(dmx.video_stream_index(), Some(0));
    assert_eq!(dmx.next_packet().unwrap().data, [7]);
}

#[test]
fn aac_configuration_sets_the_stream_up() {
    let aac = AudioTagHeader {
        codec_id: AUDIO_CODEC_AAC,
        sample_rate_idx: 3,
        is_16bit: true,
        is_stereo: true,
    };
    let mut file = start(true, false);
    write_audio_tag(&mut file, 0, aac, &[0, 0x12, 0x10]).unwrap();
    write_aac_raw_tag(&mut file, 10, &[9, 8]).unwrap();
    write_audio_tag(&mut file, 20, aac, &[2, 1]).unwrap();
    write_audio_tag(&mut file, 30, aac, &[]).unwrap();
    let mut dmx = open(file).unwrap();
    let s = dmx.audio_stream(&[]).unwrap();
    assert_eq!(s.codec, "aac");
    assert_eq!(s.extradata, [0x12, 0x10]);
    let config = dmx.next_packet().unwrap();
    assert!(config.header && !config.discard);
    assert_eq!(config.data, [0x12, 0x10]);
    let raw = dmx.next_packet().unwrap();
    assert!(!raw.header);
    assert_eq!(raw.data, [9, 8]);
    assert_eq!(dmx.next_packet().unwrap_err(), Error::Eof);
}

#[test]
fn avc_comes_back_with_its_reordering() {
    let mut file = start(false, true);
    write_avc_sequence_header(&mut file, 0, &[1, 0x64, 0, 0x1f]).unwrap();
    write_avc_nalu_tag(&mut file, 0, true, 80, &[0, 0, 0, 1, 0x65]).unwrap();
    write_avc_nalu_tag(&mut file, 40, false, -40, &[0, 0, 0, 1, 0x41]).unwrap();
    write_avc_end_of_sequence(&mut file, 80).unwrap();
    let mut dmx = open(file).unwrap();
    let s = dmx.video_stream(&[]).unwrap();
    assert_eq!(s.codec, "h264");
    assert_eq!(s.extradata, [1, 0x64, 0, 0x1f]);
    let config = dmx.next_packet().unwrap();
    assert!(config.header && config.keyframe);
    assert_eq!(config.data, [1, 0x64, 0, 0x1f]);
    let key = dmx.next_packet().unwrap();
    assert_eq!((key.dts, key.pts), (0, 80));
    assert!(key.keyframe && !key.header);
    assert_eq!(key.data, [0, 0, 0, 1, 0x65]);
    let inter = dmx.next_packet().unwrap();
    assert_eq!((inter.dts, inter.pts), (40, 0));
    assert!(!inter.keyframe);
    assert_eq!(dmx.next_packet().unwrap_err(), Error::Eof);
}

#[test]
fn alpha_offset_is_taken_off_the_frames() {
    let mut file = start(false, true);
    write_vp6a_tag(&mut file, 0, true, 0x33, &[1, 2]).unwrap();
    write_h263_tag(&mut file, 5, false, &[3]).unwrap();
    write_video_info_command_tag(&mut file, 6, VideoInfoCommand::EndClientSeek).unwrap();
    let mut dmx = open(file).unwrap();
    let s = dmx.video_stream(&[]).unwrap();
    assert_eq!(s.codec, "vp6a");
    assert_eq!(s.extradata, [0x33]);
    assert_eq!(dmx.next_packet().unwrap().data, [1, 2]);
    assert_eq!(dmx.next_packet().unwrap().data, [3]);
    let command = dmx.next_packet().unwrap();
    assert!(command.header && command.discard && !command.keyframe);
    assert_eq!(command.data, [1]);
}

#[test]
fn fourcc_media_comes_back() {
    let mut file = start(true, true);
    write_opus_sequence_start(&mut file, 0, b"OpusHead").unwrap();
    write_hevc_sequence_start(&mut file, 0, &[1, 2]).unwrap();
    write_opus_coded_frames(&mut file, 20, &[5]).unwrap();
    write_hevc_coded_frames(&mut file, 40, true, -3, &[6]).unwrap();
    write_ex_audio_sequence_end(&mut file, 60, FOURCC_OPUS).unwrap();
    let mut dmx = open(file).unwrap();
    let audio = dmx.audio_stream(&[]).unwrap();
    assert_eq!(audio.codec, "opus");
    assert_eq!(audio.extradata, b"OpusHead");
    assert_eq!((audio.sample_rate, audio.channels, audio.sample_bits), (None, None, None));
    let video = dmx.video_stream(&[]).unwrap();
    assert_eq!(video.codec, "h265");
    assert_eq!(video.extradata, [1, 2]);
    assert!(dmx.next_packet().unwrap().header);
    assert!(dmx.next_packet().unwrap().header);
    let sound = dmx.next_packet().unwrap();
    assert_eq!((sound.stream_index, sound.pts), (0, 20));
    assert_eq!(sound.data, [5]);
    let picture = dmx.next_packet().unwrap();
    assert_eq!((picture.stream_index, picture.dts, picture.pts), (1, 40, 37));
    assert_eq!(picture.data, [6]);
    assert_eq!(dmx.next_packet().unwrap_err(), Error::Eof);
}

fn many(packet_type: ExPacketType, multitrack: AvMultitrackType, fourcc: Option<u32>) -> ExVideoTagHeader {
    ExVideoTagHeader {
        frame_type: ExFrameType::KeyFrame,
        packet_type,
        fourcc,
        multitrack: Some(multitrack),
        bytes_consumed: 0,
        composition_time_offset_ms: None,
        timestamp_offset_nano: 0,
        mod_ex_entries: Vec::new(),
        video_command: None,
    }
}

#[test]
fn the_default_track_is_the_packet() {
    let layout = AvMultitrackType::ManyTracks;
    let config = join_tracks(
        layout,
        &[JoinTrack::new(1, FOURCC_HVC1, vec![0xB1]), JoinTrack::new(0, FOURCC_HVC1, vec![0xB0])],
    )
    .unwrap();
    let frames = join_tracks(
        layout,
        &[
            JoinTrack::new(3, FOURCC_HVC1, vec![0, 0, 9, 0xC3]),
            JoinTrack::new(0, FOURCC_HVC1, vec![0xFF, 0xFF, 0xFE, 0xC0]),
        ],
    )
    .unwrap();
    let mut file = start(false, true);
    let h = many(ExPacketType::SequenceStart, layout, Some(FOURCC_HVC1));
    write_ex_video_tag(&mut file, 0, &h, &config).unwrap();
    let h = many(ExPacketType::CodedFrames, layout, Some(FOURCC_HVC1));
    write_ex_video_tag(&mut file, 10, &h, &frames).unwrap();
    write_ex_video_tag(&mut file, 20, &h, &[7, 0, 0, 9]).unwrap();
    let mut dmx = open(file).unwrap();
    let s = dmx.video_stream(&[]).unwrap();
    assert_eq!(s.codec, "h265");
    assert_eq!(s.extradata, [0xB0]);
    let p = dmx.next_packet().unwrap();
    assert!(p.header && !p.discard);
    assert_eq!(p.data, [0xB0]);
    let p = dmx.next_packet().unwrap();
    assert_eq!((p.dts, p.pts), (10, 8));
    assert_eq!(p.data, [0xC0]);
    let together = dmx.next_packet().unwrap();
    assert!(together.header && together.discard);
    assert_eq!(together.data, [7, 0, 0, 9]);
}

#[test]
fn all_tracks_of_the_last_tag_are_listed() {
    let layout = AvMultitrackType::ManyTracks;
    let frames = join_tracks(
        layout,
        &[
            JoinTrack::new(3, FOURCC_HVC1, vec![0, 0, 9, 0xC3]),
            JoinTrack::new(0, FOURCC_HVC1, vec![0, 0, 0, 0xC0]),
            JoinTrack::new(1, FOURCC_HVC1, vec![]),
        ],
    )
    .unwrap();
    let many_codecs = AvMultitrackType::ManyTracksManyCodecs;
    let mixed = join_tracks(
        many_codecs,
        &[JoinTrack::new(0, FOURCC_AV01, vec![1, 2]), JoinTrack::new(1, FOURCC_HVC1, vec![3])],
    )
    .unwrap();
    let mut file = start(true, true);
    write_opus_sequence_start(&mut file, 0, &[9]).unwrap();
    write_hevc_sequence_start(&mut file, 0, &[8]).unwrap();
    let h = many(ExPacketType::CodedFrames, layout, Some(FOURCC_HVC1));
    write_ex_video_tag(&mut file, 10, &h, &frames).unwrap();
    write_hevc_coded_frames(&mut file, 20, true, 0, &[7]).unwrap();
    let sound = b"\x95\x01Opus\x05\xAB\xCD";
    write_tag(&mut file, TagType::Audio, 30, 0, sound).unwrap();
    let h = many(ExPacketType::CodedFrames, many_codecs, None);
    write_ex_video_tag(&mut file, 40, &h, &mixed).unwrap();
    let h = many(ExPacketType::CodedFrames, layout, Some(FOURCC_HVC1));
    write_ex_video_tag(&mut file, 50, &h, &[7, 0, 0, 9]).unwrap();
    let mut dmx = open(file).unwrap();
    let listed = |tracks: &Vec<MultitrackPacketTrack>| -> Vec<(u8, u32, String, Vec<u8>)> {
        tracks
            .iter()
            .map(|t| (t.track_id, t.fourcc, t.codec_name.clone(), t.payload.clone()))
            .collect()
    };
    let name = |s: &str| s.to_string();
    dmx.next_packet().unwrap();
    dmx.next_packet().unwrap();
    assert!(dmx.last_multitrack_tracks().is_empty());
    let video = vec![
        (3, FOURCC_HVC1, name("h265"), vec![0, 0, 9, 0xC3]),
        (0, FOURCC_HVC1, name("h265"), vec![0, 0, 0, 0xC0]),
        (1, FOURCC_HVC1, name("h265"), vec![]),
    ];
    assert_eq!(dmx.next_packet().unwrap().data, [0xC0]);
    assert_eq!(listed(dmx.last_multitrack_tracks()), video);
    assert_eq!(dmx.next_packet().unwrap().data, [7]);
    assert_eq!(listed(dmx.last_multitrack_tracks()), video);
    assert_eq!(dmx.next_packet().unwrap().data, [0xAB, 0xCD]);
    assert_eq!(
        listed(dmx.last_multitrack_tracks()),
        [(5, FOURCC_OPUS, name("opus"), vec![0xAB, 0xCD])]
    );
    assert_eq!(dmx.next_packet().unwrap().data, [1, 2]);
    assert_eq!(
        listed(dmx.last_multitrack_tracks()),
        [
            (0, FOURCC_AV01, name("av1"), vec![1, 2]),
            (1, FOURCC_HVC1, name("h265"), vec![3]),
        ]
    );
    assert_eq!(dmx.next_packet().unwrap().data, [7, 0, 0, 9]);
    assert!(dmx.last_multitrack_tracks().is_empty());
}

#[test]
fn tracks_of_a_body_are_resolved() {
    let body = b"\x95\x01Opus\x05\xAB\xCD";
    let tracks = list_tag_tracks(body, false).unwrap();
    assert_eq!(tracks.len(), 1);
    assert_eq!((tracks[0].track_id, tracks[0].len()), (5, 2));
    assert!(list_tag_tracks(b"\x91Opus\xAB", false).is_none());
    assert!(list_tag_tracks(&[], true).is_none());
    let layout = AvMultitrackType::OneTrack;
    let unknown = u32::from_be_bytes(*b"abcd");
    let tracks = resolve_tracks(layout, unknown, &[1, 2], true).unwrap();
    assert_eq!(tracks[0].codec_name, "flv:exvideo:abcd");
    let tracks = resolve_tracks(layout, unknown, &[1, 2], false).unwrap();
    assert_eq!(tracks[0].codec_name, "flv:exaudio:abcd");
    assert_eq!(
        resolve_tracks(layout, unknown, &[], true),
        Err(Error::InvalidData(Fault::MultitrackTruncatedTrackId))
    );
}

#[test]
fn tracks_of_many_codecs_have_no_one_codec() {
    let layout = AvMultitrackType::ManyTracksManyCodecs;
    let body = join_tracks(
        layout,
        &[JoinTrack::new(4, FOURCC_AV01, vec![1]), JoinTrack::new(5, FOURCC_HVC1, vec![2])],
    )
    .unwrap();
    let mut file = start(true, true);
    let h = many(ExPacketType::SequenceStart, layout, None);
    write_ex_video_tag(&mut file, 0, &h, &body).unwrap();
    let mut sound = vec![0x95, 0x20];
    sound.extend_from_slice(
        &join_tracks(layout, &[JoinTrack::new(0, FOURCC_OPUS, vec![0xA, 0xB])]).unwrap(),
    );
    write_tag(&mut file, TagType::Audio, 3, 0, &sound).unwrap();
    let mut dmx = open(file).unwrap();
    let s = dmx.video_stream(&[]).unwrap();
    assert_eq!(s.codec, "flv:exvideo:multicodec");
    assert_eq!(s.extradata, [1]);
    let a = dmx.audio_stream(&[]).unwrap();
    assert_eq!(a.codec, "flv:exaudio:multicodec");
    assert_eq!(a.extradata, [0xA, 0xB]);
    assert_eq!(dmx.next_packet().unwrap().data, [1]);
    let p = dmx.next_packet().unwrap();
    assert_eq!(p.data, [0xA, 0xB]);
    assert!(p.header && !p.discard);
}

#[test]
fn one_audio_track_with_a_shared_codec() {
    let mut body = vec![0x95, 0x01];
    body.extend_from_slice(b"mp4a");
    body.extend_from_slice(&[7, 0xD, 0xE]);
    let mut file = start(true, false);
    write_tag(&mut file, TagType::Audio, 3, 0, &body).unwrap();
    let mut dmx = open(file).unwrap();
    assert_eq!(dmx.audio_stream(&[]).unwrap().codec, "aac");
    let p = dmx.next_packet().unwrap();
    assert!(!p.header && !p.discard);
    assert_eq!(p.data, [0xD, 0xE]);
}

#[test]
fn a_bad_first_header_fails_the_opening() {
    let mut file = start(true, false);
    write_tag(&mut file, TagType::Audio, 0, 0, &[0x90, b'O']).unwrap();
    assert_eq!(
        open(file).unwrap_err(),
        Error::InvalidData(Fault::ExAudioTruncatedFourCc)
    );
    let mut file = start(false, true);
    write_tag(&mut file, TagType::Video, 0, 0, &[0x90, b'a']).unwrap();
    assert_eq!(
        open(file).unwrap_err(),
        Error::InvalidData(Fault::ExVideoTruncatedFourCc)
    );
}

#[test]
fn a_later_bad_header_is_taken_as_a_plain_one() {
    let mut file = start(true, true);
    write_mp3_tag(&mut file, 0, 3, true, true, &[1]).unwrap();
    write_vp6_tag(&mut file, 0, true, &[2]).unwrap();
    write_tag(&mut file, TagType::Audio, 1, 0, &[0x90, b'O']).unwrap();
    write_tag(&mut file, TagType::Video, 2, 0, &[0x90, b'a']).unwrap();
    let mut dmx = open(file).unwrap();
    dmx.next_packet().unwrap();
    dmx.next_packet().unwrap();
    assert_eq!(dmx.next_packet().unwrap().data, [b'O']);
    assert_eq!(dmx.next_packet().unwrap().data, [b'a']);
}

#[test]
fn unknown_kinds_are_passed_over_and_cut_tags_end_the_file() {
    let mut file = start(true, false);
    file.extend_from_slice(&[0x0F, 0, 0, 2, 0, 0, 0, 0, 0, 0, 0, 0xAA, 0xBB, 0, 0, 0, 13]);
    write_mp3_tag(&mut file, 0, 3, true, true, &[1]).unwrap();
    let whole = file.clone();
    write_mp3_tag(&mut file, 9, 3, true, true, &[2, 3, 4]).unwrap();
    let mut dmx = open(whole.clone()).unwrap();
    assert_eq!(dmx.next_packet().unwrap().data, [1]);
    assert_eq!(dmx.next_packet().unwrap_err(), Error::Eof);
    for cut in [1, 5, 12, 15] {
        let mut short = file.clone();
        short.truncate(whole.len() + cut);
        assert_eq!(open(short).unwrap_err(), Error::UnexpectedEof);
    }
    let mut with_video = start(true, true);
    write_vp6_tag(&mut with_video, 0, true, &[8]).unwrap();
    write_mp3_tag(&mut with_video, 0, 3, true, true, &[1]).unwrap();
    let len = with_video.len();
    write_mp3_tag(&mut with_video, 9, 3, true, true, &[2, 3, 4]).unwrap();
    with_video.truncate(len + 12);
    let mut dmx = open(with_video).unwrap();
    dmx.next_packet().unwrap();
    dmx.next_packet().unwrap();
    assert_eq!(dmx.next_packet().unwrap_err(), Error::UnexpectedEof);
    assert_eq!(dmx.next_packet().unwrap_err(), Error::Eof);
}

#[test]
fn only_so_many_tags_are_looked_at() {
    let mut file = start(true, true);
    for i in 0..MAX_DISCOVERY_TAGS {
        write_mp3_tag(&mut file, i, 3, true, true, &[1]).unwrap();
    }
    write_vp6_tag(&mut file, 0, true, &[2]).unwrap();
    let dmx = open(file).unwrap();
    assert_eq!(dmx.stream_count(), 1);
    assert_eq!(dmx.video_stream_index(), None);
}

#[test]
fn metadata_describes_the_streams() {
    let bag = MetadataBag::new()
        .number("width", d(640.9))
        .string("height", "480")
        .number("framerate", d(25.0))
        .number("audiosamplerate", d(48_000.0))
        .number("audiosamplesize", d(8.0))
        .boolean("stereo", false)
        .number("audiodatarate", d(-1.0));
    let mut file = start(true, true);
    write_on_metadata(&mut file, &bag).unwrap();
    write_mp3_tag(&mut file, 0, 3, true, true, &[1]).unwrap();
    write_vp6_tag(&mut file, 0, true, &[2]).unwrap();
    let dmx = open(file).unwrap();
    let entries = dmx.video_metadata().unwrap();
    assert_eq!(entries[1].key, "height");
    let readings = vec![None, Some(d(480.0))];
    let v = dmx.video_stream(&readings).unwrap();
    assert_eq!((v.width, v.height), (Some(640), Some(480)));
    assert_eq!(v.frame_rate, Some(d(25.0)));
    assert_eq!(v.data_rate_kbps, None);
    assert_eq!(dmx.video_stream(&[]).unwrap().height, None);
    let a = dmx.audio_stream(&[]).unwrap();
    assert_eq!(a.sample_rate, Some(48_000));
    assert_eq!(a.channels, Some(1));
    assert_eq!(a.sample_bits, Some(8));
    assert_eq!(a.data_rate_kbps, None);
}

#[test]
fn raw_samples_keep_the_size_that_the_tag_says() {
    let bag = MetadataBag::new().number("audiosamplesize", d(8.0));
    let h = AudioTagHeader {
        codec_id: AUDIO_CODEC_LPCM_LE,
        sample_rate_idx: 3,
        is_16bit: true,
        is_stereo: true,
    };
    let mut file = start(true, false);
    write_on_metadata(&mut file, &bag).unwrap();
    write_audio_tag(&mut file, 0, h, &[0; 4]).unwrap();
    let dmx = open(file).unwrap();
    let a = dmx.audio_stream(&[]).unwrap();
    assert_eq!(a.codec, "pcm_s16le");
    assert_eq!(a.sample_bits, Some(16));
}

#[test]
fn lookups_take_the_first_that_fits() {
    let entries = vec![
        Entry { key: "n".into(), value: text("many") },
        Entry { key: "n".into(), value: number(-2.0) },
        Entry { key: "n".into(), value: number(7.9) },
        Entry { key: "b".into(), value: text("yes") },
        Entry { key: "b".into(), value: text("true") },
        Entry { key: "c".into(), value: text("false") },
        Entry { key: "when".into(), value: EntryValue::Date { time_ms: d(1.0), tz: 0 } },
    ];
    assert_eq!(metadata_lookup_u32(&entries, &[], "n"), Some(7));
    assert_eq!(metadata_lookup_f64(&entries, &[], "n"), Some(d(-2.0)));
    assert_eq!(metadata_lookup_f64(&entries, &[Some(d(3.0))], "n"), Some(d(3.0)));
    assert_eq!(metadata_lookup_f64(&entries, &[Some(d(f64::NAN))], "n"), Some(d(-2.0)));
    assert_eq!(metadata_lookup_u32(&entries, &[], "m"), None);
    assert_eq!(metadata_lookup_bool(&entries, "b"), None);
    assert_eq!(metadata_lookup_bool(&entries, "c"), Some(false));
    assert_eq!(metadata_lookup_f64(&entries, &[], "when"), None);
}

#[test]
fn rates_become_fractions() {
    assert_eq!(frame_rate_ratio(d(30.0), 30_000), (30, 1));
    assert_eq!(frame_rate_ratio(d(12.5), 12_500), (25, 2));
    assert_eq!(frame_rate_ratio(d(0.0001), 0), (1, 1000));
    for (fps, num) in [
        (23.976, 24_000),
        (29.97, 30_000),
        (47.952, 48_000),
        (59.94, 60_000),
        (119.88, 120_000),
    ] {
        assert_eq!(ntsc_frame_rate(d(fps)), Some((num, 1001)));
    }
    let near = |fps: f64, target: f64| (fps - target).abs() < 0.005;
    for bits in [
        0x4037_F894_F69C_A9EFu64,
        0x4037_F894_F69C_A9F0,
        0x4037_FB24_52C5_9FB2,
        0x4037_FB24_52C5_9FB3,
    ] {
        let fps = f64::from_bits(bits);
        assert_eq!(ntsc_frame_rate(d(fps)).is_some(), near(fps, 23.976_023));
    }
    for bits in [
        0x403D_F70C_34C1_A8ACu64,
        0x403D_F70C_34C1_A8AD,
        0x403D_F99B_90EA_9E6F,
        0x403D_F99B_90EA_9E70,
    ] {
        let fps = f64::from_bits(bits);
        assert_eq!(ntsc_frame_rate(d(fps)).is_some(), near(fps, 29.970_03));
    }
    for bits in [
        0x404D_F7B0_0BCB_E61Du64,
        0x404D_F7B0_0BCB_E61E,
        0x404D_F8F7_B9E0_60FE,
        0x404D_F8F7_B9E0_60FF,
    ] {
        let fps = f64::from_bits(bits);
        assert_eq!(ntsc_frame_rate(d(fps)).is_some(), near(fps, 59.940_06));
    }
    for bits in [
        0x4047_F938_EF34_D6A1u64,
        0x4047_F938_EF34_D6A2,
        0x4047_FA80_9D49_5182,
        0x4047_FA80_9D49_5183,
    ] {
        let fps = f64::from_bits(bits);
        assert_eq!(ntsc_frame_rate(d(fps)).is_some(), near(fps, 47.952_05));
    }
    for bits in [
        0x405D_F801_F751_04D5u64,
        0x405D_F801_F751_04D6,
        0x405D_F8A5_CE5B_4246,
        0x405D_F8A5_CE5B_4247,
    ] {
        let fps = f64::from_bits(bits);
        assert_eq!(ntsc_frame_rate(d(fps)).is_some(), near(fps, 119.880_12));
    }
    assert_eq!(ntsc_frame_rate(d(25.0)), None);
}

#[test]
fn colours_replace_those_before() {
    let first = ColorInfo {
        color_config: Some(ColorConfig {
            bit_depth: Some(10),
            color_primaries: Some(9),
            ..ColorConfig::default()
        }),
        hdr_cll: Some(HdrCll {
            max_fall: Some(d(400.0)),
            max_cll: None,
        }),
        hdr_mdcv: None,
    };
    let second = ColorInfo {
        hdr_cll: Some(HdrCll {
            max_fall: None,
            max_cll: Some(d(1000.0)),
        }),
        ..ColorInfo::default()
    };
    let mut file = start(true, true);
    write_mp3_tag(&mut file, 0, 3, true, true, &[1]).unwrap();
    write_av1_sequence_start(&mut file, 0, &[1]).unwrap();
    write_ex_video_color_info(&mut file, 1, FOURCC_AV01, &first).unwrap();
    write_ex_video_color_info(&mut file, 2, FOURCC_AV01, &second).unwrap();
    write_ex_video_color_info_reset(&mut file, 3, FOURCC_AV01).unwrap();
    write_av1_coded_frames(&mut file, 4, true, &[2]).unwrap();
    let mut dmx = open(file).unwrap();
    dmx.next_packet().unwrap();
    dmx.next_packet().unwrap();
    assert!(!dmx.metadata().iter().any(|e| e.key.starts_with("colorinfo")));
    let p = dmx.next_packet().unwrap();
    assert!(p.header && p.discard);
    let md = dmx.metadata();
    assert_eq!(under(md, "colorinfo.colorConfig.bitDepth"), [&number(10.0)]);
    assert_eq!(under(md, "colorinfo.colorConfig.colorPrimaries"), [&number(9.0)]);
    assert_eq!(under(md, "colorinfo.hdrCll.maxFall"), [&number(400.0)]);
    dmx.next_packet().unwrap();
    let md = dmx.metadata();
    assert!(under(md, "colorinfo.colorConfig.bitDepth").is_empty());
    assert!(under(md, "colorinfo.hdrCll.maxFall").is_empty());
    assert_eq!(under(md, "colorinfo.hdrCll.maxCLL"), [&number(1000.0)]);
    dmx.next_packet().unwrap();
    let md = dmx.metadata();
    let left: Vec<_> = md.iter().filter(|e| e.key.starts_with("colorinfo")).collect();
    assert_eq!(left.len(), 1);
    assert_eq!((left[0].key.as_str(), &left[0].value), ("colorinfo", &text("undefined")));
    assert_eq!(dmx.next_packet().unwrap().data, [2]);
}

#[test]
fn speakers_replace_those_before_and_count_the_channels() {
    let native = MultichannelConfig {
        order: AudioChannelOrder::Native,
        channel_count: 2,
        mapping: None,
        channel_flags: Some(3),
    };
    let custom = MultichannelConfig {
        order: AudioChannelOrder::Custom,
        channel_count: 3,
        mapping: Some(vec![
            AudioChannel::FrontRight,
            AudioChannel::FrontLeft,
            AudioChannel::Unused,
        ]),
        channel_flags: None,
    };
    let mut file = start(true, true);
    write_av1_sequence_start(&mut file, 0, &[1]).unwrap();
    write_opus_sequence_start(&mut file, 0, &[]).unwrap();
    write_ex_audio_multichannel_config(&mut file, 1, FOURCC_OPUS, &native).unwrap();
    write_ex_audio_multichannel_config(&mut file, 2, FOURCC_OPUS, &custom).unwrap();
    let mut dmx = open(file).unwrap();
    assert_eq!(dmx.audio_stream(&[]).unwrap().channels, None);
    dmx.next_packet().unwrap();
    dmx.next_packet().unwrap();
    let p = dmx.next_packet().unwrap();
    assert!(p.header && p.discard);
    assert_eq!(dmx.audio_stream(&[]).unwrap().channels, Some(2));
    let md = dmx.metadata();
    assert_eq!(under(md, "multichannelconfig.order"), [&text("native")]);
    assert_eq!(under(md, "multichannelconfig.channelcount"), [&number(2.0)]);
    assert_eq!(under(md, "multichannelconfig.flags"), [&number(3.0)]);
    assert_eq!(under(md, "multichannelconfig.layout"), [&text("frontleft,frontright")]);
    dmx.next_packet().unwrap();
    assert_eq!(dmx.audio_stream(&[]).unwrap().channels, Some(3));
    let md = dmx.metadata();
    assert_eq!(under(md, "multichannelconfig.order"), [&text("custom")]);
    assert!(under(md, "multichannelconfig.flags").is_empty());
    assert_eq!(
        under(md, "multichannelconfig.mapping"),
        [&text("frontright,frontleft,unused")]
    );
}

#[test]
fn cue_points_are_numbered_in_order() {
    let mut file = start(false, true);
    for name in ["intro", "middle", "end"] {
        let cue = CuePointParams::new(name, d(1.5), CuePointType::Navigation).parameter("k", "v");
        write_on_cue_point(&mut file, 0, &cue).unwrap();
    }
    write_vp6_tag(&mut file, 0, true, &[1]).unwrap();
    let dmx = open(file).unwrap();
    let md = dmx.metadata();
    assert_eq!(under(md, "cuepoint.0.name"), [&text("intro")]);
    assert_eq!(under(md, "cuepoint.1.name"), [&text("middle")]);
    assert_eq!(under(md, "cuepoint.2.name"), [&text("end")]);
    assert_eq!(under(md, "cuepoint.2.time"), [&number(1.5)]);
    assert_eq!(under(md, "cuepoint.2.type"), [&text("navigation")]);
    assert_eq!(under(md, "cuepoint.1.parameters.k"), [&text("v")]);
}

#[test]
fn a_cue_point_goes_behind_numbers_in_use() {
    let bag = MetadataBag::new()
        .string("cuepoint.41.x", "a")
        .string("cuepoint.+7", "b")
        .string("cuepoint.no", "c")
        .string("cuepoints", "d");
    let mut file = start(false, true);
    write_on_metadata(&mut file, &bag).unwrap();
    let cue = CuePointParams::new("n", d(0.0), CuePointType::Event);
    write_on_cue_point(&mut file, 0, &cue).unwrap();
    write_vp6_tag(&mut file, 0, true, &[1]).unwrap();
    let dmx = open(file).unwrap();
    assert_eq!(under(dmx.metadata(), "cuepoint.42.name"), [&text("n")]);
}

#[test]
fn xmp_and_unknown_scripts() {
    let mut file = start(false, true);
    write_on_xmp_data(&mut file, 0, "<x/>").unwrap();
    script_tag(&mut file, "onCaption", &[0x02, 0, 2, b'h', b'i']);
    script_tag(&mut file, "onFlag", &[0x01, 1]);
    script_tag(&mut file, "onXMPData", &[0x0F, 0, 0, 0, 4, b'<', b'y', b'/', b'>']);
    write_tag(&mut file, TagType::ScriptData, 0, 0, &[0x01, 1]).unwrap();
    write_tag(&mut file, TagType::ScriptData, 0, 0, &[0x02, 0, 1, b'q']).unwrap();
    write_vp6_tag(&mut file, 0, true, &[1]).unwrap();
    let dmx = open(file).unwrap();
    let md = dmx.metadata();
    assert_eq!(under(md, "scriptdata.name"), [&text("onCaption"), &text("onFlag")]);
    assert_eq!(under(md, "scriptdata.onCaption"), [&text("hi")]);
    assert_eq!(under(md, "scriptdata.onFlag"), [&text("true")]);
    assert_eq!(under(md, "xmp"), [&text("<y/>")]);
}

#[test]
fn typed_metadata_names_its_class() {
    let mut value = vec![0x10, 0, 3, b'F', b'o', b'o', 0, 5];
    value.extend_from_slice(b"width");
    value.push(0);
    value.extend_from_slice(&320.0_f64.to_be_bytes());
    value.extend_from_slice(&[0, 0, 9]);
    let mut file = start(false, true);
    script_tag(&mut file, "onMetaData", &value);
    write_vp6_tag(&mut file, 0, true, &[1]).unwrap();
    let dmx = open(file).unwrap();
    assert_eq!(under(dmx.metadata(), "scriptdata.class"), [&text("Foo")]);
    assert_eq!(dmx.video_stream(&[]).unwrap().width, Some(320));
}

#[test]
fn track_maps_go_by_lower_case() {
    let video = TrackInfoMap::new().track(1, TrackInfo::new().width(1280));
    let audio = TrackInfoMap::new().track(2, TrackInfo::new().channels(6));
    let bag = MetadataBag::new()
        .video_track_info_map(&video)
        .audio_track_info_map(&audio);
    let mut file = start(false, true);
    write_on_metadata(&mut file, &bag).unwrap();
    let dmx = open(file).unwrap();
    let md = dmx.metadata();
    assert_eq!(under(md, "videotrackidinfomap.1.width"), [&number(1280.0)]);
    assert_eq!(under(md, "audiotrackidinfomap.2.channels"), [&number(6.0)]);
}

#[test]
fn values_are_laid_flat() {
    let inner = Amf3Value::Object(Amf3Object {
        class_name: "C".into(),
        dynamic: true,
        externalizable: false,
        sealed_names: vec!["s".into()],
        sealed_values: vec![Amf3Value::Integer(-3)],
        dynamic_members: vec![("m".into(), Amf3Value::ByteArray(vec![1, 2, 3]))],
    });
    let array = Amf3Value::Array(Amf3Array {
        assoc: vec![("k".into(), Amf3Value::Date(d(5.0)))],
        dense: vec![inner, Amf3Value::Undefined, Amf3Value::Null, Amf3Value::Xml("<z/>".into())],
    });
    let value = amf0::AmfValue::StrictArray(vec![
        amf0::AmfValue::Reference(7),
        amf0::AmfValue::Unsupported,
        amf0::AmfValue::AvmPlus(Box::new(array)),
    ]);
    let mut out = Vec::new();
    flatten_amf_value(&value, "p", &mut out);
    let shown: Vec<(&str, &EntryValue)> = out.iter().map(|e| (e.key.as_str(), &e.value)).collect();
    assert_eq!(
        shown,
        [
            ("p[0]", &text("ref:7")),
            ("p[1]", &text("unsupported")),
            ("p[2].k", &EntryValue::Date { time_ms: d(5.0), tz: 0 }),
            ("p[2][0].s", &number(-3.0)),
            ("p[2][0].m", &text("bytes:3")),
            ("p[2][1]", &text("undefined")),
            ("p[2][2]", &text("null")),
            ("p[2][3]", &text("<z/>")),
        ]
    );
}

fn with_index(times: Vec<Double>, positions: Vec<u64>) -> Vec<u8> {
    let bag = MetadataBag::new().keyframes(positions, times);
    let mut file = start(false, true);
    write_on_metadata(&mut file, &bag).unwrap();
    write_vp6_tag(&mut file, 0, true, &[1]).unwrap();
    write_vp6_tag(&mut file, 500, false, &[2]).unwrap();
    write_vp6_tag(&mut file, 1000, true, &[3]).unwrap();
    file
}

#[test]
fn a_table_takes_a_search_to_the_keyframe_before() {
    let plain = with_index(vec![d(0.0), d(1.0)], vec![0, 0]);
    let first = plain.len() - 3 * 17;
    let positions = vec![first as u64, (first + 34) as u64];
    let file = with_index(vec![d(0.0), d(1.0)], positions.clone());
    let mut dmx = open(file).unwrap();
    let index = dmx.keyframe_index().unwrap();
    assert_eq!(index.file_positions, positions);
    assert_eq!(index.times_seconds, [d(0.0), d(1.0)]);
    assert_eq!(dmx.seek_to(0, 999, d(0.999)), Ok(Landing::Keyframe(d(0.0))));
    assert_eq!(dmx.next_packet().unwrap().data, [1]);
    assert_eq!(dmx.seek_to(0, 1000, d(1.0)), Ok(Landing::Keyframe(d(1.0))));
    assert_eq!(dmx.next_packet().unwrap().data, [3]);
    assert_eq!(dmx.seek_to(0, 99_000, d(99.0)), Ok(Landing::Keyframe(d(1.0))));
    assert_eq!(dmx.next_packet().unwrap().data, [3]);
    assert_eq!(dmx.seek_to(0, -5, d(0.0)), Ok(Landing::Keyframe(d(0.0))));
    assert_eq!(
        dmx.seek_to(1, 0, d(0.0)),
        Err(Error::InvalidData(Fault::StreamIndexRange))
    );
}

#[test]
fn a_place_behind_the_end_is_the_end() {
    let file = with_index(vec![d(0.0)], vec![1 << 40]);
    let mut dmx = open(file).unwrap();
    assert_eq!(dmx.seek_to(0, 0, d(0.0)), Ok(Landing::Keyframe(d(0.0))));
    assert_eq!(dmx.next_packet().unwrap_err(), Error::Eof);
}

#[test]
fn without_a_table_the_tags_are_searched() {
    let mut file = start(true, true);
    write_mp3_tag(&mut file, 0, 3, true, true, &[9]).unwrap();
    write_vp6_tag(&mut file, 0, true, &[1]).unwrap();
    write_vp6_tag(&mut file, 500, false, &[2]).unwrap();
    write_av1_coded_frames(&mut file, 1000, true, &[3]).unwrap();
    let mut dmx = open(file).unwrap();
    assert_eq!(dmx.seek_to(1, 1, d(0.001)), Ok(Landing::Time(1000)));
    assert_eq!(dmx.next_packet().unwrap().data, [3]);
    assert_eq!(dmx.seek_to(0, 0, d(0.0)), Ok(Landing::Time(0)));
    assert_eq!(dmx.next_packet().unwrap().data, [1]);
    assert_eq!(dmx.seek_to(1, 1001, d(1.001)), Ok(Landing::Time(1001)));
    assert_eq!(dmx.next_packet().unwrap_err(), Error::Eof);
}

#[test]
fn audio_alone_is_searched_by_its_tags() {
    let mut file = start(true, false);
    for i in 0..4u32 {
        write_mp3_tag(&mut file, i * 20, 3, true, true, &[i as u8]).unwrap();
    }
    let mut dmx = open(file).unwrap();
    assert_eq!(dmx.seek_to(0, 21, d(0.021)), Ok(Landing::Time(40)));
    assert_eq!(dmx.next_packet().unwrap().data, [2]);
}

#[test]
fn a_video_tag_without_its_first_byte_cannot_be_judged() {
    let bytes = [0x09, 0, 0, 1, 0, 0, 0, 0, 0, 0, 0];
    let h = TagHeader::read(&bytes).unwrap();
    assert_eq!(check_landing(&h, None, 0, true), Err(Error::UnexpectedEof));
    assert_eq!(check_landing(&h, None, 0, false), Ok(false));
    assert_eq!(check_landing(&h, Some(0x14), 0, true), Ok(true));
    assert_eq!(check_landing(&h, Some(0x14), 1, true), Ok(false));
    assert_eq!(check_landing(&h, Some(0x24), 0, true), Ok(false));
    assert_eq!(check_landing(&h, Some(0x90), 0, true), Ok(true));
}

#[test]
fn malformed_tables_are_not_kept() {
    for (positions, times) in [
        (vec![1.0, 2.0], vec![0.0]),
        (vec![], vec![]),
        (vec![-1.0], vec![0.0]),
        (vec![1.0, 2.0], vec![1.0, 0.5]),
        (vec![1.0], vec![f64::NAN]),
    ] {
        let mut value = vec![0x08, 0, 0, 0, 1, 0, 9];
        value.extend_from_slice(b"keyframes");
        value.push(0x03);
        for (name, numbers) in [("filepositions", &positions), ("times", &times)] {
            value.extend_from_slice(&(name.len() as u16).to_be_bytes());
            value.extend_from_slice(name.as_bytes());
            let list: Vec<Double> = numbers.iter().map(|x| d(*x)).collect();
            amf0::write_strict_array_number(&mut value, &list).unwrap();
        }
        value.extend_from_slice(&[0, 0, 9, 0, 0, 9]);
        let mut file = start(false, true);
        script_tag(&mut file, "onMetaData", &value);
        let dmx = open(file).unwrap();
        assert!(dmx.keyframe_index().is_none());
        assert!(dmx.metadata().is_empty());
    }
}

#[test]
fn filtered_tags_are_not_for_decoders() {
    let mut file = start(true, false);
    write_mp3_tag(&mut file, 0, 3, true, true, &[1]).unwrap();
    let mut body = vec![1u8];
    body.extend_from_slice(b"SE\0");
    body.extend_from_slice(&[0, 0, 1, 0x00, 0xC1]);
    let at = file.len();
    write_tag(&mut file, TagType::Audio, 7, 0, &body).unwrap();
    file[at] |= 0x20;
    let at = file.len();
    write_tag(&mut file, TagType::Audio, 8, 0, &[2]).unwrap();
    file[at] |= 0x20;
    let at = file.len();
    write_tag(&mut file, TagType::Video, 9, 0, &[2]).unwrap();
    file[at] |= 0x20;
    write_mp3_tag(&mut file, 10, 3, true, true, &[4]).unwrap();
    let mut dmx = open(file).unwrap();
    dmx.next_packet().unwrap();
    let p = dmx.next_packet().unwrap();
    assert_eq!((p.pts, p.data.as_slice()), (7, &[0xC1][..]));
    assert!(p.discard && !p.header && !p.keyframe);
    for _ in 0..2 {
        assert_eq!(
            dmx.next_packet().unwrap_err(),
            Error::InvalidData(Fault::FilterCount)
        );
    }
    assert_eq!(dmx.next_packet().unwrap().data, [4]);
}

#[test]
fn a_search_can_be_fed_tag_by_tag() {
    let mut opening = Opening::new();
    assert!(opening.wants_more());
    let unknown = TagHeader::read(&[0x0F, 0, 0, 0, 0, 0, 0, 0, 0, 0, 0]).unwrap();
    opening.take_tag(&unknown, Vec::new()).unwrap();
    let audio = TagHeader::read(&[0x08, 0, 0, 2, 0, 0, 4, 0, 0, 0, 0]).unwrap();
    opening.take_tag(&audio, vec![0x2F, 5]).unwrap();
    assert!(opening.wants_more());
    let video = TagHeader::read(&[0x09, 0, 0, 2, 0, 0, 4, 0, 0, 0, 0]).unwrap();
    opening.take_tag(&video, vec![0x14, 6]).unwrap();
    assert!(!opening.wants_more());
    let mut session = opening.finish().unwrap();
    let p = session.take_tag(&audio, &[0x2F, 5]).unwrap().unwrap();
    assert_eq!((p.stream_index, p.pts, p.data.as_slice()), (0, 4, &[5][..]));
    assert!(session.take_tag(&unknown, &[]).unwrap().is_none());
    assert_eq!(
        Opening::new().finish().unwrap_err(),
        Error::InvalidData(Fault::NoStreams)
    );
}

#[test]
fn fourcc_audio_headers_come_back() {
    let h = ExAudioTagHeader {
        packet_type: ExAudioPacketType::SequenceStart,
        fourcc: Some(FOURCC_AAC),
        multitrack: None,
        timestamp_offset_nano: 0,
        mod_ex_entries: Vec::new(),
        bytes_consumed: 5,
    };
    let mut bytes = Vec::new();
    h.to_bytes(&mut bytes).unwrap();
    bytes.extend_from_slice(&[0x12, 0x10]);
    assert_eq!(ExAudioTagHeader::parse(&bytes).unwrap(), Some(h));
}

use flv::color_info::{ColorConfig, ColorInfo, HdrCll, HdrMdcv};
use flv::demuxer::entries::{Entry, EntryValue};
use flv::demuxer::open;
use flv::double::Double;
use flv::ex_video::FOURCC_AV01;
use flv::script::{write_on_metadata, MetadataBag, TrackInfo, TrackInfoMap};
use flv::tag::ex::{
    write_av1_sequence_start, write_ex_video_color_info, write_ex_video_color_info_reset,
    write_ex_video_metadata,
};
use flv::tag::{audio_codec_id_str_u32, video_codec_id_str_u32, write_first_previous_tag_size};
use flv::typed_meta::{TypedAudioTrackInfo, TypedMetadata, TypedVideoTrackInfo};

fn d(x: f64) -> Double {
    Double { bits: x.to_bits() }
}

fn start() -> Vec<u8> {
    let mut out = Vec::new();
    flv::header::write(&mut out, true, true).unwrap();
    write_first_previous_tag_size(&mut out).unwrap();
    out
}

fn written(bag: &MetadataBag) -> Vec<Entry> {
    let mut file = start();
    write_on_metadata(&mut file, bag).unwrap();
    open(file).unwrap().metadata().to_vec()
}

#[test]
fn properties_have_their_types() {
    let bag = MetadataBag::new()
        .number("duration", d(2.5))
        .number("filesize", d(5_000_000_000.0))
        .number("width", d(1280.0))
        .number("height", d(720.0))
        .number("framerate", d(25.0))
        .number("videodatarate", d(800.0))
        .number("audiodatarate", d(128.0))
        .number("audiosamplerate", d(44_100.0))
        .number("audiosamplesize", d(16.0))
        .number("audiodelay", d(0.038))
        .number("videocodecid", d(7.0))
        .number("audiocodecid", d(0x4F70_7573u32 as f64))
        .boolean("stereo", true)
        .boolean("canSeekToEnd", false)
        .string("creationdate", "yesterday");
    let entries = written(&bag);
    let t = TypedMetadata::new(&entries, &[]);
    assert_eq!(t.duration(), Some(d(2.5)));
    assert_eq!(t.filesize(), Some(d(5_000_000_000.0)));
    assert_eq!((t.width(), t.height()), (Some(1280), Some(720)));
    assert_eq!(t.framerate(), Some(d(25.0)));
    assert_eq!(t.videoframerate(), None);
    assert_eq!(t.effective_framerate(), Some(d(25.0)));
    assert_eq!(t.video_data_rate_kbps(), Some(d(800.0)));
    assert_eq!(t.audio_data_rate_kbps(), Some(d(128.0)));
    assert_eq!(t.audio_sample_rate(), Some(d(44_100.0)));
    assert_eq!(t.audio_sample_size(), Some(16));
    assert_eq!(t.audio_delay_seconds(), Some(d(0.038)));
    assert_eq!(t.video_codec_id(), Some(7));
    assert_eq!(t.audio_codec_id(), Some(0x4F70_7573));
    assert_eq!(t.video_codec_id_str().as_deref(), Some("h264"));
    assert_eq!(t.audio_codec_id_str().as_deref(), Some("opus"));
    assert_eq!(t.stereo(), Some(true));
    assert_eq!(t.can_seek_to_end(), Some(false));
    assert_eq!(t.creationdate(), Some(&EntryValue::Text("yesterday".into())));
    assert_eq!(t.creationdate_as_date(), None);
    assert!(t.color_info().is_none());
    assert!(t.video_track_info_map().is_empty());
}

#[test]
fn missing_and_malformed_read_as_nothing() {
    let bag = MetadataBag::new()
        .string("width", "wide")
        .number("height", d(-1.0))
        .number("duration", d(f64::NAN))
        .string("stereo", "maybe")
        .number("canSeekToEnd", d(1.0))
        .string("framerate", "24")
        .number("videoframerate", d(23.976));
    let entries = written(&bag);
    let t = TypedMetadata::new(&entries, &[]);
    assert_eq!((t.width(), t.height(), t.duration()), (None, None, None));
    assert_eq!((t.stereo(), t.can_seek_to_end()), (None, None));
    assert_eq!(t.framerate(), None);
    assert_eq!(t.effective_framerate(), Some(d(23.976)));
    assert_eq!((t.filesize(), t.audio_codec_id_str()), (None, None));
    let mut readings = vec![None; entries.len()];
    readings[5] = Some(d(24.0));
    assert_eq!(TypedMetadata::new(&entries, &readings).framerate(), Some(d(24.0)));
}

#[test]
fn a_date_reads_back() {
    let bag = MetadataBag::new().date("creationdate", d(1_735_689_600_000.0), -90);
    let entries = written(&bag);
    let t = TypedMetadata::new(&entries, &[]);
    assert_eq!(t.creationdate_as_date(), Some((d(1_735_689_600_000.0), -90)));
    assert!(matches!(t.creationdate(), Some(EntryValue::Date { .. })));
}

#[test]
fn tracks_read_back() {
    let video = TrackInfoMap::new()
        .track(
            1,
            TrackInfo::new()
                .width(1024)
                .height(768)
                .framerate(d(30.0))
                .video_data_rate_kbps(d(900.0))
                .video_codec_id(FOURCC_AV01),
        )
        .track(0, TrackInfo::new().width(1))
        .track(12, TrackInfo::new().width(3840))
        .track(2, TrackInfo::new());
    let audio = TrackInfoMap::new().track(
        7,
        TrackInfo::new()
            .channels(6)
            .audio_sample_rate(d(48_000.0))
            .audio_data_rate_kbps(d(256.0))
            .audio_codec_id(10),
    );
    let bag = MetadataBag::new()
        .number("width", d(640.0))
        .video_track_info_map(&video)
        .audio_track_info_map(&audio);
    let entries = written(&bag);
    let t = TypedMetadata::new(&entries, &[]);
    let first = TypedVideoTrackInfo {
        track_id: 1,
        width: Some(1024),
        height: Some(768),
        video_data_rate_kbps: Some(d(900.0)),
        video_codec_id: Some(FOURCC_AV01),
        framerate: Some(d(30.0)),
    };
    let wide = TypedVideoTrackInfo {
        track_id: 12,
        width: Some(3840),
        height: None,
        video_data_rate_kbps: None,
        video_codec_id: None,
        framerate: None,
    };
    assert_eq!(t.video_track_info_map(), [first, wide]);
    assert_eq!(t.video_track_info(12), Some(wide));
    assert_eq!(t.video_track_info(2), None);
    assert_eq!(t.video_track_info(0), None);
    let sound = TypedAudioTrackInfo {
        track_id: 7,
        audio_data_rate_kbps: Some(d(256.0)),
        audio_sample_rate: Some(d(48_000.0)),
        channels: Some(6),
        audio_codec_id: Some(10),
    };
    assert_eq!(t.audio_track_info_map(), [sound]);
    assert_eq!(t.audio_track_info(7), Some(sound));
    assert_eq!(t.audio_track_info(1), None);
}

#[test]
fn the_other_name_of_a_frame_rate_comes_first() {
    let number = |key: &str, x: f64| Entry {
        key: key.into(),
        value: EntryValue::Number(d(x)),
    };
    let entries = vec![
        number("videotrackidinfomap.3.framerate", 24.0),
        number("videotrackidinfomap.3.videoframerate", 60.0),
        number("videotrackidinfomap.04.width", 1.0),
        number("videotrackidinfomap.x.width", 1.0),
        number("videotrackidinfomap.5", 1.0),
    ];
    let t = TypedMetadata::new(&entries, &[]);
    let map = t.video_track_info_map();
    assert_eq!(map.len(), 1);
    assert_eq!((map[0].track_id, map[0].framerate), (3, Some(d(60.0))));
}

#[test]
fn colours_read_back() {
    let ci = ColorInfo {
        color_config: Some(ColorConfig {
            bit_depth: Some(10),
            color_primaries: Some(9),
            transfer_characteristics: Some(16),
            matrix_coefficients: None,
        }),
        hdr_cll: None,
        hdr_mdcv: Some(HdrMdcv {
            red_x: Some(d(0.68)),
            max_luminance: Some(d(1000.0)),
            min_luminance: Some(d(0.005)),
            ..HdrMdcv::default()
        }),
    };
    let mut file = start();
    write_av1_sequence_start(&mut file, 0, &[1]).unwrap();
    write_ex_video_color_info(&mut file, 1, FOURCC_AV01, &ci).unwrap();
    let mut whole = file.clone();
    write_ex_video_color_info_reset(&mut whole, 2, FOURCC_AV01).unwrap();
    let dmx = open(file).unwrap();
    let t = TypedMetadata::new(dmx.metadata(), &[]);
    let c = t.color_info().unwrap();
    assert_eq!(c.bit_depth(), Some(10));
    assert_eq!(c.color_primaries(), Some(9));
    assert_eq!(c.transfer_characteristics(), Some(16));
    assert_eq!(c.matrix_coefficients(), None);
    assert_eq!((c.max_fall(), c.max_cll()), (None, None));
    assert_eq!((c.red_x(), c.red_y()), (Some(d(0.68)), None));
    assert_eq!((c.green_x(), c.green_y(), c.blue_x(), c.blue_y()), (None, None, None, None));
    assert_eq!((c.white_point_x(), c.white_point_y()), (None, None));
    assert_eq!(c.max_luminance(), Some(d(1000.0)));
    assert_eq!(c.min_luminance(), Some(d(0.005)));
    assert!(!c.is_reset_sentinel());
    assert_eq!(c.to_color_info(), ci);
    assert_eq!(c.to_color_info().encode_amf(), ci.encode_amf());

    let dmx = open(whole).unwrap();
    let t = TypedMetadata::new(dmx.metadata(), &[]);
    let c = t.color_info().unwrap();
    assert!(c.is_reset_sentinel());
    assert_eq!(c.to_color_info(), ColorInfo::default());
}

#[test]
fn empty_colours_are_known_and_no_reset() {
    let ci = ColorInfo {
        color_config: Some(ColorConfig {
            bit_depth: Some(10),
            ..ColorConfig::default()
        }),
        ..ColorInfo::default()
    };
    let hollow = ColorInfo {
        hdr_cll: Some(HdrCll::default()),
        ..ColorInfo::default()
    };
    let mut array = b"\x02\x00\x09colorInfo\x08\x00\x00\x00\x00\x00\x00\x09".to_vec();
    array.extend_from_slice(b"\x02\x00\x05other\x03\x00\x00\x09");
    for body in [
        ColorInfo::default().encode_amf().unwrap(),
        hollow.encode_amf().unwrap(),
        array,
    ] {
        let mut file = start();
        write_av1_sequence_start(&mut file, 0, &[1]).unwrap();
        write_ex_video_color_info(&mut file, 1, FOURCC_AV01, &ci).unwrap();
        write_ex_video_metadata(&mut file, 2, FOURCC_AV01, &body).unwrap();
        let mut dmx = open(file).unwrap();
        while dmx.next_packet().is_ok() {}
        let md = dmx.metadata();
        assert_eq!(md.len(), 1);
        assert_eq!(md[0].key, "colorinfo");
        assert_eq!(md[0].value, EntryValue::Text(String::new()));
        let c = TypedMetadata::new(md, &[]).color_info().unwrap();
        assert!(!c.is_reset_sentinel());
        assert_eq!(c.bit_depth(), None);
        assert_eq!(c.to_color_info(), ColorInfo::default());
    }
    let mut file = start();
    write_av1_sequence_start(&mut file, 0, &[1]).unwrap();
    let dmx = open(file).unwrap();
    assert!(TypedMetadata::new(dmx.metadata(), &[]).color_info().is_none());
}

#[test]
fn colours_out_of_bounds_are_left_out() {
    let number = |key: &str, x: f64| Entry {
        key: key.into(),
        value: EntryValue::Number(d(x)),
    };
    let entries = vec![
        number("colorinfo.colorConfig.bitDepth", 7.0),
        number("colorinfo.hdrCll.maxFall", 20_000.0),
        number("colorinfo.hdrCll.maxCLL", 400.0),
        number("colorinfo.hdrMdcv.redX", 0.8),
    ];
    let c = TypedMetadata::new(&entries, &[]).color_info().unwrap();
    assert_eq!(c.bit_depth(), Some(7));
    assert_eq!(c.max_fall(), Some(d(20_000.0)));
    assert_eq!(
        c.to_color_info(),
        ColorInfo {
            color_config: None,
            hdr_cll: Some(HdrCll {
                max_fall: None,
                max_cll: Some(d(400.0)),
            }),
            hdr_mdcv: None,
        }
    );
}

#[test]
fn codecs_in_metadata_have_either_kind_of_number() {
    assert_eq!(audio_codec_id_str_u32(10), "aac");
    assert_eq!(audio_codec_id_str_u32(0x664C_6143), "flac");
    assert_eq!(audio_codec_id_str_u32(256), "flv:exaudio:0x00000100");
    assert_eq!(video_codec_id_str_u32(4), "vp6f");
    assert_eq!(video_codec_id_str_u32(0x6176_3031), "av1");
}

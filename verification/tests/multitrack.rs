use flv::error::Error;
use flv::multitrack::{AvMultitrackType, JoinTrack, MAX_TRACK_PAYLOAD, MultitrackPacketTrack, MultitrackTrack, join_tracks, split_tracks};

const FOURCC_AV01: u32 = u32::from_be_bytes(*b"av01");
const FOURCC_HVC1: u32 = u32::from_be_bytes(*b"hvc1");
const FOURCC_OPUS: u32 = u32::from_be_bytes(*b"Opus");

#[test]
fn av_multitrack_type_round_trips() {
    assert_eq!(AvMultitrackType::from_u8(0), AvMultitrackType::OneTrack);
    assert_eq!(AvMultitrackType::from_u8(1), AvMultitrackType::ManyTracks);
    assert_eq!(
        AvMultitrackType::from_u8(2),
        AvMultitrackType::ManyTracksManyCodecs
    );
    for v in 3u8..=15 {
        assert_eq!(AvMultitrackType::from_u8(v), AvMultitrackType::Reserved(v));
    }
    assert!(AvMultitrackType::OneTrack.is_one_track());
    assert!(!AvMultitrackType::ManyTracks.is_one_track());
    assert!(AvMultitrackType::ManyTracksManyCodecs.is_many_codecs());
    assert!(!AvMultitrackType::ManyTracks.is_many_codecs());
}

#[test]
fn one_track_payload_runs_to_end() {
    let body = [0x00, 0xDE, 0xAD, 0xBE, 0xEF];
    let tracks = split_tracks(AvMultitrackType::OneTrack, FOURCC_AV01, &body).unwrap();
    assert_eq!(tracks.len(), 1);
    assert_eq!(tracks[0].track_id, 0);
    assert_eq!(tracks[0].fourcc, FOURCC_AV01);
    assert_eq!(&body[tracks[0].payload.clone()], &[0xDE, 0xAD, 0xBE, 0xEF]);
    assert_eq!(tracks[0].len(), 4);
    assert!(!tracks[0].is_empty());
}

#[test]
fn one_track_empty_payload() {
    let body = [0x07];
    let tracks = split_tracks(AvMultitrackType::OneTrack, FOURCC_OPUS, &body).unwrap();
    assert_eq!(tracks.len(), 1);
    assert_eq!(tracks[0].track_id, 7);
    assert!(tracks[0].is_empty());
    assert_eq!(tracks[0].len(), 0);
}

#[test]
fn many_tracks_shared_fourcc() {
    let mut body = Vec::new();

    body.push(0x00);
    body.extend_from_slice(&[0x00, 0x00, 0x03]);
    body.extend_from_slice(&[0x01, 0x02, 0x03]);

    body.push(0x01);
    body.extend_from_slice(&[0x00, 0x00, 0x02]);
    body.extend_from_slice(&[0xAA, 0xBB]);

    let tracks = split_tracks(AvMultitrackType::ManyTracks, FOURCC_HVC1, &body).unwrap();
    assert_eq!(tracks.len(), 2);
    assert_eq!(tracks[0].track_id, 0);
    assert_eq!(tracks[0].fourcc, FOURCC_HVC1);
    assert_eq!(&body[tracks[0].payload.clone()], &[0x01, 0x02, 0x03]);
    assert_eq!(tracks[1].track_id, 1);
    assert_eq!(tracks[1].fourcc, FOURCC_HVC1);
    assert_eq!(&body[tracks[1].payload.clone()], &[0xAA, 0xBB]);
}

#[test]
fn many_tracks_many_codecs_per_track_fourcc() {
    let mut body = Vec::new();

    body.extend_from_slice(b"av01");
    body.push(0x00);
    body.extend_from_slice(&[0x00, 0x00, 0x02]);
    body.extend_from_slice(&[0x11, 0x22]);

    body.extend_from_slice(b"hvc1");
    body.push(0x05);
    body.extend_from_slice(&[0x00, 0x00, 0x01]);
    body.push(0x33);

    let tracks = split_tracks(AvMultitrackType::ManyTracksManyCodecs, 0, &body).unwrap();
    assert_eq!(tracks.len(), 2);
    assert_eq!(tracks[0].track_id, 0);
    assert_eq!(tracks[0].fourcc, FOURCC_AV01);
    assert_eq!(&body[tracks[0].payload.clone()], &[0x11, 0x22]);
    assert_eq!(tracks[1].track_id, 5);
    assert_eq!(tracks[1].fourcc, FOURCC_HVC1);
    assert_eq!(&body[tracks[1].payload.clone()], &[0x33]);
}

#[test]
fn many_tracks_three_tracks_walk_to_end() {
    let mut body = Vec::new();
    for (id, payload) in [(0u8, &[0xA0][..]), (1, &[0xA1, 0xA2]), (2, &[0xA3])] {
        body.push(id);
        let size = payload.len();
        body.extend_from_slice(&[(size >> 16) as u8, (size >> 8) as u8, size as u8]);
        body.extend_from_slice(payload);
    }
    let tracks = split_tracks(AvMultitrackType::ManyTracks, FOURCC_OPUS, &body).unwrap();
    assert_eq!(tracks.len(), 3);
    assert_eq!(
        tracks.iter().map(|t| t.track_id).collect::<Vec<_>>(),
        vec![0, 1, 2]
    );
    assert_eq!(&body[tracks[1].payload.clone()], &[0xA1, 0xA2]);
}

#[test]
fn reserved_multitrack_type_rejected() {
    let body = [0x00, 0x00, 0x00, 0x00];
    assert!(matches!(
        split_tracks(AvMultitrackType::Reserved(3), FOURCC_AV01, &body),
        Err(Error::InvalidData(_))
    ));
}

#[test]
fn truncated_track_id_errors() {
    let body: [u8; 0] = [];
    assert!(matches!(
        split_tracks(AvMultitrackType::ManyTracks, FOURCC_AV01, &body),
        Err(Error::InvalidData(_))
    ));
}

#[test]
fn truncated_size_of_track_errors() {
    let body = [0x00, 0x00];
    assert!(matches!(
        split_tracks(AvMultitrackType::ManyTracks, FOURCC_AV01, &body),
        Err(Error::InvalidData(_))
    ));
}

#[test]
fn size_of_track_overruns_body_errors() {
    let mut body = vec![0x00];
    body.extend_from_slice(&[0x00, 0x00, 0x0A]);
    body.extend_from_slice(&[0x01, 0x02]);
    assert!(matches!(
        split_tracks(AvMultitrackType::ManyTracks, FOURCC_AV01, &body),
        Err(Error::InvalidData(_))
    ));
}

#[test]
fn truncated_per_track_fourcc_errors() {
    let body = *b"av";
    assert!(matches!(
        split_tracks(AvMultitrackType::ManyTracksManyCodecs, 0, &body),
        Err(Error::InvalidData(_))
    ));
}

fn resolve(body: &[u8], tracks: &[MultitrackTrack]) -> Vec<JoinTrack> {
    tracks
        .iter()
        .map(|t| JoinTrack::new(t.track_id, t.fourcc, body[t.payload.clone()].to_vec()))
        .collect()
}

#[test]
fn join_one_track_matches_handbuilt_body() {
    let tracks = [JoinTrack::new(0, FOURCC_AV01, vec![0xDE, 0xAD, 0xBE, 0xEF])];
    let body = join_tracks(AvMultitrackType::OneTrack, &tracks).unwrap();

    assert_eq!(body, vec![0x00, 0xDE, 0xAD, 0xBE, 0xEF]);
}

#[test]
fn join_one_track_empty_payload() {
    let tracks = [JoinTrack::new(7, FOURCC_OPUS, vec![])];
    let body = join_tracks(AvMultitrackType::OneTrack, &tracks).unwrap();
    assert_eq!(body, vec![0x07]);
}

#[test]
fn join_many_tracks_shared_fourcc_matches_handbuilt() {
    let tracks = [
        JoinTrack::new(0, FOURCC_HVC1, vec![0x01, 0x02, 0x03]),
        JoinTrack::new(1, FOURCC_HVC1, vec![0xAA, 0xBB]),
    ];
    let body = join_tracks(AvMultitrackType::ManyTracks, &tracks).unwrap();
    let expected = vec![
        0x00, 0x00, 0x00, 0x03, 0x01, 0x02, 0x03,
        0x01, 0x00, 0x00, 0x02, 0xAA, 0xBB,
    ];
    assert_eq!(body, expected);
}

#[test]
fn join_many_tracks_many_codecs_emits_per_track_fourcc() {
    let tracks = [
        JoinTrack::new(0, FOURCC_AV01, vec![0x11, 0x22]),
        JoinTrack::new(5, FOURCC_HVC1, vec![0x33]),
    ];
    let body = join_tracks(AvMultitrackType::ManyTracksManyCodecs, &tracks).unwrap();
    let mut expected = Vec::new();
    expected.extend_from_slice(b"av01");
    expected.push(0x00);
    expected.extend_from_slice(&[0x00, 0x00, 0x02]);
    expected.extend_from_slice(&[0x11, 0x22]);
    expected.extend_from_slice(b"hvc1");
    expected.push(0x05);
    expected.extend_from_slice(&[0x00, 0x00, 0x01]);
    expected.push(0x33);
    assert_eq!(body, expected);
}

#[test]
fn split_then_join_is_identity_one_track() {
    let body = [0x00, 0xDE, 0xAD, 0xBE, 0xEF];
    let tracks = split_tracks(AvMultitrackType::OneTrack, FOURCC_AV01, &body).unwrap();
    let rebuilt = join_tracks(AvMultitrackType::OneTrack, &resolve(&body, &tracks)).unwrap();
    assert_eq!(rebuilt, body);
}

#[test]
fn split_then_join_is_identity_many_tracks() {
    let mut body = Vec::new();
    body.push(0x00);
    body.extend_from_slice(&[0x00, 0x00, 0x03]);
    body.extend_from_slice(&[0x01, 0x02, 0x03]);
    body.push(0x01);
    body.extend_from_slice(&[0x00, 0x00, 0x02]);
    body.extend_from_slice(&[0xAA, 0xBB]);

    let tracks = split_tracks(AvMultitrackType::ManyTracks, FOURCC_HVC1, &body).unwrap();
    let rebuilt = join_tracks(AvMultitrackType::ManyTracks, &resolve(&body, &tracks)).unwrap();
    assert_eq!(rebuilt, body);
}

#[test]
fn split_then_join_is_identity_many_codecs() {
    let mut body = Vec::new();
    body.extend_from_slice(b"av01");
    body.push(0x00);
    body.extend_from_slice(&[0x00, 0x00, 0x02]);
    body.extend_from_slice(&[0x11, 0x22]);
    body.extend_from_slice(b"hvc1");
    body.push(0x05);
    body.extend_from_slice(&[0x00, 0x00, 0x01]);
    body.push(0x33);

    let tracks = split_tracks(AvMultitrackType::ManyTracksManyCodecs, 0, &body).unwrap();
    let rebuilt = join_tracks(
        AvMultitrackType::ManyTracksManyCodecs,
        &resolve(&body, &tracks),
    )
    .unwrap();
    assert_eq!(rebuilt, body);
}

#[test]
fn join_then_split_is_identity_three_many_tracks() {
    let tracks = [
        JoinTrack::new(0, FOURCC_OPUS, vec![0xA0]),
        JoinTrack::new(1, FOURCC_OPUS, vec![0xA1, 0xA2]),
        JoinTrack::new(2, FOURCC_OPUS, vec![]),
    ];
    let body = join_tracks(AvMultitrackType::ManyTracks, &tracks).unwrap();
    let split = split_tracks(AvMultitrackType::ManyTracks, FOURCC_OPUS, &body).unwrap();
    assert_eq!(split.len(), 3);
    for (orig, got) in tracks.iter().zip(split.iter()) {
        assert_eq!(orig.track_id, got.track_id);
        assert_eq!(orig.fourcc, got.fourcc);
        assert_eq!(&body[got.payload.clone()], orig.payload.as_slice());
    }
}

#[test]
fn join_then_split_is_identity_many_codecs() {
    let tracks = [
        JoinTrack::new(0, FOURCC_AV01, vec![0x11, 0x22, 0x33]),
        JoinTrack::new(9, FOURCC_HVC1, vec![0x44]),
        JoinTrack::new(2, FOURCC_OPUS, vec![]),
    ];
    let body = join_tracks(AvMultitrackType::ManyTracksManyCodecs, &tracks).unwrap();

    let split = split_tracks(AvMultitrackType::ManyTracksManyCodecs, 0, &body).unwrap();
    assert_eq!(split.len(), 3);
    for (orig, got) in tracks.iter().zip(split.iter()) {
        assert_eq!(orig.track_id, got.track_id);
        assert_eq!(orig.fourcc, got.fourcc);
        assert_eq!(&body[got.payload.clone()], orig.payload.as_slice());
    }
}

#[test]
fn join_from_packet_track_lifts_owned_read_side() {
    let pkt = [
        MultitrackPacketTrack {
            track_id: 0,
            fourcc: FOURCC_AV01,
            codec_name: "av1".to_string(),
            payload: vec![0x11, 0x22],
        },
        MultitrackPacketTrack {
            track_id: 1,
            fourcc: FOURCC_HVC1,
            codec_name: "h265".to_string(),
            payload: vec![0x33],
        },
    ];
    let join: Vec<JoinTrack> = pkt.iter().map(JoinTrack::from).collect();
    let body = join_tracks(AvMultitrackType::ManyTracksManyCodecs, &join).unwrap();
    let split = split_tracks(AvMultitrackType::ManyTracksManyCodecs, 0, &body).unwrap();
    assert_eq!(split.len(), 2);
    assert_eq!(split[0].fourcc, FOURCC_AV01);
    assert_eq!(&body[split[1].payload.clone()], &[0x33]);
}

#[test]
fn join_reserved_type_rejected() {
    let tracks = [JoinTrack::new(0, FOURCC_AV01, vec![0x00])];
    assert!(matches!(
        join_tracks(AvMultitrackType::Reserved(3), &tracks),
        Err(Error::InvalidData(_))
    ));
}

#[test]
fn join_one_track_rejects_multiple() {
    let tracks = [
        JoinTrack::new(0, FOURCC_AV01, vec![0x00]),
        JoinTrack::new(1, FOURCC_AV01, vec![0x01]),
    ];
    assert!(matches!(
        join_tracks(AvMultitrackType::OneTrack, &tracks),
        Err(Error::InvalidData(_))
    ));
}

#[test]
fn join_one_track_rejects_empty_batch() {
    assert!(matches!(
        join_tracks(AvMultitrackType::OneTrack, &[]),
        Err(Error::InvalidData(_))
    ));
}

#[test]
fn join_many_tracks_rejects_empty_batch() {
    assert!(matches!(
        join_tracks(AvMultitrackType::ManyTracks, &[]),
        Err(Error::InvalidData(_))
    ));
}

#[test]
fn join_rejects_payload_over_ui24() {
    let tracks = [JoinTrack::new(
        0,
        FOURCC_AV01,
        vec![0u8; MAX_TRACK_PAYLOAD + 1],
    )];
    assert!(matches!(
        join_tracks(AvMultitrackType::ManyTracks, &tracks),
        Err(Error::InvalidData(_))
    ));
}

#[test]
fn join_accepts_max_ui24_payload_size_field() {
    let tracks = [JoinTrack::new(3, FOURCC_HVC1, vec![0xEE; 4])];
    let body = join_tracks(AvMultitrackType::ManyTracks, &tracks).unwrap();
    assert_eq!(&body[1..4], &[0x00, 0x00, 0x04]);
    assert_eq!(body[0], 0x03);
}

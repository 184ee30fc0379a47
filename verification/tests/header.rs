use flv::error::Error;
use flv::header::FlvHeader;

#[test]
fn parses_minimal_header() {
    let bytes = [b'F', b'L', b'V', 0x01, 0x05, 0x00, 0x00, 0x00, 0x09];
    let h = FlvHeader::read(&bytes).unwrap();
    assert_eq!(h.version, 1);
    assert!(h.has_audio);
    assert!(h.has_video);
    assert_eq!(h.data_offset, 9);
}

#[test]
fn rejects_bad_signature() {
    let bytes = [b'F', b'L', b'X', 0x01, 0x05, 0x00, 0x00, 0x00, 0x09];
    assert!(matches!(
        FlvHeader::read(&bytes),
        Err(Error::InvalidData(_))
    ));
}

#[test]
fn rejects_bad_offset() {
    let bytes = [b'F', b'L', b'V', 0x01, 0x05, 0x00, 0x00, 0x00, 0x08];
    assert!(matches!(
        FlvHeader::read(&bytes),
        Err(Error::InvalidData(_))
    ));
}

#[test]
fn audio_only_flag() {
    let bytes = [b'F', b'L', b'V', 0x01, 0x04, 0x00, 0x00, 0x00, 0x09];
    let h = FlvHeader::read(&bytes).unwrap();
    assert!(h.has_audio);
    assert!(!h.has_video);
}

#[test]
fn write_emits_exact_bytes() {
    let mut out = Vec::new();
    flv::header::write(&mut out, true, true).unwrap();
    assert_eq!(out, [b'F', b'L', b'V', 0x01, 0x05, 0x00, 0x00, 0x00, 0x09]);

    let mut out = Vec::new();
    flv::header::write(&mut out, true, false).unwrap();
    assert_eq!(out[4], 0x04);

    let mut out = Vec::new();
    flv::header::write(&mut out, false, true).unwrap();
    assert_eq!(out[4], 0x01);
}

#[test]
fn write_then_read_round_trips() {
    for (a, v) in [(true, true), (true, false), (false, true), (false, false)] {
        let mut out = Vec::new();
        flv::header::write(&mut out, a, v).unwrap();
        let h = FlvHeader::read(&out).unwrap();
        assert_eq!(h.version, 1);
        assert_eq!(h.has_audio, a);
        assert_eq!(h.has_video, v);
        assert_eq!(h.data_offset, 9);
    }
}

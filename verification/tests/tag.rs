use flv::error::Error;
use flv::tag::{AUDIO_CODEC_MP3, AudioTagHeader, EncryptedTagPreamble, FrameType, TagHeader, TagType, UI24_MAX, VIDEO_CODEC_FLV1, VIDEO_CODEC_H264, VIDEO_CODEC_VP6A, VIDEO_CODEC_VP6F, VideoInfoCommand, VideoTagHeader, write_aac_raw_tag, write_avc_end_of_sequence, write_avc_nalu_tag, write_avc_sequence_header, write_first_previous_tag_size, write_h263_tag, write_mp3_tag, write_tag, write_video_info_command_tag, write_vp6_tag, write_vp6a_tag};

#[test]
fn tag_header_roundtrip() {
    let bytes = [
        0x08, 0x00, 0x00, 0x07, 0x00, 0x00, 0x03, 0x00, 0x00, 0x00, 0x00,
    ];
    let h = TagHeader::read(&bytes).unwrap();
    assert_eq!(h.kind, Some(TagType::Audio));
    assert_eq!(h.data_size, 7);
    assert_eq!(h.timestamp_ms, 3);
    assert_eq!(h.stream_id, 0);
    assert!(!h.filter);
}

#[test]
fn tag_header_extended_timestamp() {
    let bytes = [
        0x09, 0x00, 0x00, 0x00, 0x00, 0x00, 0xFF, 0x01, 0x00, 0x00, 0x00,
    ];
    let h = TagHeader::read(&bytes).unwrap();
    assert_eq!(h.kind, Some(TagType::Video));
    assert_eq!(h.timestamp_ms, 0x0100_00FF);
}

#[test]
fn audio_header_decode() {
    let h = AudioTagHeader::parse(0xAF);
    assert_eq!(h.codec_id, 10);
    assert_eq!(h.sample_rate_idx, 3);
    assert!(h.is_16bit);
    assert!(h.is_stereo);
}

#[test]
fn video_header_decode() {
    let h = VideoTagHeader::parse(0x14);
    assert_eq!(h.codec_id, VIDEO_CODEC_VP6F);
    assert!(h.is_keyframe());
}

#[test]
fn eof_read_on_empty() {
    assert!(matches!(TagHeader::read(&[]), Err(Error::Eof)));
}

#[test]
fn encryption_preamble_v1_full_encryption() {
    let mut body = vec![1u8];
    body.extend_from_slice(b"Encryption\0");
    body.push(0);
    body.push(0);
    body.push(16);
    let iv: [u8; 16] = std::array::from_fn(|i| 0x10 + i as u8);
    body.extend_from_slice(&iv);
    body.extend_from_slice(b"cipherbytes");

    let p = EncryptedTagPreamble::parse(&body).unwrap();
    assert_eq!(p.filter_name, "Encryption");
    assert!(p.full_encryption);
    assert!(p.is_encrypted);
    assert_eq!(p.iv, Some(iv));

    assert_eq!(p.bytes_consumed, 31);
    assert_eq!(&body[p.bytes_consumed..], b"cipherbytes");
}

#[test]
fn encryption_preamble_v2_selective_unencrypted() {
    let mut body = vec![1u8];
    body.extend_from_slice(b"SE\0");
    body.push(0);
    body.push(0);
    body.push(1);
    body.push(0x00);
    body.extend_from_slice(b"plaintext");

    let p = EncryptedTagPreamble::parse(&body).unwrap();
    assert_eq!(p.filter_name, "SE");
    assert!(!p.full_encryption);
    assert!(!p.is_encrypted);
    assert_eq!(p.iv, None);

    assert_eq!(p.bytes_consumed, 8);
    assert_eq!(&body[p.bytes_consumed..], b"plaintext");
}

#[test]
fn encryption_preamble_v2_selective_encrypted_with_iv() {
    let mut body = vec![1u8];
    body.extend_from_slice(b"SE\0");
    body.push(0);
    body.push(0);
    body.push(17);
    body.push(0x80);
    let iv: [u8; 16] = [0xAA; 16];
    body.extend_from_slice(&iv);

    let p = EncryptedTagPreamble::parse(&body).unwrap();
    assert!(p.is_encrypted);
    assert_eq!(p.iv, Some(iv));
}

#[test]
fn encryption_preamble_rejects_unknown_filter_name() {
    let mut body = vec![1u8];
    body.extend_from_slice(b"Bogus\0");
    body.push(0);
    body.push(0);
    body.push(0);
    assert!(matches!(
        EncryptedTagPreamble::parse(&body),
        Err(Error::InvalidData(_))
    ));
}

#[test]
fn encryption_preamble_rejects_truncated_length() {
    let body = b"\x01Encryption\0\x00";
    assert!(matches!(
        EncryptedTagPreamble::parse(body),
        Err(Error::InvalidData(_))
    ));
}

#[test]
fn audio_header_byte_round_trips() {
    for codec_id in 0u8..16 {
        for rate in 0u8..4 {
            for &is_16bit in &[false, true] {
                for &is_stereo in &[false, true] {
                    let h = AudioTagHeader {
                        codec_id,
                        sample_rate_idx: rate,
                        is_16bit,
                        is_stereo,
                    };
                    let back = AudioTagHeader::parse(h.to_byte());
                    assert_eq!(back.codec_id, codec_id);
                    assert_eq!(back.sample_rate_idx, rate);
                    assert_eq!(back.is_16bit, is_16bit);
                    assert_eq!(back.is_stereo, is_stereo);
                }
            }
        }
    }

    let h = AudioTagHeader {
        codec_id: 10,
        sample_rate_idx: 3,
        is_16bit: true,
        is_stereo: true,
    };
    assert_eq!(h.to_byte(), 0xAF);
}

#[test]
fn write_tag_emits_header_body_and_trailer() {
    let mut out = Vec::new();
    let body = [0xAA, 0xBB, 0xCC];
    let total = write_tag(&mut out, TagType::Audio, 0x0102_0304, 0, &body).unwrap();

    assert_eq!(total, 18);
    assert_eq!(out.len(), 18);

    assert_eq!(out[0], 0x08);

    assert_eq!(&out[1..4], &[0x00, 0x00, 0x03]);

    assert_eq!(&out[4..7], &[0x02, 0x03, 0x04]);
    assert_eq!(out[7], 0x01);

    assert_eq!(&out[8..11], &[0x00, 0x00, 0x00]);

    assert_eq!(&out[11..14], &body);

    assert_eq!(&out[14..18], &14u32.to_be_bytes());

    let h = TagHeader::read(&&out).unwrap();
    assert_eq!(h.kind, Some(TagType::Audio));
    assert_eq!(h.data_size, 3);
    assert_eq!(h.timestamp_ms, 0x0102_0304);
    assert_eq!(h.stream_id, 0);
}

#[test]
fn write_first_previous_tag_size_is_four_zero_bytes() {
    let mut out = Vec::new();
    write_first_previous_tag_size(&mut out).unwrap();
    assert_eq!(out, [0, 0, 0, 0]);
}

#[test]
fn write_mp3_tag_body_layout() {
    let mut out = Vec::new();
    let frame = [0xFF, 0xFB, 0x90, 0x00];
    write_mp3_tag(&mut out, 26, 3, true, true, &frame).unwrap();

    let ah = AudioTagHeader::parse(out[11]);
    assert_eq!(ah.codec_id, AUDIO_CODEC_MP3);
    assert_eq!(ah.sample_rate_idx, 3);
    assert!(ah.is_16bit && ah.is_stereo);
    assert_eq!(&out[12..16], &frame);
}

#[test]
fn write_aac_raw_tag_prefixes_packet_type() {
    let mut out = Vec::new();
    let au = [0x21, 0x00, 0x03];
    write_aac_raw_tag(&mut out, 0, &au).unwrap();

    assert_eq!(out[11], 0xAF);
    assert_eq!(out[12], 0x01);
    assert_eq!(&out[13..16], &au);
}

#[test]
fn write_tag_rejects_oversized_body() {
    let big = vec![0u8; (UI24_MAX as usize) + 1];
    let mut out = Vec::new();
    assert!(matches!(
        write_tag(&mut out, TagType::Audio, 0, 0, &big),
        Err(Error::InvalidData(_))
    ));
}

#[test]
fn video_header_byte_round_trips() {
    for ft in [
        FrameType::Key,
        FrameType::Inter,
        FrameType::DisposableInter,
        FrameType::GeneratedKey,
        FrameType::VideoInfo,
        FrameType::Unknown(7),
        FrameType::Unknown(0),
        FrameType::Unknown(15),
    ] {
        for codec in 0u8..16 {
            let h = VideoTagHeader {
                frame_type: ft,
                codec_id: codec,
            };
            let back = VideoTagHeader::parse(h.to_byte());
            assert_eq!(back.codec_id, codec);

            assert_eq!(back.frame_type.to_u8(), ft.to_u8());
        }
    }

    let h = VideoTagHeader {
        frame_type: FrameType::Key,
        codec_id: VIDEO_CODEC_H264,
    };
    assert_eq!(h.to_byte(), 0x17);
}

#[test]
fn write_h263_keyframe_emits_video_tag_with_flv1_id() {
    let mut out = Vec::new();
    let frame = [0x00, 0x00, 0x84, 0x00, 0x07];
    write_h263_tag(&mut out, 42, true, &frame).unwrap();

    assert_eq!(out.len(), 21);
    assert_eq!(out[0], 0x09);

    let vh = VideoTagHeader::parse(out[11]);
    assert_eq!(vh.codec_id, VIDEO_CODEC_FLV1);
    assert!(vh.is_keyframe());
    assert_eq!(&out[12..17], &frame);

    assert_eq!(&out[17..21], &17u32.to_be_bytes());
}

#[test]
fn write_vp6_inter_marks_inter_frame() {
    let mut out = Vec::new();
    write_vp6_tag(&mut out, 33, false, &[0xAA, 0xBB, 0xCC]).unwrap();
    let vh = VideoTagHeader::parse(out[11]);
    assert_eq!(vh.codec_id, VIDEO_CODEC_VP6F);
    assert!(!vh.is_keyframe());

    assert_eq!(&out[12..15], &[0xAA, 0xBB, 0xCC]);
}

#[test]
fn write_vp6a_prefixes_alpha_offset_byte() {
    let mut out = Vec::new();
    let frame = [0x11, 0x22, 0x33, 0x44];
    write_vp6a_tag(&mut out, 0, true, 0x07, &frame).unwrap();
    let vh = VideoTagHeader::parse(out[11]);
    assert_eq!(vh.codec_id, VIDEO_CODEC_VP6A);
    assert!(vh.is_keyframe());

    assert_eq!(out[12], 0x07);
    assert_eq!(&out[13..17], &frame);
}

#[test]
fn write_avc_sequence_header_lays_out_packet_type_and_cto() {
    let mut out = Vec::new();

    let config = [0x01, 0x42, 0xC0, 0x1F, 0xFF, 0xE1];
    write_avc_sequence_header(&mut out, 0, &config).unwrap();

    assert_eq!(out[11], 0x17);

    assert_eq!(out[12], 0x00);

    assert_eq!(&out[13..16], &[0, 0, 0]);

    assert_eq!(&out[16..22], &config);
}

#[test]
fn write_avc_nalu_round_trips_negative_composition_time() {
    let mut out = Vec::new();
    let au = [0x00, 0x00, 0x00, 0x05, 0x65, 0x88, 0x84, 0x00, 0x20];

    write_avc_nalu_tag(&mut out, 100, true, -42, &au).unwrap();
    assert_eq!(out[11], 0x17);
    assert_eq!(out[12], 0x01);

    let raw = ((out[13] as u32) << 16) | ((out[14] as u32) << 8) | (out[15] as u32);
    let sext = if raw & 0x0080_0000 != 0 {
        raw | 0xFF00_0000
    } else {
        raw
    };
    assert_eq!(sext as i32, -42);
    assert_eq!(&out[16..16 + au.len()], &au);
}

#[test]
fn write_avc_nalu_rejects_out_of_range_composition_time() {
    let mut out = Vec::new();

    assert!(matches!(
        write_avc_nalu_tag(&mut out, 0, false, 1 << 23, &[]),
        Err(Error::InvalidData(_))
    ));
    assert!(matches!(
        write_avc_nalu_tag(&mut out, 0, false, -(1 << 23) - 1, &[]),
        Err(Error::InvalidData(_))
    ));

    assert!(write_avc_nalu_tag(&mut out, 0, false, (1 << 23) - 1, &[]).is_ok());
    let mut out2 = Vec::new();
    assert!(write_avc_nalu_tag(&mut out2, 0, false, -(1 << 23), &[]).is_ok());
}

#[test]
fn write_avc_end_of_sequence_carries_packet_type_two() {
    let mut out = Vec::new();
    write_avc_end_of_sequence(&mut out, 1000).unwrap();
    assert_eq!(out[12], 0x02);
    assert_eq!(&out[13..16], &[0, 0, 0]);

    assert_eq!(out.len(), 20);
}

#[test]
fn write_video_info_command_emits_one_byte_body() {
    let mut out = Vec::new();
    write_video_info_command_tag(&mut out, 5, VideoInfoCommand::StartClientSeek).unwrap();

    assert_eq!(out[11], 0x50);
    assert_eq!(out[12], 0x00);

    assert_eq!(out.len(), 17);

    let mut out = Vec::new();
    write_video_info_command_tag(&mut out, 5, VideoInfoCommand::EndClientSeek).unwrap();
    assert_eq!(out[12], 0x01);

    let mut out = Vec::new();
    write_video_info_command_tag(&mut out, 5, VideoInfoCommand::Unknown(0xAB)).unwrap();
    assert_eq!(out[12], 0xAB);
}

#[test]
fn video_info_command_to_u8_round_trips() {
    for v in [0u8, 1, 2, 0x7F, 0xAB, 0xFF] {
        assert_eq!(VideoInfoCommand::from_u8(v).to_u8(), v);
    }
}

#[test]
fn video_info_command_decode() {
    let h = VideoTagHeader::parse(0x52);
    assert!(h.is_video_info());
    assert!(!h.is_keyframe());
    assert_eq!(
        VideoInfoCommand::from_u8(0),
        VideoInfoCommand::StartClientSeek
    );
    assert_eq!(
        VideoInfoCommand::from_u8(1),
        VideoInfoCommand::EndClientSeek
    );
    assert_eq!(VideoInfoCommand::from_u8(7), VideoInfoCommand::Unknown(7));
}

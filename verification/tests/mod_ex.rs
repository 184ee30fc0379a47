use flv::mod_ex::{AudioPacketModExType, ModExEntry, ModExPayload, VideoPacketModExType, decode_size, emit, encode_size, walk};

fn encode_one(payload: &[u8], subtype: u8, next_packet_type: u8) -> Vec<u8> {
    let mut buf = Vec::new();

    if payload.len() <= 255 {
        buf.push((payload.len() - 1) as u8);
    } else {
        buf.push(0xFF);
        let n16 = (payload.len() - 1) as u16;
        buf.extend_from_slice(&n16.to_be_bytes());
    }
    buf.extend_from_slice(payload);
    buf.push(((subtype & 0x0F) << 4) | (next_packet_type & 0x0F));
    buf
}

#[test]
fn audio_subtype_lookup_round_trips() {
    assert_eq!(
        AudioPacketModExType::from_u8(0),
        AudioPacketModExType::TimestampOffsetNano
    );
    assert_eq!(AudioPacketModExType::TimestampOffsetNano.raw(), 0);
    for v in 1..=15u8 {
        let t = AudioPacketModExType::from_u8(v);
        assert_eq!(t, AudioPacketModExType::Reserved(v));
        assert_eq!(t.raw(), v);
    }
}

#[test]
fn video_subtype_lookup_round_trips() {
    assert_eq!(
        VideoPacketModExType::from_u8(0),
        VideoPacketModExType::TimestampOffsetNano
    );
    assert_eq!(VideoPacketModExType::TimestampOffsetNano.raw(), 0);
    for v in 1..=15u8 {
        let t = VideoPacketModExType::from_u8(v);
        assert_eq!(t, VideoPacketModExType::Reserved(v));
        assert_eq!(t.raw(), v);
    }
}

#[test]
fn decode_size_small_case() {
    let body = [0x02, 0xAA, 0xBB, 0xCC];
    let (sz, hdr) = decode_size(&body, 0).unwrap();
    assert_eq!(sz, 3);
    assert_eq!(hdr, 1);
}

#[test]
fn decode_size_escape_case() {
    let body = [0xFF, 0x01, 0x00];
    let (sz, hdr) = decode_size(&body, 0).unwrap();
    assert_eq!(sz, 257);
    assert_eq!(hdr, 3);
}

#[test]
fn decode_size_truncated_small() {
    let body: &[u8] = &[];
    assert!(decode_size(body, 0).is_err());
}

#[test]
fn decode_size_truncated_escape() {
    let body = [0xFF, 0x01];
    assert!(decode_size(&body, 0).is_err());
}

#[test]
fn walk_no_modex_returns_input_packet_type() {
    let body = [0xDE, 0xAD];
    let (cur, pt, entries, ns) = walk::<7>(&body, 0, 1).unwrap();
    assert_eq!(cur, 0);
    assert_eq!(pt, 1);
    assert!(entries.is_empty());
    assert_eq!(ns, 0);
}

#[test]
fn walk_single_timestamp_offset_nano() {
    let body = encode_one(&[0x00, 0x03, 0xE8], 0, 1);
    let (cur, pt, entries, ns) = walk::<7>(&body, 0, 7).unwrap();
    assert_eq!(cur, body.len());
    assert_eq!(pt, 1);
    assert_eq!(entries.len(), 1);
    let e = &entries[0];
    assert_eq!(e.subtype_raw, 0);
    assert_eq!(e.timestamp_offset_nano(), Some(1000));
    assert_eq!(e.raw, vec![0x00, 0x03, 0xE8]);
    assert_eq!(ns, 1000);
    assert_eq!(e.audio_subtype(), AudioPacketModExType::TimestampOffsetNano);
    assert_eq!(e.video_subtype(), VideoPacketModExType::TimestampOffsetNano);
}

#[test]
fn walk_chains_two_timestamp_offsets() {
    let mut body = encode_one(&[0x00, 0x00, 0x64], 0, 7);
    body.extend(encode_one(&[0x00, 0x00, 0xC8], 0, 1));
    let (cur, pt, entries, ns) = walk::<7>(&body, 0, 7).unwrap();
    assert_eq!(cur, body.len());
    assert_eq!(pt, 1);
    assert_eq!(entries.len(), 2);
    assert_eq!(entries[0].timestamp_offset_nano(), Some(100));
    assert_eq!(entries[1].timestamp_offset_nano(), Some(200));
    assert_eq!(ns, 300);
}

#[test]
fn walk_reserved_subtype_preserves_raw_payload() {
    let body = encode_one(&[0xCA, 0xFE, 0xBA, 0xBE], 5, 1);
    let (cur, pt, entries, ns) = walk::<7>(&body, 0, 7).unwrap();
    assert_eq!(cur, body.len());
    assert_eq!(pt, 1);
    assert_eq!(entries.len(), 1);
    let e = &entries[0];
    assert_eq!(e.subtype_raw, 5);
    assert_eq!(e.audio_subtype(), AudioPacketModExType::Reserved(5));
    assert_eq!(e.video_subtype(), VideoPacketModExType::Reserved(5));
    assert!(matches!(
        e.payload,
        ModExPayload::Reserved { subtype_raw: 5 }
    ));
    assert_eq!(e.raw, vec![0xCA, 0xFE, 0xBA, 0xBE]);

    assert_eq!(e.timestamp_offset_nano(), None);
    assert_eq!(ns, 0);
}

#[test]
fn walk_handles_256_byte_escape_payload() {
    let payload: Vec<u8> = (0..257).map(|i| (i & 0xFF) as u8).collect();
    let body = encode_one(&payload, 0xF, 1);
    let (cur, pt, entries, ns) = walk::<7>(&body, 0, 7).unwrap();
    assert_eq!(cur, body.len());
    assert_eq!(pt, 1);
    assert_eq!(entries.len(), 1);
    let e = &entries[0];
    assert_eq!(e.subtype_raw, 0xF);
    assert_eq!(e.raw.len(), 257);

    assert_eq!(ns, 0);
}

#[test]
fn walk_chains_timestamp_then_reserved() {
    let mut body = encode_one(&[0x00, 0x01, 0xF4], 0, 7);
    body.extend(encode_one(&[0x01, 0x02], 2, 1));
    let (cur, pt, entries, ns) = walk::<7>(&body, 0, 7).unwrap();
    assert_eq!(cur, body.len());
    assert_eq!(pt, 1);
    assert_eq!(entries.len(), 2);
    assert_eq!(entries[0].timestamp_offset_nano(), Some(500));
    assert_eq!(entries[1].timestamp_offset_nano(), None);
    assert_eq!(entries[1].subtype_raw, 2);
    assert_eq!(ns, 500);
}

#[test]
fn walk_truncated_size_errors() {
    let body: &[u8] = &[];
    assert!(walk::<7>(body, 0, 7).is_err());
}

#[test]
fn walk_truncated_data_errors() {
    let body = [0x02, 0xAA];
    assert!(walk::<7>(&body, 0, 7).is_err());
}

#[test]
fn walk_truncated_trailer_errors() {
    let body = [0x00, 0xAA];
    assert!(walk::<7>(&body, 0, 7).is_err());
}

#[test]
fn walk_short_timestamp_offset_nano_errors() {
    let body = encode_one(&[0xAA, 0xBB], 0, 1);
    assert!(walk::<7>(&body, 0, 7).is_err());
}

#[test]
fn encode_size_ui8_path() {
    let mut out = Vec::new();
    encode_size(&mut out, 1).unwrap();
    assert_eq!(out, vec![0x00]);
    out.clear();
    encode_size(&mut out, 255).unwrap();

    assert_eq!(out, vec![0xFE]);
}

#[test]
fn encode_size_ui16_escape_path() {
    let mut out = Vec::new();
    encode_size(&mut out, 256).unwrap();

    assert_eq!(out, vec![0xFF, 0x00, 0xFF]);
    out.clear();
    encode_size(&mut out, 65_536).unwrap();

    assert_eq!(out, vec![0xFF, 0xFF, 0xFF]);
}

#[test]
fn encode_size_rejects_out_of_range() {
    let mut out = Vec::new();
    assert!(encode_size(&mut out, 0).is_err());
    assert!(encode_size(&mut out, 65_537).is_err());
}

#[test]
fn emit_single_entry_round_trips_through_walk() {
    let entry = ModExEntry {
        subtype_raw: 0,
        payload: ModExPayload::TimestampOffsetNano { offset_ns: 1000 },
        raw: vec![0x00, 0x03, 0xE8],
    };
    let mut out = Vec::new();
    emit::<7>(&mut out, std::slice::from_ref(&entry), 1).unwrap();

    let (cur, pt, entries, ns) = walk::<7>(&out, 0, 7).unwrap();
    assert_eq!(cur, out.len());
    assert_eq!(pt, 1);
    assert_eq!(entries.len(), 1);
    assert_eq!(entries[0], entry);
    assert_eq!(ns, 1000);
}

#[test]
fn emit_chain_of_two_round_trips_through_walk() {
    let entries = vec![
        ModExEntry {
            subtype_raw: 0,
            payload: ModExPayload::TimestampOffsetNano { offset_ns: 100 },
            raw: vec![0x00, 0x00, 0x64],
        },
        ModExEntry {
            subtype_raw: 0,
            payload: ModExPayload::TimestampOffsetNano { offset_ns: 200 },
            raw: vec![0x00, 0x00, 0xC8],
        },
    ];
    let mut out = Vec::new();
    emit::<7>(&mut out, &entries, 2).unwrap();
    let (cur, pt, parsed, ns) = walk::<7>(&out, 0, 7).unwrap();
    assert_eq!(cur, out.len());
    assert_eq!(pt, 2);
    assert_eq!(parsed, entries);
    assert_eq!(ns, 300);
}

#[test]
fn emit_chain_then_resolves_to_modex_in_caller_would_continue() {
    let entry = ModExEntry {
        subtype_raw: 0,
        payload: ModExPayload::TimestampOffsetNano { offset_ns: 100 },
        raw: vec![0x00, 0x00, 0x64],
    };
    let mut out = Vec::new();
    assert!(emit::<7>(&mut out, std::slice::from_ref(&entry), 7).is_err());
}

#[test]
fn emit_reserved_subtype_round_trips() {
    let entry = ModExEntry {
        subtype_raw: 5,
        payload: ModExPayload::Reserved { subtype_raw: 5 },
        raw: vec![0xCA, 0xFE, 0xBA, 0xBE],
    };
    let mut out = Vec::new();
    emit::<7>(&mut out, std::slice::from_ref(&entry), 1).unwrap();
    let (cur, pt, parsed, ns) = walk::<7>(&out, 0, 7).unwrap();
    assert_eq!(cur, out.len());
    assert_eq!(pt, 1);
    assert_eq!(parsed, vec![entry]);
    assert_eq!(ns, 0);
}

#[test]
fn emit_handles_256_byte_payload_via_escape_round_trip() {
    let payload: Vec<u8> = (0..256).map(|i| (i & 0xFF) as u8).collect();
    let entry = ModExEntry {
        subtype_raw: 0xF,
        payload: ModExPayload::Reserved { subtype_raw: 0xF },
        raw: payload.clone(),
    };
    let mut out = Vec::new();
    emit::<7>(&mut out, std::slice::from_ref(&entry), 1).unwrap();

    assert_eq!(out[0], 0xFF);
    let (cur, pt, parsed, _) = walk::<7>(&out, 0, 7).unwrap();
    assert_eq!(cur, out.len());
    assert_eq!(pt, 1);
    assert_eq!(parsed.len(), 1);
    assert_eq!(parsed[0].raw.len(), 256);
    assert_eq!(parsed[0].raw, payload);
}

#[test]
fn emit_rejects_empty_entries() {
    let mut out = Vec::new();
    assert!(emit::<7>(&mut out, &[], 1).is_err());
}

#[test]
fn emit_rejects_final_packet_type_out_of_nibble_range() {
    let entry = ModExEntry {
        subtype_raw: 0,
        payload: ModExPayload::TimestampOffsetNano { offset_ns: 100 },
        raw: vec![0x00, 0x00, 0x64],
    };
    let mut out = Vec::new();
    assert!(emit::<7>(&mut out, std::slice::from_ref(&entry), 0x10).is_err());
}

#[test]
fn emit_rejects_subtype_out_of_nibble_range() {
    let entry = ModExEntry {
        subtype_raw: 0x10,
        payload: ModExPayload::Reserved { subtype_raw: 0x10 },
        raw: vec![0xAA],
    };
    let mut out = Vec::new();
    assert!(emit::<7>(&mut out, std::slice::from_ref(&entry), 1).is_err());
}

#[test]
fn emit_rejects_timestamp_offset_nano_with_short_raw() {
    let entry = ModExEntry {
        subtype_raw: 0,
        payload: ModExPayload::TimestampOffsetNano { offset_ns: 100 },
        raw: vec![0xAA, 0xBB],
    };
    let mut out = Vec::new();
    assert!(emit::<7>(&mut out, std::slice::from_ref(&entry), 1).is_err());
}

#[test]
fn emit_rejects_timestamp_offset_nano_with_mismatched_raw_ui24() {
    let entry = ModExEntry {
        subtype_raw: 0,
        payload: ModExPayload::TimestampOffsetNano { offset_ns: 200 },
        raw: vec![0x00, 0x00, 0x64],
    };
    let mut out = Vec::new();
    assert!(emit::<7>(&mut out, std::slice::from_ref(&entry), 1).is_err());
}

#[test]
fn emit_rejects_timestamp_offset_nano_above_one_million_ns() {
    let entry = ModExEntry {
        subtype_raw: 0,
        payload: ModExPayload::TimestampOffsetNano {
            offset_ns: 1_000_000,
        },
        raw: vec![0x0F, 0x42, 0x40],
    };
    let mut out = Vec::new();
    assert!(emit::<7>(&mut out, std::slice::from_ref(&entry), 1).is_err());
}

#[test]
fn emit_rejects_timestamp_offset_nano_subtype_not_zero() {
    let entry = ModExEntry {
        subtype_raw: 1,
        payload: ModExPayload::TimestampOffsetNano { offset_ns: 100 },
        raw: vec![0x00, 0x00, 0x64],
    };
    let mut out = Vec::new();
    assert!(emit::<7>(&mut out, std::slice::from_ref(&entry), 1).is_err());
}

#[test]
fn emit_max_ns_999_999_round_trip() {
    let entry = ModExEntry {
        subtype_raw: 0,
        payload: ModExPayload::TimestampOffsetNano { offset_ns: 999_999 },
        raw: vec![0x0F, 0x42, 0x3F],
    };
    let mut out = Vec::new();
    emit::<7>(&mut out, std::slice::from_ref(&entry), 1).unwrap();
    let (_, _, parsed, ns) = walk::<7>(&out, 0, 7).unwrap();
    assert_eq!(parsed.len(), 1);
    assert_eq!(parsed[0].timestamp_offset_nano(), Some(999_999));
    assert_eq!(ns, 999_999);
}

#[test]
fn walk_starts_already_past_modex() {
    let body = [0x99, 0x88];
    let (cur, pt, entries, ns) = walk::<7>(&body, 0, 2).unwrap();
    assert_eq!(cur, 0);
    assert_eq!(pt, 2);
    assert!(entries.is_empty());
    assert_eq!(ns, 0);
}

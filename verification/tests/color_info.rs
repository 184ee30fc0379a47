use flv::color_info::{ColorConfig, ColorInfo, HdrCll, HdrMdcv, encode_amf_into, encode_amf_reset};
use flv::double::Double;

fn d(x: f64) -> Double {
    Double { bits: x.to_bits() }
}

fn read_u16(b: &[u8], p: usize) -> u16 {
    u16::from_be_bytes([b[p], b[p + 1]])
}

fn read_prop_name(b: &[u8], pos: usize) -> (String, usize) {
    let len = read_u16(b, pos) as usize;
    let s = std::str::from_utf8(&b[pos + 2..pos + 2 + len])
        .unwrap()
        .to_string();
    (s, pos + 2 + len)
}

#[test]
fn empty_color_info_encodes_to_empty_object_pair() {
    let ci = ColorInfo::default();
    let bytes = ci.encode_amf().unwrap();

    assert_eq!(bytes.len(), 1 + 2 + 9 + 1 + 3);
    assert_eq!(bytes[0], 0x02);
    assert_eq!(read_u16(&bytes, 1), 9);
    assert_eq!(&bytes[3..12], b"colorInfo");
    assert_eq!(bytes[12], 0x03);
    assert_eq!(&bytes[13..16], &[0x00, 0x00, 0x09]);
}

#[test]
fn populated_color_info_emits_expected_properties() {
    let ci = ColorInfo {
        color_config: Some(ColorConfig {
            bit_depth: Some(10),
            color_primaries: Some(9),
            transfer_characteristics: Some(16),
            matrix_coefficients: Some(9),
        }),
        hdr_cll: Some(HdrCll {
            max_fall: Some(d(400.0)),
            max_cll: Some(d(1000.0)),
        }),
        hdr_mdcv: Some(HdrMdcv {
            red_x: Some(d(0.708)),
            red_y: Some(d(0.292)),
            green_x: Some(d(0.170)),
            green_y: Some(d(0.797)),
            blue_x: Some(d(0.131)),
            blue_y: Some(d(0.046)),
            white_point_x: Some(d(0.3127)),
            white_point_y: Some(d(0.3290)),
            max_luminance: Some(d(1000.0)),
            min_luminance: Some(d(0.01)),
        }),
    };
    let bytes = ci.encode_amf().unwrap();

    assert_eq!(bytes[0], 0x02);
    assert_eq!(&bytes[3..12], b"colorInfo");

    assert_eq!(bytes[12], 0x03);

    let mut p = 13;
    let (name, np) = read_prop_name(&bytes, p);
    assert_eq!(name, "colorConfig");

    assert_eq!(bytes[np], 0x03);

    let mut q = np + 1;
    while !(bytes[q] == 0x00 && bytes[q + 1] == 0x00 && bytes[q + 2] == 0x09) {
        q += 1;
    }
    q += 3;
    p = q;
    let (name2, np2) = read_prop_name(&bytes, p);
    assert_eq!(name2, "hdrCll");
    assert_eq!(bytes[np2], 0x03);
    let mut q = np2 + 1;
    while !(bytes[q] == 0x00 && bytes[q + 1] == 0x00 && bytes[q + 2] == 0x09) {
        q += 1;
    }
    q += 3;
    let (name3, _) = read_prop_name(&bytes, q);
    assert_eq!(name3, "hdrMdcv");
}

#[test]
fn reset_payload_is_undefined_value() {
    let bytes = encode_amf_reset();

    assert_eq!(bytes.len(), 1 + 2 + 9 + 1);
    assert_eq!(bytes[0], 0x02);
    assert_eq!(&bytes[3..12], b"colorInfo");
    assert_eq!(bytes[12], 0x06);
}

#[test]
fn out_of_range_max_cll_rejected() {
    let ci = ColorInfo {
        hdr_cll: Some(HdrCll {
            max_cll: Some(d(20_000.0)),
            ..HdrCll::default()
        }),
        ..ColorInfo::default()
    };
    let err = ci.encode_amf().unwrap_err();
    let msg = err.message();
    assert!(msg.contains("maxCLL"), "got: {msg}");
    assert!(msg.contains("outside spec range"), "got: {msg}");
}

#[test]
fn nan_max_fall_rejected() {
    let ci = ColorInfo {
        hdr_cll: Some(HdrCll {
            max_fall: Some(d(f64::NAN)),
            ..HdrCll::default()
        }),
        ..ColorInfo::default()
    };
    let err = ci.encode_amf().unwrap_err();
    let msg = err.message();
    assert!(msg.contains("maxFall"));
    assert!(msg.contains("not finite"));
}

#[test]
fn out_of_range_bit_depth_rejected() {
    let ci = ColorInfo {
        color_config: Some(ColorConfig {
            bit_depth: Some(4),
            ..ColorConfig::default()
        }),
        ..ColorInfo::default()
    };
    let err = ci.encode_amf().unwrap_err();
    let msg = err.message();
    assert!(msg.contains("bitDepth"));
}

#[test]
fn out_of_range_red_x_rejected() {
    let ci = ColorInfo {
        hdr_mdcv: Some(HdrMdcv {
            red_x: Some(d(0.9)),
            ..HdrMdcv::default()
        }),
        ..ColorInfo::default()
    };
    let err = ci.encode_amf().unwrap_err();
    let msg = err.message();
    assert!(msg.contains("redX"));
}

#[test]
fn out_of_range_min_luminance_rejected() {
    let ci = ColorInfo {
        hdr_mdcv: Some(HdrMdcv {
            min_luminance: Some(d(7.5)),
            ..HdrMdcv::default()
        }),
        ..ColorInfo::default()
    };
    let err = ci.encode_amf().unwrap_err();
    let msg = err.message();
    assert!(msg.contains("minLuminance"));
}

#[test]
fn encode_amf_into_appends_to_existing_buffer() {
    let mut buf = vec![0xAA, 0xBB];
    let ci = ColorInfo::default();
    encode_amf_into(&mut buf, &ci).unwrap();

    assert_eq!(&buf[..2], &[0xAA, 0xBB]);

    assert_eq!(buf[2], 0x02);
}

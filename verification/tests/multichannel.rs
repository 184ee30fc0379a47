use flv::error::Error;
use flv::mod_ex::emit;
use flv::multichannel::{AudioChannel, AudioChannelOrder, CHANNEL_MASK_ALL, MultichannelConfig, mask_channel_labels};

#[test]
fn parse_native_5_1() {
    let body = [0x01, 6, 0x00, 0x00, 0x00, 0x3F];
    let mcc = MultichannelConfig::parse(&body).unwrap();
    assert_eq!(mcc.order, AudioChannelOrder::Native);
    assert_eq!(mcc.channel_count, 6);
    assert_eq!(mcc.channel_flags, Some(0x3F));
    assert_eq!(mcc.mapping, None);
    assert_eq!(
        mask_channel_labels(0x3F),
        vec![
            "frontleft",
            "frontright",
            "frontcenter",
            "lowfrequency1",
            "backleft",
            "backright"
        ]
    );
}

#[test]
fn parse_custom_mapping() {
    let body = [0x02, 3, 0x01, 0x00, 0xFE];
    let mcc = MultichannelConfig::parse(&body).unwrap();
    assert_eq!(mcc.order, AudioChannelOrder::Custom);
    assert_eq!(mcc.channel_count, 3);
    assert_eq!(
        mcc.mapping,
        Some(vec![
            AudioChannel::FrontRight,
            AudioChannel::FrontLeft,
            AudioChannel::Unused
        ])
    );
    assert_eq!(mcc.channel_flags, None);
}

#[test]
fn parse_unspecified_count_only() {
    let body = [0x00, 2];
    let mcc = MultichannelConfig::parse(&body).unwrap();
    assert_eq!(mcc.order, AudioChannelOrder::Unspecified);
    assert_eq!(mcc.channel_count, 2);
    assert_eq!(mcc.mapping, None);
    assert_eq!(mcc.channel_flags, None);
}

#[test]
fn parse_reserved_order_is_lenient() {
    let body = [0x07, 4, 0xDE, 0xAD];
    let mcc = MultichannelConfig::parse(&body).unwrap();
    assert_eq!(mcc.order, AudioChannelOrder::Reserved(7));
    assert_eq!(mcc.channel_count, 4);
    assert_eq!(mcc.mapping, None);
    assert_eq!(mcc.channel_flags, None);
}

#[test]
fn parse_native_reserved_high_bits_are_lenient() {
    let body = [0x01, 1, 0x80, 0x00, 0x00, 0x01];
    let mcc = MultichannelConfig::parse(&body).unwrap();
    assert_eq!(mcc.channel_flags, Some(0x8000_0001));
    assert_eq!(mask_channel_labels(0x8000_0001), vec!["frontleft"]);
}

#[test]
fn parse_trailing_bytes_ignored() {
    let body = [0x00, 2, 0xAA, 0xBB];
    let mcc = MultichannelConfig::parse(&body).unwrap();
    assert_eq!(mcc.channel_count, 2);
}

#[test]
fn parse_truncation_errors() {
    for body in [
        &[][..],
        &[0x01][..],
        &[0x02, 3, 0x00, 0x01][..],
        &[0x01, 2, 0x00, 0x00, 0x03][..],
    ] {
        assert!(
            matches!(MultichannelConfig::parse(body), Err(Error::InvalidData(_))),
            "body {body:02X?} should error"
        );
    }
}

#[test]
fn to_bytes_round_trips_all_orders() {
    let configs = [
        MultichannelConfig {
            order: AudioChannelOrder::Unspecified,
            channel_count: 2,
            mapping: None,
            channel_flags: None,
        },
        MultichannelConfig {
            order: AudioChannelOrder::Native,
            channel_count: 6,
            mapping: None,
            channel_flags: Some(0x3F),
        },
        MultichannelConfig {
            order: AudioChannelOrder::Custom,
            channel_count: 4,
            mapping: Some(vec![
                AudioChannel::FrontLeft,
                AudioChannel::FrontRight,
                AudioChannel::Unknown,
                AudioChannel::Unused,
            ]),
            channel_flags: None,
        },
    ];
    for mcc in configs {
        let mut wire = Vec::new();
        mcc.to_bytes(&mut wire).unwrap();
        let back = MultichannelConfig::parse(&wire).unwrap();
        assert_eq!(back, mcc);
    }
}

#[test]
fn to_bytes_rejects_inconsistent_shapes() {
    let cases = [

        MultichannelConfig {
            order: AudioChannelOrder::Custom,
            channel_count: 2,
            mapping: None,
            channel_flags: None,
        },

        MultichannelConfig {
            order: AudioChannelOrder::Custom,
            channel_count: 3,
            mapping: Some(vec![AudioChannel::FrontLeft]),
            channel_flags: None,
        },

        MultichannelConfig {
            order: AudioChannelOrder::Custom,
            channel_count: 1,
            mapping: Some(vec![AudioChannel::FrontLeft]),
            channel_flags: Some(1),
        },

        MultichannelConfig {
            order: AudioChannelOrder::Native,
            channel_count: 2,
            mapping: None,
            channel_flags: None,
        },

        MultichannelConfig {
            order: AudioChannelOrder::Native,
            channel_count: 1,
            mapping: Some(vec![AudioChannel::FrontLeft]),
            channel_flags: Some(1),
        },

        MultichannelConfig {
            order: AudioChannelOrder::Native,
            channel_count: 1,
            mapping: None,
            channel_flags: Some(0x0100_0000),
        },

        MultichannelConfig {
            order: AudioChannelOrder::Native,
            channel_count: 3,
            mapping: None,
            channel_flags: Some(0x03),
        },

        MultichannelConfig {
            order: AudioChannelOrder::Unspecified,
            channel_count: 2,
            mapping: None,
            channel_flags: Some(0x03),
        },

        MultichannelConfig {
            order: AudioChannelOrder::Reserved(9),
            channel_count: 2,
            mapping: None,
            channel_flags: None,
        },
    ];
    for mcc in cases {
        let mut wire = Vec::new();
        assert!(
            matches!(mcc.to_bytes(&mut wire), Err(Error::InvalidData(_))),
            "{mcc:?} should be rejected"
        );
        assert!(wire.is_empty(), "failed write must not emit bytes");
    }
}

#[test]
fn audio_channel_round_trips_through_to_u8() {
    for v in 0u8..=255 {
        assert_eq!(AudioChannel::from_u8(v).to_u8(), v);
    }
}

#[test]
fn audio_channel_order_round_trips_through_to_u8() {
    for v in 0u8..=255 {
        assert_eq!(AudioChannelOrder::from_u8(v).to_u8(), v);
    }
}

#[test]
fn channel_22_2_mask_completes_the_enum() {
    let labels = mask_channel_labels(CHANNEL_MASK_ALL);
    assert_eq!(labels.len(), 24);
    assert_eq!(labels[0], "frontleft");
    assert_eq!(labels[18], "lowfrequency2");
    assert_eq!(labels[23], "bottomfrontright");
}

//! Flash Video: reading and writing the container, its script data, and the tags of Enhanced RTMP.
//!
//! Writing: [`header::write`] starts a file, [`tag`] appends tags of audio and video, and
//! [`script`] appends what the file says of itself. Reading: [`demuxer::open`] takes a file
//! apart, and [`FlvDemuxer`] hands out its packets. The values in script tags are those of
//! [`amf0`] and [`amf3`]; [`connect`] and [`on_status`] are the two commands of a live session
//! that negotiate and report.
//!
//! Floating-point numbers are held as their bits, [`double::Double`].
use vstd::prelude::*;

pub mod amf0;
pub mod amf3;
pub mod color_info;
pub mod commands;
pub mod connect;
pub mod demuxer;
pub mod double;
pub mod error;
pub mod ex_audio;
pub mod ex_video;
pub mod extended;
pub mod fourcc;
pub mod header;
pub mod mod_ex;
pub mod multichannel;
pub mod multitrack;
pub mod on_status;
pub mod script;
pub mod settings;
pub mod tag;
pub mod text;
pub mod typed_meta;
pub mod wire;

pub use amf0::{parse_amf0_value, AmfValue};
pub use amf3::{parse_amf3_value, Amf3Array, Amf3Object, Amf3Value};
pub use color_info::{ColorConfig, ColorInfo, HdrCll, HdrMdcv};
pub use demuxer::{open as open_demuxer, FlvDemuxer};
pub use double::Double;
pub use error::{Error, Fault};
pub use ex_audio::{
    fourcc_audio_codec_id_str, ExAudioPacketType, ExAudioTagHeader, FOURCC_AAC as FOURCC_AUDIO_AAC,
    FOURCC_AC3, FOURCC_EAC3, FOURCC_FLAC, FOURCC_MP3 as FOURCC_AUDIO_MP3, FOURCC_OPUS,
    SOUND_FORMAT_EX_HEADER,
};
pub use ex_video::{
    fourcc_codec_id_str, ExFrameType, ExPacketType, ExVideoTagHeader, VideoCommand, EX_HEADER_FLAG,
    FOURCC_AV01, FOURCC_AVC1, FOURCC_HVC1, FOURCC_VP08, FOURCC_VP09, FOURCC_VVC1,
};
pub use header::{FlvHeader, FLV_SIGNATURE};
pub use mod_ex::{AudioPacketModExType, ModExEntry, ModExPayload, VideoPacketModExType};
pub use multitrack::{split_tracks, AvMultitrackType, MultitrackTrack};
pub use script::{write_on_metadata, write_on_metadata_body, MetaValue, MetadataBag};
pub use tag::ex::{
    write_aac_ex_coded_frames, write_aac_ex_sequence_start, write_ac3_coded_frames,
    write_av1_coded_frames, write_av1_sequence_start, write_eac3_coded_frames,
    write_ex_audio_sequence_end, write_ex_audio_tag, write_ex_video_color_info,
    write_ex_video_color_info_reset, write_ex_video_metadata, write_ex_video_sequence_end,
    write_ex_video_tag, write_flac_coded_frames, write_flac_sequence_start, write_hevc_coded_frames,
    write_hevc_coded_frames_x, write_hevc_sequence_start, write_mp3_ex_coded_frames,
    write_opus_coded_frames, write_opus_sequence_start, write_vp9_coded_frames,
    write_vp9_sequence_start, write_vvc_coded_frames, write_vvc_sequence_start,
};
pub use tag::{
    audio_codec_id_str, video_codec_id_str, write_aac_raw_tag, write_audio_tag,
    write_avc_end_of_sequence, write_avc_nalu_tag, write_avc_sequence_header,
    write_first_previous_tag_size, write_h263_tag, write_mp3_tag, write_tag,
    write_video_info_command_tag, write_video_tag, write_vp6_tag, write_vp6a_tag, AudioTagHeader,
    EncryptedTagPreamble, FrameType, TagHeader, TagType, VideoInfoCommand, VideoTagHeader,
    AUDIO_CODEC_AAC, AUDIO_CODEC_MP3, AUDIO_CODEC_MP3_8K, VIDEO_CODEC_FLV1, VIDEO_CODEC_H264,
    VIDEO_CODEC_VP6A, VIDEO_CODEC_VP6F,
};
pub use typed_meta::{TypedAudioTrackInfo, TypedColorInfo, TypedMetadata, TypedVideoTrackInfo};

verus! {

} // verus!

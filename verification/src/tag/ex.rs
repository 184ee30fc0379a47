//! Tags whose codec is named by a FourCC.
use vstd::prelude::*;
use crate::color_info::{color_fault, emit_color, emit_reset, encode_amf_reset, ColorInfo};
use crate::error::Error;
use crate::ex_audio::{ExAudio, ExAudioPacketType, ExAudioTagHeader, FOURCC_AAC, FOURCC_AC3,
    FOURCC_EAC3, FOURCC_FLAC, FOURCC_MP3, FOURCC_OPUS};
use crate::ex_video::{ExFrameType, ExPacketType, ExVideo, ExVideoTagHeader, FOURCC_AV01, FOURCC_HVC1,
    FOURCC_VP09, FOURCC_VVC1};
use crate::mod_ex::{entries_view, ModExEntry};
use crate::multichannel::{emit_config, Channels, MultichannelConfig};
use crate::tag::{emit_tag, tagged, write_tag, TagType};
use crate::wire::{push_bytes, Emit};

verus! {

/// A tag whose body is what `head` says and `payload` behind it; nothing where `head` stops.
pub open spec fn emit_headed(kind: TagType, timestamp_ms: u32, head: Emit, payload: Seq<u8>) -> Emit {
    match head.fault {
        Some(f) => Emit::stop(f),
        None => emit_tag(kind, timestamp_ms, 0, head.bytes + payload),
    }
}

/// A video tag.
pub open spec fn emit_ex_video_tag(timestamp_ms: u32, h: ExVideo, payload: Seq<u8>) -> Emit {
    emit_headed(TagType::Video, timestamp_ms, crate::ex_video::emit_header(h), payload)
}

/// An audio tag.
pub open spec fn emit_ex_audio_tag(timestamp_ms: u32, h: ExAudio, payload: Seq<u8>) -> Emit {
    emit_headed(TagType::Audio, timestamp_ms, crate::ex_audio::emit_header(h), payload)
}

/// Appends a video tag. Where the header cannot be written, nothing is.
pub fn write_ex_video_tag(
    out: &mut Vec<u8>,
    timestamp_ms: u32,
    header: &ExVideoTagHeader,
    payload: &[u8],
) -> (r: Result<u32, Error>)
    ensures
        tagged(old(out)@, final(out)@, r, emit_ex_video_tag(timestamp_ms, header@, payload@)),
{
    let mut body: Vec<u8> = Vec::new();
    let checked = header.to_bytes(&mut body);
    assert(body@ =~= crate::ex_video::emit_header(header@).bytes);
    if let Err(e) = checked {
        assert(out@ =~= old(out)@ + Seq::<u8>::empty());
        return Err(e);
    }
    push_bytes(&mut body, payload);
    write_tag(out, TagType::Video, timestamp_ms, 0, body.as_slice())
}

/// Appends an audio tag. Where the header cannot be written, nothing is.
pub fn write_ex_audio_tag(
    out: &mut Vec<u8>,
    timestamp_ms: u32,
    header: &ExAudioTagHeader,
    payload: &[u8],
) -> (r: Result<u32, Error>)
    ensures
        tagged(old(out)@, final(out)@, r, emit_ex_audio_tag(timestamp_ms, header@, payload@)),
{
    let mut body: Vec<u8> = Vec::new();
    let checked = header.to_bytes(&mut body);
    assert(body@ =~= crate::ex_audio::emit_header(header@).bytes);
    if let Err(e) = checked {
        assert(out@ =~= old(out)@ + Seq::<u8>::empty());
        return Err(e);
    }
    push_bytes(&mut body, payload);
    write_tag(out, TagType::Audio, timestamp_ms, 0, body.as_slice())
}

// ---- video of one track ---------------------------------------------------

/// Key frames and others.
pub open spec fn key_or_inter(is_keyframe: bool) -> ExFrameType {
    if is_keyframe {
        ExFrameType::KeyFrame
    } else {
        ExFrameType::InterFrame
    }
}

/// The header of one video track, without modifiers.
pub open spec fn video_of(
    frame_type: ExFrameType,
    packet_type: ExPacketType,
    fourcc: u32,
    composition_time_offset_ms: Option<i32>,
) -> ExVideo {
    ExVideo {
        frame_type,
        packet_type,
        fourcc: Some(fourcc),
        multitrack: None,
        bytes_consumed: 0,
        composition_time_offset_ms,
        timestamp_offset_nano: 0,
        mod_ex_entries: Seq::empty(),
        video_command: None,
    }
}

fn key_or_inter_frame(is_keyframe: bool) -> (r: ExFrameType)
    ensures
        r == key_or_inter(is_keyframe),
{
    if is_keyframe {
        ExFrameType::KeyFrame
    } else {
        ExFrameType::InterFrame
    }
}

fn single_track_ex_video_header(
    frame_type: ExFrameType,
    packet_type: ExPacketType,
    fourcc: u32,
    composition_time_offset_ms: Option<i32>,
) -> (r: ExVideoTagHeader)
    ensures
        r@ == video_of(frame_type, packet_type, fourcc, composition_time_offset_ms),
{
    let entries: Vec<ModExEntry> = Vec::new();
    assert(entries_view(entries@) =~= Seq::empty());
    ExVideoTagHeader {
        frame_type,
        packet_type,
        fourcc: Some(fourcc),
        multitrack: None,
        bytes_consumed: 0,
        composition_time_offset_ms,
        timestamp_offset_nano: 0,
        mod_ex_entries: entries,
        video_command: None,
    }
}

// ---- colours --------------------------------------------------------------

/// A video tag with the colours of the picture.
pub open spec fn emit_color_tag(timestamp_ms: u32, fourcc: u32, ci: ColorInfo) -> Emit {
    match color_fault(ci) {
        Some(f) => Emit::stop(f),
        None => emit_ex_video_tag(
            timestamp_ms,
            video_of(ExFrameType::KeyFrame, ExPacketType::Metadata, fourcc, None),
            emit_color(ci).bytes,
        ),
    }
}

/// Appends a video tag with the colours of the picture. Where a number is out of bounds, nothing
/// is written.
pub fn write_ex_video_color_info(
    out: &mut Vec<u8>,
    timestamp_ms: u32,
    fourcc: u32,
    color_info: &ColorInfo,
) -> (r: Result<u32, Error>)
    ensures
        tagged(old(out)@, final(out)@, r, emit_color_tag(timestamp_ms, fourcc, *color_info)),
{
    match color_info.encode_amf() {
        Ok(amf) => write_ex_video_metadata(out, timestamp_ms, fourcc, amf.as_slice()),
        Err(e) => {
            assert(out@ =~= old(out)@ + Seq::<u8>::empty());
            Err(e)
        },
    }
}

/// Appends a video tag that goes back to the colours that the codec gives.
pub fn write_ex_video_color_info_reset(out: &mut Vec<u8>, timestamp_ms: u32, fourcc: u32) -> (r:
    Result<u32, Error>)
    ensures
        tagged(
            old(out)@,
            final(out)@,
            r,
            emit_ex_video_tag(
                timestamp_ms,
                video_of(ExFrameType::KeyFrame, ExPacketType::Metadata, fourcc, None),
                emit_reset().bytes,
            ),
        ),
{
    let amf = encode_amf_reset();
    write_ex_video_metadata(out, timestamp_ms, fourcc, amf.as_slice())
}

// ---- audio of one track ---------------------------------------------------

/// The header of one audio track, without modifiers.
pub open spec fn audio_of(packet_type: ExAudioPacketType, fourcc: u32) -> ExAudio {
    ExAudio {
        packet_type,
        fourcc: Some(fourcc),
        multitrack: None,
        timestamp_offset_nano: 0,
        mod_ex_entries: Seq::empty(),
        bytes_consumed: 0,
    }
}

fn single_track_ex_audio_header(packet_type: ExAudioPacketType, fourcc: u32) -> (r: ExAudioTagHeader)
    ensures
        r@ == audio_of(packet_type, fourcc),
{
    let entries: Vec<ModExEntry> = Vec::new();
    assert(entries_view(entries@) =~= Seq::empty());
    ExAudioTagHeader {
        packet_type,
        fourcc: Some(fourcc),
        multitrack: None,
        timestamp_offset_nano: 0,
        mod_ex_entries: entries,
        bytes_consumed: 0,
    }
}

/// Appends a tag with the configuration of an AV1 track.
pub fn write_av1_sequence_start(
    out: &mut Vec<u8>,
    timestamp_ms: u32,
    config_record: &[u8],
) -> (r: Result<u32, Error>)
    ensures
        tagged(
            old(out)@,
            final(out)@,
            r,
            emit_ex_video_tag(
                timestamp_ms,
                video_of(ExFrameType::KeyFrame, ExPacketType::SequenceStart, FOURCC_AV01, None),
                config_record@,
            ),
        ),
{
    let header = single_track_ex_video_header(
        ExFrameType::KeyFrame,
        ExPacketType::SequenceStart,
        FOURCC_AV01,
        None,
    );
    write_ex_video_tag(out, timestamp_ms, &header, config_record)
}

/// Appends a tag with frames of an AV1 track.
pub fn write_av1_coded_frames(
    out: &mut Vec<u8>,
    timestamp_ms: u32,
    is_keyframe: bool,
    payload: &[u8],
) -> (r: Result<u32, Error>)
    ensures
        tagged(
            old(out)@,
            final(out)@,
            r,
            emit_ex_video_tag(
                timestamp_ms,
                video_of(key_or_inter(is_keyframe), ExPacketType::CodedFrames, FOURCC_AV01, None),
                payload@,
            ),
        ),
{
    let header = single_track_ex_video_header(
        key_or_inter_frame(is_keyframe),
        ExPacketType::CodedFrames,
        FOURCC_AV01,
        None,
    );
    write_ex_video_tag(out, timestamp_ms, &header, payload)
}

/// Appends a tag with the configuration of a VP9 track.
pub fn write_vp9_sequence_start(
    out: &mut Vec<u8>,
    timestamp_ms: u32,
    config_record: &[u8],
) -> (r: Result<u32, Error>)
    ensures
        tagged(
            old(out)@,
            final(out)@,
            r,
            emit_ex_video_tag(
                timestamp_ms,
                video_of(ExFrameType::KeyFrame, ExPacketType::SequenceStart, FOURCC_VP09, None),
                config_record@,
            ),
        ),
{
    let header = single_track_ex_video_header(
        ExFrameType::KeyFrame,
        ExPacketType::SequenceStart,
        FOURCC_VP09,
        None,
    );
    write_ex_video_tag(out, timestamp_ms, &header, config_record)
}

/// Appends a tag with frames of a VP9 track.
pub fn write_vp9_coded_frames(
    out: &mut Vec<u8>,
    timestamp_ms: u32,
    is_keyframe: bool,
    payload: &[u8],
) -> (r: Result<u32, Error>)
    ensures
        tagged(
            old(out)@,
            final(out)@,
            r,
            emit_ex_video_tag(
                timestamp_ms,
                video_of(key_or_inter(is_keyframe), ExPacketType::CodedFrames, FOURCC_VP09, None),
                payload@,
            ),
        ),
{
    let header = single_track_ex_video_header(
        key_or_inter_frame(is_keyframe),
        ExPacketType::CodedFrames,
        FOURCC_VP09,
        None,
    );
    write_ex_video_tag(out, timestamp_ms, &header, payload)
}

/// Appends a tag with the configuration of an HEVC track.
pub fn write_hevc_sequence_start(
    out: &mut Vec<u8>,
    timestamp_ms: u32,
    config_record: &[u8],
) -> (r: Result<u32, Error>)
    ensures
        tagged(
            old(out)@,
            final(out)@,
            r,
            emit_ex_video_tag(
                timestamp_ms,
                video_of(ExFrameType::KeyFrame, ExPacketType::SequenceStart, FOURCC_HVC1, None),
                config_record@,
            ),
        ),
{
    let header = single_track_ex_video_header(
        ExFrameType::KeyFrame,
        ExPacketType::SequenceStart,
        FOURCC_HVC1,
        None,
    );
    write_ex_video_tag(out, timestamp_ms, &header, config_record)
}

/// Appends a tag with frames of an HEVC track and their composition time.
pub fn write_hevc_coded_frames(
    out: &mut Vec<u8>,
    timestamp_ms: u32,
    is_keyframe: bool,
    composition_time_offset_ms: i32,
    payload: &[u8],
) -> (r: Result<u32, Error>)
    ensures
        tagged(
            old(out)@,
            final(out)@,
            r,
            emit_ex_video_tag(
                timestamp_ms,
                video_of(key_or_inter(is_keyframe), ExPacketType::CodedFrames, FOURCC_HVC1, Some(composition_time_offset_ms)),
                payload@,
            ),
        ),
{
    let header = single_track_ex_video_header(
        key_or_inter_frame(is_keyframe),
        ExPacketType::CodedFrames,
        FOURCC_HVC1,
        Some(composition_time_offset_ms),
    );
    write_ex_video_tag(out, timestamp_ms, &header, payload)
}

/// Appends a tag with frames of an HEVC track whose composition time is zero.
pub fn write_hevc_coded_frames_x(
    out: &mut Vec<u8>,
    timestamp_ms: u32,
    is_keyframe: bool,
    payload: &[u8],
) -> (r: Result<u32, Error>)
    ensures
        tagged(
            old(out)@,
            final(out)@,
            r,
            emit_ex_video_tag(
                timestamp_ms,
                video_of(key_or_inter(is_keyframe), ExPacketType::CodedFramesX, FOURCC_HVC1, None),
                payload@,
            ),
        ),
{
    let header = single_track_ex_video_header(
        key_or_inter_frame(is_keyframe),
        ExPacketType::CodedFramesX,
        FOURCC_HVC1,
        None,
    );
    write_ex_video_tag(out, timestamp_ms, &header, payload)
}

/// Appends a tag with the configuration of a VVC track.
pub fn write_vvc_sequence_start(
    out: &mut Vec<u8>,
    timestamp_ms: u32,
    config_record: &[u8],
) -> (r: Result<u32, Error>)
    ensures
        tagged(
            old(out)@,
            final(out)@,
            r,
            emit_ex_video_tag(
                timestamp_ms,
                video_of(ExFrameType::KeyFrame, ExPacketType::SequenceStart, FOURCC_VVC1, None),
                config_record@,
            ),
        ),
{
    let header = single_track_ex_video_header(
        ExFrameType::KeyFrame,
        ExPacketType::SequenceStart,
        FOURCC_VVC1,
        None,
    );
    write_ex_video_tag(out, timestamp_ms, &header, config_record)
}

/// Appends a tag with frames of a VVC track and their composition time.
pub fn write_vvc_coded_frames(
    out: &mut Vec<u8>,
    timestamp_ms: u32,
    is_keyframe: bool,
    composition_time_offset_ms: i32,
    payload: &[u8],
) -> (r: Result<u32, Error>)
    ensures
        tagged(
            old(out)@,
            final(out)@,
            r,
            emit_ex_video_tag(
                timestamp_ms,
                video_of(key_or_inter(is_keyframe), ExPacketType::CodedFrames, FOURCC_VVC1, Some(composition_time_offset_ms)),
                payload@,
            ),
        ),
{
    let header = single_track_ex_video_header(
        key_or_inter_frame(is_keyframe),
        ExPacketType::CodedFrames,
        FOURCC_VVC1,
        Some(composition_time_offset_ms),
    );
    write_ex_video_tag(out, timestamp_ms, &header, payload)
}

/// Appends the tag that ends a video track.
pub fn write_ex_video_sequence_end(
    out: &mut Vec<u8>,
    timestamp_ms: u32,
    fourcc: u32,
) -> (r: Result<u32, Error>)
    ensures
        tagged(
            old(out)@,
            final(out)@,
            r,
            emit_ex_video_tag(
                timestamp_ms,
                video_of(ExFrameType::KeyFrame, ExPacketType::SequenceEnd, fourcc, None),
                Seq::empty(),
            ),
        ),
{
    let header = single_track_ex_video_header(
        ExFrameType::KeyFrame,
        ExPacketType::SequenceEnd,
        fourcc,
        None,
    );
    write_ex_video_tag(out, timestamp_ms, &header, &[])
}

/// Appends a tag with metadata of a video track: AMF0 names and values.
pub fn write_ex_video_metadata(
    out: &mut Vec<u8>,
    timestamp_ms: u32,
    fourcc: u32,
    amf_payload: &[u8],
) -> (r: Result<u32, Error>)
    ensures
        tagged(
            old(out)@,
            final(out)@,
            r,
            emit_ex_video_tag(
                timestamp_ms,
                video_of(ExFrameType::KeyFrame, ExPacketType::Metadata, fourcc, None),
                amf_payload@,
            ),
        ),
{
    let header = single_track_ex_video_header(
        ExFrameType::KeyFrame,
        ExPacketType::Metadata,
        fourcc,
        None,
    );
    write_ex_video_tag(out, timestamp_ms, &header, amf_payload)
}

/// Appends a tag with the configuration of an Opus track.
pub fn write_opus_sequence_start(
    out: &mut Vec<u8>,
    timestamp_ms: u32,
    opus_head: &[u8],
) -> (r: Result<u32, Error>)
    ensures
        tagged(
            old(out)@,
            final(out)@,
            r,
            emit_ex_audio_tag(
                timestamp_ms,
                audio_of(ExAudioPacketType::SequenceStart, FOURCC_OPUS),
                opus_head@,
            ),
        ),
{
    let header = single_track_ex_audio_header(ExAudioPacketType::SequenceStart, FOURCC_OPUS);
    write_ex_audio_tag(out, timestamp_ms, &header, opus_head)
}

/// Appends a tag with a packet of an Opus track.
pub fn write_opus_coded_frames(
    out: &mut Vec<u8>,
    timestamp_ms: u32,
    packet: &[u8],
) -> (r: Result<u32, Error>)
    ensures
        tagged(
            old(out)@,
            final(out)@,
            r,
            emit_ex_audio_tag(
                timestamp_ms,
                audio_of(ExAudioPacketType::CodedFrames, FOURCC_OPUS),
                packet@,
            ),
        ),
{
    let header = single_track_ex_audio_header(ExAudioPacketType::CodedFrames, FOURCC_OPUS);
    write_ex_audio_tag(out, timestamp_ms, &header, packet)
}

/// Appends a tag with the configuration of a FLAC track.
pub fn write_flac_sequence_start(
    out: &mut Vec<u8>,
    timestamp_ms: u32,
    flac_marker_and_streaminfo: &[u8],
) -> (r: Result<u32, Error>)
    ensures
        tagged(
            old(out)@,
            final(out)@,
            r,
            emit_ex_audio_tag(
                timestamp_ms,
                audio_of(ExAudioPacketType::SequenceStart, FOURCC_FLAC),
                flac_marker_and_streaminfo@,
            ),
        ),
{
    let header = single_track_ex_audio_header(ExAudioPacketType::SequenceStart, FOURCC_FLAC);
    write_ex_audio_tag(out, timestamp_ms, &header, flac_marker_and_streaminfo)
}

/// Appends a tag with a frame of a FLAC track.
pub fn write_flac_coded_frames(
    out: &mut Vec<u8>,
    timestamp_ms: u32,
    flac_frame: &[u8],
) -> (r: Result<u32, Error>)
    ensures
        tagged(
            old(out)@,
            final(out)@,
            r,
            emit_ex_audio_tag(
                timestamp_ms,
                audio_of(ExAudioPacketType::CodedFrames, FOURCC_FLAC),
                flac_frame@,
            ),
        ),
{
    let header = single_track_ex_audio_header(ExAudioPacketType::CodedFrames, FOURCC_FLAC);
    write_ex_audio_tag(out, timestamp_ms, &header, flac_frame)
}

/// Appends a tag with a frame of an AC-3 track.
pub fn write_ac3_coded_frames(
    out: &mut Vec<u8>,
    timestamp_ms: u32,
    ac3_sync_frame: &[u8],
) -> (r: Result<u32, Error>)
    ensures
        tagged(
            old(out)@,
            final(out)@,
            r,
            emit_ex_audio_tag(
                timestamp_ms,
                audio_of(ExAudioPacketType::CodedFrames, FOURCC_AC3),
                ac3_sync_frame@,
            ),
        ),
{
    let header = single_track_ex_audio_header(ExAudioPacketType::CodedFrames, FOURCC_AC3);
    write_ex_audio_tag(out, timestamp_ms, &header, ac3_sync_frame)
}

/// Appends a tag with a frame of an E-AC-3 track.
pub fn write_eac3_coded_frames(
    out: &mut Vec<u8>,
    timestamp_ms: u32,
    eac3_sync_frame: &[u8],
) -> (r: Result<u32, Error>)
    ensures
        tagged(
            old(out)@,
            final(out)@,
            r,
            emit_ex_audio_tag(
                timestamp_ms,
                audio_of(ExAudioPacketType::CodedFrames, FOURCC_EAC3),
                eac3_sync_frame@,
            ),
        ),
{
    let header = single_track_ex_audio_header(ExAudioPacketType::CodedFrames, FOURCC_EAC3);
    write_ex_audio_tag(out, timestamp_ms, &header, eac3_sync_frame)
}

/// Appends a tag with a frame of an MP3 track that is named by its FourCC.
pub fn write_mp3_ex_coded_frames(
    out: &mut Vec<u8>,
    timestamp_ms: u32,
    mp3_frame: &[u8],
) -> (r: Result<u32, Error>)
    ensures
        tagged(
            old(out)@,
            final(out)@,
            r,
            emit_ex_audio_tag(
                timestamp_ms,
                audio_of(ExAudioPacketType::CodedFrames, FOURCC_MP3),
                mp3_frame@,
            ),
        ),
{
    let header = single_track_ex_audio_header(ExAudioPacketType::CodedFrames, FOURCC_MP3);
    write_ex_audio_tag(out, timestamp_ms, &header, mp3_frame)
}

/// Appends a tag with the configuration of an AAC track that is named by its FourCC.
pub fn write_aac_ex_sequence_start(
    out: &mut Vec<u8>,
    timestamp_ms: u32,
    audio_specific_config: &[u8],
) -> (r: Result<u32, Error>)
    ensures
        tagged(
            old(out)@,
            final(out)@,
            r,
            emit_ex_audio_tag(
                timestamp_ms,
                audio_of(ExAudioPacketType::SequenceStart, FOURCC_AAC),
                audio_specific_config@,
            ),
        ),
{
    let header = single_track_ex_audio_header(ExAudioPacketType::SequenceStart, FOURCC_AAC);
    write_ex_audio_tag(out, timestamp_ms, &header, audio_specific_config)
}

/// Appends a tag with a frame of an AAC track that is named by its FourCC.
pub fn write_aac_ex_coded_frames(
    out: &mut Vec<u8>,
    timestamp_ms: u32,
    raw_au: &[u8],
) -> (r: Result<u32, Error>)
    ensures
        tagged(
            old(out)@,
            final(out)@,
            r,
            emit_ex_audio_tag(
                timestamp_ms,
                audio_of(ExAudioPacketType::CodedFrames, FOURCC_AAC),
                raw_au@,
            ),
        ),
{
    let header = single_track_ex_audio_header(ExAudioPacketType::CodedFrames, FOURCC_AAC);
    write_ex_audio_tag(out, timestamp_ms, &header, raw_au)
}

/// Appends the tag that ends an audio track.
pub fn write_ex_audio_sequence_end(
    out: &mut Vec<u8>,
    timestamp_ms: u32,
    fourcc: u32,
) -> (r: Result<u32, Error>)
    ensures
        tagged(
            old(out)@,
            final(out)@,
            r,
            emit_ex_audio_tag(
                timestamp_ms,
                audio_of(ExAudioPacketType::SequenceEnd, fourcc),
                Seq::empty(),
            ),
        ),
{
    let header = single_track_ex_audio_header(ExAudioPacketType::SequenceEnd, fourcc);
    write_ex_audio_tag(out, timestamp_ms, &header, &[])
}

/// Appends an audio tag that says how the channels of a track relate to speakers. Where something
/// is wrong with the configuration, nothing is written.
pub fn write_ex_audio_multichannel_config(
    out: &mut Vec<u8>,
    timestamp_ms: u32,
    fourcc: u32,
    config: &MultichannelConfig,
) -> (r: Result<u32, Error>)
    ensures
        tagged(
            old(out)@,
            final(out)@,
            r,
            emit_multichannel_tag(timestamp_ms, fourcc, config@),
        ),
{
    let header = single_track_ex_audio_header(ExAudioPacketType::MultichannelConfig, fourcc);
    let mut payload: Vec<u8> = Vec::new();
    let checked = config.to_bytes(&mut payload);
    assert(payload@ =~= emit_config(config@).bytes);
    if let Err(e) = checked {
        assert(out@ =~= old(out)@ + Seq::<u8>::empty());
        return Err(e);
    }
    write_ex_audio_tag(out, timestamp_ms, &header, payload.as_slice())
}

/// An audio tag with a channel configuration.
pub open spec fn emit_multichannel_tag(timestamp_ms: u32, fourcc: u32, config: Channels) -> Emit {
    match emit_config(config).fault {
        Some(f) => Emit::stop(f),
        None => emit_ex_audio_tag(
            timestamp_ms,
            audio_of(ExAudioPacketType::MultichannelConfig, fourcc),
            emit_config(config).bytes,
        ),
    }
}

} // verus!

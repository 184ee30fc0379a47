//! What each kind of tag that was written gives when it is taken apart.
use vstd::prelude::*;
use crate::amf0::laws::number_items;
use crate::amf0::AmfTree;
use crate::color_info::{color_fault, color_object, emit_color, emit_reset, ColorInfo};
use crate::demuxer::entries::{flat, truth, Leaf};
use crate::demuxer::facts::{
    all_finite, all_positions, ascending, call, class_entry, keyframes, last_array, live_text, next_cue, numbers,
    position, positions, properties, property, script, shown_name, sound, Facts, Toc,
};
use crate::demuxer::harvest::{
    audio_noted, layout, named_values, noted, noted_all, speakers_in, video_noted, without,
};
use crate::demuxer::laws::{all_fit, file, law_open_written, see_units, Unit};
use crate::demuxer::packet::{
    audio_flags, audio_frame, audio_packet, audio_part, command_packet, video_flags, video_frame,
    video_part, Frame,
};
use crate::demuxer::stream::picture;
use crate::demuxer::discover::{complete, see, Scan, MAX_DISCOVERY_TAGS};
use crate::demuxer::seek::{place, sought, Landing};
use crate::demuxer::{opened, Reader};
use crate::demuxer::session::told_by;
use crate::demuxer::tracks::{law_joined_is_listed, listed, sent, tag_tracks};
use crate::double::{lemma_of_int_bound, lemma_trunc_of_int, Double};
use crate::error::{Error, Fault};
use crate::ex_audio::{ExAudio, ExAudioPacketType};
use crate::ex_video::{bits24, canonical, signed24, ExFrameType, ExPacketType, ExVideo};
use crate::multichannel::{config_fault, emit_config, Channels};
use crate::multitrack::{join, AvMultitrackType, Part};
use crate::script::meta::{emit_meta, emit_properties, keyframes_fault, law_keyframes_are_checked, tree, trees, Meta};
use crate::script::{cue_object, emit_script, xmp_object, CuePoint};
use crate::tag::ex::{audio_of, video_of};
use crate::tag::{
    audio_codec_name, avc_prefix, frame_header, video_codec_name, AudioTagHeader, FrameType, TagType,
    VideoInfoCommand, VideoTagHeader, AUDIO_CODEC_AAC, UI24_MAX, VIDEO_CODEC_H264, VIDEO_CODEC_VP6A,
};
use crate::text::decimal;
use crate::wire::{be24, lemma_be24_at};

verus! {

// ---- audio ------------------------------------------------------------------

/// An audio payload that was written comes back as it was, at its time; an empty one, as silence.
pub proof fn law_audio_comes_back(index: u32, ms: u32, h: AudioTagHeader, payload: Seq<u8>)
    requires
        h.codec_id < 16,
        h.sample_rate_idx < 4,
        h.codec_id != crate::ex_audio::SOUND_FORMAT_EX_HEADER,
        h.codec_id != AUDIO_CODEC_AAC,
    ensures
        audio_frame(index, ms, seq![h.code()] + payload) == Some(
            audio_packet(index, ms, payload.len() == 0, payload.len() == 0, payload),
        ),
{
    let body = seq![h.code()] + payload;
    crate::tag::law_audio_header_round_trip(h.code(), h);
    assert(body.skip(1) =~= payload);
    assert(AudioTagHeader::of(body[0]) == h);
}

/// A raw AAC frame that was written comes back as it was, and a configuration as a header.
pub proof fn law_aac_comes_back(index: u32, ms: u32, packet_type: u8, data: Seq<u8>)
    requires
        packet_type <= 1,
    ensures
        audio_frame(index, ms, seq![AudioTagHeader::of(0xaf).code()] + (seq![packet_type] + data))
            == Some(audio_packet(index, ms, packet_type == 0, false, data)),
{
    let code = AudioTagHeader::of(0xaf).code();
    let body = seq![code] + (seq![packet_type] + data);
    crate::tag::law_audio_header_round_trip(0xaf, AudioTagHeader::of(0xaf));
    assert(body[0] == 0xaf && body[1] == packet_type);
    assert(body.skip(2) =~= data);
}

/// The payload of an audio tag with a FourCC that was written comes back as it was; the end of a
/// sequence gives no packet.
pub proof fn law_ex_audio_comes_back(index: u32, ms: u32, h: ExAudio, payload: Seq<u8>)
    requires
        crate::ex_audio::emit_header(h).fault is None,
        h.packet_type == ExAudioPacketType::of(h.packet_type.code()),
    ensures
        ({
            let body = crate::ex_audio::emit_header(h).bytes + payload;
            audio_frame(index, ms, body) == (match audio_flags(h.packet_type) {
                Some((header, discard)) => Some(audio_packet(index, ms, header, discard, payload)),
                None => None::<Frame>,
            })
        }),
        ({
            let body = crate::ex_audio::emit_header(h).bytes + payload;
            crate::ex_audio::header(body) matches Ok(Some(x)) && audio_part(x, body) == (
                h.packet_type,
                payload,
            )
        }),
{
    let head = crate::ex_audio::emit_header(h).bytes;
    let body = head + payload;
    crate::ex_audio::law_read_write(h, payload);
    assert(body.skip(head.len() as int) =~= payload);
}

// ---- video ------------------------------------------------------------------

/// A video payload that was written comes back as it was, at its time.
pub proof fn law_video_comes_back(index: u32, ms: u32, is_keyframe: bool, codec_id: u8, payload: Seq<u8>)
    requires
        codec_id < 16,
        codec_id != VIDEO_CODEC_H264,
        codec_id != VIDEO_CODEC_VP6A,
    ensures
        video_frame(index, ms, seq![frame_header(is_keyframe, codec_id).code()] + payload) == Some(
            Frame {
                stream_index: index,
                pts: ms as int,
                dts: ms as int,
                keyframe: is_keyframe,
                header: false,
                discard: false,
                data: payload,
            },
        ),
{
    let h = frame_header(is_keyframe, codec_id);
    let body = seq![h.code()] + payload;
    crate::tag::law_video_header_round_trip(h.code(), h);
    assert(body.skip(1) =~= payload);
}

/// A frame with an alpha channel that was written comes back without the byte that says where
/// the channel is.
pub proof fn law_vp6a_comes_back(
    index: u32,
    ms: u32,
    is_keyframe: bool,
    alpha_offset: u8,
    frame: Seq<u8>,
)
    ensures
        video_frame(
            index,
            ms,
            seq![frame_header(is_keyframe, VIDEO_CODEC_VP6A).code()] + (seq![alpha_offset] + frame),
        ) == Some(
            Frame {
                stream_index: index,
                pts: ms as int,
                dts: ms as int,
                keyframe: is_keyframe,
                header: false,
                discard: false,
                data: frame,
            },
        ),
{
    let h = frame_header(is_keyframe, VIDEO_CODEC_VP6A);
    let body = seq![h.code()] + (seq![alpha_offset] + frame);
    crate::tag::law_video_header_round_trip(h.code(), h);
    assert(body.skip(2) =~= frame);
}

/// A configuration of H.264 that was written comes back as a header; a frame, as a frame that is
/// shown by its composition time later than decoded.
pub proof fn law_avc_comes_back(
    index: u32,
    ms: u32,
    is_keyframe: bool,
    packet_type: u8,
    time: i32,
    data: Seq<u8>,
)
    requires
        packet_type <= 1,
        -0x80_0000 <= time < 0x80_0000,
        packet_type == 0 ==> time == 0,
    ensures
        video_frame(
            index,
            ms,
            seq![frame_header(is_keyframe, VIDEO_CODEC_H264).code()] + (avc_prefix(packet_type, time)
                + data),
        ) == Some(
            Frame {
                stream_index: index,
                pts: ms + time,
                dts: ms as int,
                keyframe: is_keyframe,
                header: packet_type == 0,
                discard: false,
                data,
            },
        ),
{
    let h = frame_header(is_keyframe, VIDEO_CODEC_H264);
    let first = seq![h.code(), packet_type];
    let body = seq![h.code()] + (avc_prefix(packet_type, time) + data);
    crate::tag::law_video_header_round_trip(h.code(), h);
    assert(body =~= first + (be24(bits24(time)) + data));
    assert(body.subrange(2, 5) =~= be24(bits24(time)));
    lemma_be24_at(body, 2, bits24(time));
    assert(signed24(bits24(time)) == time);
    assert(body.skip(5) =~= data);
}

/// The end of an H.264 track gives no packet.
pub proof fn law_avc_end_gives_none(index: u32, ms: u32)
    ensures
        video_frame(
            index,
            ms,
            seq![
                VideoTagHeader {
                    frame_type: FrameType::DisposableInter,
                    codec_id: VIDEO_CODEC_H264,
                }.code(),
            ] + avc_prefix(2, 0),
        ) is None,
{
    let h = VideoTagHeader { frame_type: FrameType::DisposableInter, codec_id: VIDEO_CODEC_H264 };
    crate::tag::law_video_header_round_trip(h.code(), h);
    let body = seq![h.code()] + avc_prefix(2, 0);
    assert(body[1] == 2);
}

/// A command that was written comes back as a packet of the command.
pub proof fn law_command_comes_back(index: u32, ms: u32, command: VideoInfoCommand)
    ensures
        video_frame(
            index,
            ms,
            seq![VideoTagHeader { frame_type: FrameType::VideoInfo, codec_id: 0 }.code()] + seq![
                command.code(),
            ],
        ) == Some(command_packet(index, ms, command.code())),
{
    let h = VideoTagHeader { frame_type: FrameType::VideoInfo, codec_id: 0 };
    crate::tag::law_video_header_round_trip(h.code(), h);
    let body = seq![h.code()] + seq![command.code()];
    assert(body[1] == command.code());
}

/// The packet of a video tag of one track with a FourCC, by its payload.
pub open spec fn one_track_frame(index: u32, ms: u32, h: ExVideo, payload: Seq<u8>) -> Option<Frame> {
    if h.packet_type is SequenceEnd {
        None
    } else {
        match h.video_command {
            Some(c) => Some(command_packet(index, ms, c.code())),
            None => Some(
                Frame {
                    stream_index: index,
                    pts: ms + (match h.composition_time_offset_ms {
                        Some(t) => t as int,
                        None => 0,
                    }),
                    dts: ms as int,
                    keyframe: h.frame_type is KeyFrame || h.frame_type is GeneratedKeyFrame,
                    header: video_flags(h.packet_type).0,
                    discard: video_flags(h.packet_type).1,
                    data: payload,
                },
            ),
        }
    }
}

proof fn lemma_one_track(index: u32, ms: u32, h: ExVideo, head: Seq<u8>, payload: Seq<u8>, x: ExVideo)
    requires
        h.multitrack is None,
        x == (ExVideo { bytes_consumed: head.len() as int, ..h }),
        crate::ex_video::header(head + payload) == Ok::<Option<ExVideo>, Fault>(Some(x)),
        head.len() > 0,
    ensures
        video_frame(index, ms, head + payload) == one_track_frame(index, ms, h, payload),
        video_part(x, head + payload).0 == h.packet_type,
        video_part(x, head + payload).2 == payload,
{
    assert((head + payload).skip(head.len() as int) =~= payload);
}

proof fn lemma_header_is_not_empty(h: ExVideo)
    ensures
        crate::ex_video::emit_header(h).fault is None ==> crate::ex_video::emit_header(
            h,
        ).bytes.len() > 0,
{
    assert(crate::ex_video::emit_lead(h).fault is None ==> crate::ex_video::emit_lead(
        h,
    ).bytes.len() > 0);
}

/// The payload of a video tag of one track with a FourCC that was written comes back as it was,
/// shown by its composition time later than decoded; the end of a sequence gives no packet, and
/// a command frame the command.
pub proof fn law_ex_video_comes_back(index: u32, ms: u32, h: ExVideo, payload: Seq<u8>)
    requires
        canonical(h),
        crate::ex_video::emit_header(h).fault is None,
        h.multitrack is None,
    ensures
        video_frame(index, ms, crate::ex_video::emit_header(h).bytes + payload) == one_track_frame(
            index,
            ms,
            h,
            payload,
        ),
        ({
            let body = crate::ex_video::emit_header(h).bytes + payload;
            crate::ex_video::header(body) matches Ok(Some(x)) && video_part(x, body).0
                == h.packet_type && video_part(x, body).2 == payload
        }),
{
    let head = crate::ex_video::emit_header(h).bytes;
    let x = ExVideo { bytes_consumed: head.len() as int, ..h };
    assert(crate::ex_video::header(head + payload) == Ok::<Option<ExVideo>, Fault>(Some(x))) by {
        crate::ex_video::law_read_write(h, payload);
    }
    lemma_header_is_not_empty(h);
    lemma_one_track(index, ms, h, head, payload, x);
}

proof fn lemma_tracks_behind(h: ExVideo, head: Seq<u8>, payload: Seq<u8>, layout: AvMultitrackType)
    requires
        h.multitrack == Some(layout),
        h.bytes_consumed == head.len(),
        crate::ex_video::header(head + payload) == Ok::<Option<ExVideo>, Fault>(Some(h)),
    ensures
        tag_tracks(head + payload, true) == Some(listed(layout, h.fourcc, payload, true)),
{
    assert((head + payload).skip(head.len() as int) =~= payload);
}

/// Tracks that were written behind a header of several are all listed, in order: each with its
/// id, its bytes, the codec that the layout gives it, and the name of the codec.
pub proof fn law_tracks_come_back(h: ExVideo, layout: AvMultitrackType, parts: Seq<Part>)
    requires
        canonical(h),
        crate::ex_video::emit_header(h).fault is None,
        h.multitrack == Some(layout),
        join(layout, parts) is Ok,
    ensures
        tag_tracks(crate::ex_video::emit_header(h).bytes + join(layout, parts)->Ok_0, true) == Some(
            sent(layout, h.fourcc, parts, true),
        ),
{
    let head = crate::ex_video::emit_header(h).bytes;
    let payload = join(layout, parts)->Ok_0;
    let x = ExVideo { bytes_consumed: head.len() as int, ..h };
    assert(crate::ex_video::header(head + payload) == Ok::<Option<ExVideo>, Fault>(Some(x))) by {
        crate::ex_video::law_read_write(h, payload);
    }
    lemma_tracks_behind(x, head, payload, layout);
    law_joined_is_listed(layout, h.fourcc, parts, true);
}

// ---- colours and speakers ---------------------------------------------------

/// The header of a metadata packet can be written.
proof fn lemma_metadata_header(fourcc: u32)
    ensures
        ({
            let h = video_of(ExFrameType::KeyFrame, ExPacketType::Metadata, fourcc, None);
            canonical(h) && crate::ex_video::emit_header(h).fault is None
        }),
{
    let h = video_of(ExFrameType::KeyFrame, ExPacketType::Metadata, fourcc, None);
    assert(crate::mod_ex::offset_sum(h.mod_ex_entries) == 0);
}

proof fn lemma_one_named(data: Seq<u8>, name: Seq<char>, v: AmfTree, mid: int)
    requires
        crate::amf0::decode::value(data, 0) == Ok::<(AmfTree, int), Fault>(
            (AmfTree::String(name), mid),
        ),
        crate::amf0::decode::value(data, mid) == Ok::<(AmfTree, int), Fault>(
            (v, data.len() as int),
        ),
    ensures
        named_values(data, 0) == seq![(name, v)],
{
    assert(named_values(data, data.len() as int) == Seq::<(Seq<char>, AmfTree)>::empty()) by {
        assert(crate::amf0::decode::value(data, data.len() as int) is Err);
    }
    assert(named_values(data, 0) =~= seq![(name, v)] + named_values(data, data.len() as int));
}

/// The colours in a tag that was written take the place of those before: every number that was
/// given, under its name.
pub proof fn law_colors_come_back(s: Seq<(Seq<char>, Leaf)>, fourcc: u32, ci: ColorInfo)
    requires
        color_fault(ci) is None,
    ensures
        ({
            let h = video_of(ExFrameType::KeyFrame, ExPacketType::Metadata, fourcc, None);
            let body = crate::ex_video::emit_header(h).bytes + emit_color(ci).bytes;
            video_noted(s, body) == noted(s, "colorInfo"@, tree(color_object(ci)))
        }),
{
    let h = video_of(ExFrameType::KeyFrame, ExPacketType::Metadata, fourcc, None);
    let data = emit_color(ci).bytes;
    lemma_metadata_header(fourcc);
    law_ex_video_comes_back(0, 0, h, data);
    crate::color_info::law_read_write(ci, Seq::empty());
    assert(data + Seq::<u8>::empty() =~= data);
    let mid = crate::amf0::encode::emit_string("colorInfo"@).bytes.len() as int;
    let v = tree(color_object(ci));
    lemma_one_named(data, "colorInfo"@, v, mid);
    let one = seq![("colorInfo"@, v)];
    assert(one.drop_first() =~= Seq::empty());
    assert(noted_all(noted(s, "colorInfo"@, v), one.drop_first()) == noted(s, "colorInfo"@, v));
}

/// A reset that was written drops the colours before, and leaves a sign of it.
pub proof fn law_color_reset_comes_back(s: Seq<(Seq<char>, Leaf)>, fourcc: u32)
    ensures
        ({
            let h = video_of(ExFrameType::KeyFrame, ExPacketType::Metadata, fourcc, None);
            let body = crate::ex_video::emit_header(h).bytes + emit_reset().bytes;
            let key = crate::text::lower("colorInfo"@);
            video_noted(s, body) == without(s, key).push((key, Leaf::Text("undefined"@)))
        }),
{
    let h = video_of(ExFrameType::KeyFrame, ExPacketType::Metadata, fourcc, None);
    let data = emit_reset().bytes;
    lemma_metadata_header(fourcc);
    law_ex_video_comes_back(0, 0, h, data);
    crate::color_info::law_read_reset(Seq::empty());
    assert(data + Seq::<u8>::empty() =~= data);
    let mid = crate::amf0::encode::emit_string("colorInfo"@).bytes.len() as int;
    lemma_one_named(data, "colorInfo"@, AmfTree::Undefined, mid);
    let one = seq![("colorInfo"@, AmfTree::Undefined)];
    assert(one.drop_first() =~= Seq::empty());
    let n = noted(s, "colorInfo"@, AmfTree::Undefined);
    assert(noted_all(n, one.drop_first()) == n);
    let key = crate::text::lower("colorInfo"@);
    assert(n =~= without(s, key).push((key, Leaf::Text("undefined"@))));
}

/// The configuration of speakers in a tag that was written takes the place of the one before.
pub proof fn law_speakers_come_back(s: Seq<(Seq<char>, Leaf)>, fourcc: u32, c: Channels)
    requires
        config_fault(c) is None,
        crate::multichannel::canonical(c),
    ensures
        ({
            let h = audio_of(ExAudioPacketType::MultichannelConfig, fourcc);
            let body = crate::ex_audio::emit_header(h).bytes + emit_config(c).bytes;
            &&& speakers_in(body) == Some(c)
            &&& audio_noted(s, body) == without(s, "multichannelconfig"@) + layout(c)
        }),
{
    let h = audio_of(ExAudioPacketType::MultichannelConfig, fourcc);
    let data = emit_config(c).bytes;
    law_ex_audio_comes_back(0, 0, h, data);
    crate::multichannel::law_read_write(c, Seq::empty());
    assert(data + Seq::<u8>::empty() =~= data);
}

// ---- script tags ------------------------------------------------------------

/// A script tag that was written calls its name with its value.
pub proof fn law_script_comes_back(f: Facts, name: Seq<char>, v: Meta)
    requires
        emit_script(name, v).fault is None,
    ensures
        script(f, emit_script(name, v).bytes) == call(f, name, tree(v)),
{
    crate::script::law_read_write(name, v);
}

/// A table of keyframes that can be written comes back as it was.
pub proof fn law_keyframes_come_back(file_positions: Seq<u64>, times_seconds: Seq<Double>)
    requires
        keyframes_fault(file_positions, times_seconds) is None,
    ensures
        keyframes(tree(Meta::Keyframes { file_positions, times_seconds })) == Some(
            Toc { positions: file_positions, times: times_seconds },
        ),
{
    law_keyframes_are_checked(file_positions, times_seconds);
    reveal_strlit("filepositions");
    reveal_strlit("times");
    assert("times"@.len() != "filepositions"@.len());
    let s = crate::script::meta::keyframes_tree(file_positions, times_seconds);
    let p = number_items(crate::script::meta::numbers(file_positions));
    let t = number_items(times_seconds);
    assert forall|i: int| 0 <= i < p.len() implies (#[trigger] p[i] matches AmfTree::Number(n)
        && n.finite() && position(n) == Some(file_positions[i])) by {
        lemma_of_int_bound(file_positions[i] as nat);
        lemma_trunc_of_int(file_positions[i] as nat);
    }
    assert(all_finite(p) && all_positions(p) && all_finite(t));
    assert(s[0] == ("filepositions"@, AmfTree::StrictArray(p)));
    assert(s[1] == ("times"@, AmfTree::StrictArray(t)));
    assert(sound(s[0].0, s[0].1) && sound(s[1].0, s[1].1));
    assert(s.last() == s[1]);
    assert(s.drop_last().last() == s[0]);
    assert(last_array(s.drop_last(), "filepositions"@) == Some(p));
    assert(last_array(s, "filepositions"@) == Some(p));
    assert(last_array(s, "times"@) == Some(t));
    assert(positions(p) =~= file_positions);
    assert(numbers(t) =~= times_seconds);
    assert(ascending(numbers(t)));
}

/// An XMP packet that was written comes back as it was.
pub proof fn law_xmp_comes_back(f: Facts, live_xml: Seq<char>)
    requires
        emit_script("onXMPData"@, xmp_object(live_xml)).fault is None,
    ensures
        script(f, emit_script("onXMPData"@, xmp_object(live_xml)).bytes) == (Facts {
            xmp: Some(live_xml),
            ..f
        }),
{
    law_script_comes_back(f, "onXMPData"@, xmp_object(live_xml));
    reveal_strlit("onXMPData");
    reveal_strlit("onMetaData");
    assert("onXMPData"@.len() != "onMetaData"@.len());
    let s = trees(seq![("liveXML"@, Meta::String(live_xml))]);
    assert(s[0] == ("liveXML"@, AmfTree::String(live_xml)));
    assert(live_text(s) == Some(live_xml));
}

/// A cue point that was written comes back under the next number.
pub proof fn law_cue_point_comes_back(f: Facts, c: CuePoint)
    requires
        emit_script("onCuePoint"@, cue_object(c)).fault is None,
    ensures
        script(f, emit_script("onCuePoint"@, cue_object(c)).bytes) == f.with(
            flat(tree(cue_object(c)), "cuepoint."@ + decimal(next_cue(f.entries))),
        ),
{
    law_script_comes_back(f, "onCuePoint"@, cue_object(c));
    reveal_strlit("onCuePoint");
    reveal_strlit("onXMPData");
    reveal_strlit("onMetaData");
    assert("onCuePoint"@[2] != "onMetaData"@[2]);
    assert("onCuePoint"@.len() != "onXMPData"@.len());
}

/// Properties keep the entries before them.
proof fn lemma_properties_keep(f: Facts, s: Seq<(Seq<char>, AmfTree)>, e: (Seq<char>, Leaf))
    requires
        f.entries.contains(e),
    ensures
        properties(f, s).entries.contains(e),
    decreases s.len(),
{
    if s.len() > 0 {
        let g = property(f, s[0].0, s[0].1);
        assert(g.entries.contains(e)) by {
            let i = choose|i: int| 0 <= i < f.entries.len() && f.entries[i] == e;
            assert(g.entries[i] == e);
        }
        lemma_properties_keep(g, s.drop_first(), e);
    }
}

/// Every property of the metadata stands among the entries, laid flat; only the table of
/// keyframes is kept apart.
pub proof fn law_properties_survive(
    f: Facts,
    s: Seq<(Seq<char>, AmfTree)>,
    i: int,
    e: (Seq<char>, Leaf),
)
    requires
        0 <= i < s.len(),
        !(s[i].0 == "keyframes"@ && (s[i].1 is Object || s[i].1 is EcmaArray)),
        flat(s[i].1, shown_name(s[i].0, s[i].1)).contains(e),
    ensures
        properties(f, s).entries.contains(e),
    decreases s.len(),
{
    let g = property(f, s[0].0, s[0].1);
    let rest = s.drop_first();
    if i == 0 {
        let laid = flat(s[0].1, shown_name(s[0].0, s[0].1));
        let j = choose|j: int| 0 <= j < laid.len() && laid[j] == e;
        assert(g.entries == f.entries + laid);
        assert(g.entries[f.entries.len() + j] == e);
        lemma_properties_keep(g, rest, e);
    } else {
        assert(rest[i - 1] == s[i]);
        law_properties_survive(g, rest, i - 1, e);
    }
}

/// A value that holds no others and was written as metadata stands among the entries under its
/// name.
pub proof fn law_scalars_survive(f: Facts, bag: Seq<(Seq<char>, Meta)>, i: int)
    requires
        emit_script("onMetaData"@, Meta::EcmaArray(bag)).fault is None,
        0 <= i < bag.len(),
    ensures
        ({
            let g = script(f, emit_script("onMetaData"@, Meta::EcmaArray(bag)).bytes);
            match bag[i].1 {
                Meta::Number(n) => g.entries.contains((bag[i].0, Leaf::Number(n))),
                Meta::Boolean(b) => g.entries.contains((bag[i].0, Leaf::Text(truth(b)))),
                Meta::String(t) => g.entries.contains((bag[i].0, Leaf::Text(t))),
                Meta::Date { time_ms, tz } => g.entries.contains(
                    (bag[i].0, Leaf::Date { time_ms, tz }),
                ),
                Meta::Null => g.entries.contains((bag[i].0, Leaf::Text("null"@))),
                Meta::Undefined => g.entries.contains((bag[i].0, Leaf::Text("undefined"@))),
                Meta::Xml(t) => g.entries.contains((bag[i].0, Leaf::Text(t))),
                _ => true,
            }
        }),
{
    law_metadata_comes_back(f, bag);
    let s = trees(bag);
    assert(s[i] == (bag[i].0, tree(bag[i].1)));
    let laid = flat(s[i].1, shown_name(s[i].0, s[i].1));
    let leaf = match bag[i].1 {
        Meta::Number(n) => Leaf::Number(n),
        Meta::Boolean(b) => Leaf::Text(truth(b)),
        Meta::String(t) => Leaf::Text(t),
        Meta::Date { time_ms, tz } => Leaf::Date { time_ms, tz },
        Meta::Null => Leaf::Text("null"@),
        Meta::Undefined => Leaf::Text("undefined"@),
        Meta::Xml(t) => Leaf::Text(t),
        _ => Leaf::Text(Seq::empty()),
    };
    if !(bag[i].1 is Keyframes || bag[i].1 is Object || bag[i].1 is EcmaArray
        || bag[i].1 is StrictArray) {
        assert(laid[0] == (bag[i].0, leaf));
        law_properties_survive(f, s, i, laid[0]);
    }
}

/// Metadata that was written is taken in property by property.
pub proof fn law_metadata_comes_back(f: Facts, bag: Seq<(Seq<char>, Meta)>)
    requires
        emit_script("onMetaData"@, Meta::EcmaArray(bag)).fault is None,
    ensures
        script(f, emit_script("onMetaData"@, Meta::EcmaArray(bag)).bytes) == properties(
            f,
            trees(bag),
        ),
{
    law_script_comes_back(f, "onMetaData"@, Meta::EcmaArray(bag));
    assert(f.with(Seq::empty()) =~= f);
}

/// A file of metadata alone can be opened, and says what was written.
pub proof fn law_metadata_file_opens(has_audio: bool, has_video: bool, bag: Seq<(Seq<char>, Meta)>)
    requires
        emit_script("onMetaData"@, Meta::EcmaArray(bag)).fault is None,
        emit_script("onMetaData"@, Meta::EcmaArray(bag)).bytes.len() <= UI24_MAX,
    ensures
        ({
            let body = emit_script("onMetaData"@, Meta::EcmaArray(bag)).bytes;
            let unit = Unit { kind: TagType::ScriptData, timestamp_ms: 0, body };
            let said = properties(Facts::none(), trees(bag));
            opened(file(has_audio, has_video, seq![unit])) matches Ok(r) && r.told.entries
                == said.entries && r.told.duration == said.duration && r.told.keyframes
                == said.keyframes && r.told.stream_count() == 0
        }),
{
    let body = emit_script("onMetaData"@, Meta::EcmaArray(bag)).bytes;
    let unit = Unit { kind: TagType::ScriptData, timestamp_ms: 0, body };
    let units = seq![unit];
    let said = properties(Facts::none(), trees(bag));
    let st = Scan { facts: said, script: true, ..Scan::none() };
    law_open_written(has_audio, has_video, units);
    assert(see(Scan::none(), unit.kind, unit.header(), unit.body) == Ok::<Scan, Error>(st)) by {
        reveal(see);
        law_metadata_comes_back(Facts::none(), bag);
    }
    assert(units.drop_first() =~= Seq::empty());
    assert(see_units(units.drop_first(), (MAX_DISCOVERY_TAGS - 1) as nat, st) == Ok::<Scan, Error>(
        st,
    ));
    assert(see_units(units, MAX_DISCOVERY_TAGS as nat, Scan::none()) == Ok::<Scan, Error>(st));
    lemma_properties_quiet(Facts::none(), trees(bag));
    assert(told_by(st).entries =~= said.entries);
}

/// Metadata says nothing of encryption and XMP.
proof fn lemma_properties_quiet(f: Facts, s: Seq<(Seq<char>, AmfTree)>)
    ensures
        properties(f, s).encryption == f.encryption,
        properties(f, s).xmp == f.xmp,
    decreases s.len(),
{
    if s.len() > 0 {
        lemma_properties_quiet(property(f, s[0].0, s[0].1), s.drop_first());
    }
}

// ---- streams ----------------------------------------------------------------

/// The stream of audio that was written has the codec that its tags name.
pub proof fn law_audio_stream_comes_back(
    h: AudioTagHeader,
    payload: Seq<u8>,
    s: Seq<(Seq<char>, Leaf)>,
    readings: Seq<Option<Double>>,
)
    requires
        h.codec_id < 16,
        h.sample_rate_idx < 4,
        h.codec_id != crate::ex_audio::SOUND_FORMAT_EX_HEADER,
    ensures
        crate::demuxer::stream::sound(seq![h.code()] + payload, s, readings, None) matches Ok(d)
            && d.codec == audio_codec_name(h.codec_id) && (h.codec_id == AUDIO_CODEC_AAC
            && payload.len() > 0 && payload[0] == 0 ==> d.extradata == payload.skip(1)),
{
    let body = seq![h.code()] + payload;
    crate::tag::law_audio_header_round_trip(h.code(), h);
    assert(AudioTagHeader::of(body[0]) == h);
    if payload.len() > 0 {
        assert(body.skip(2) =~= payload.skip(1));
    }
}

/// The stream of audio with a FourCC that was written has its codec, and is set up by the
/// configuration that was written.
pub proof fn law_ex_audio_stream_comes_back(
    h: ExAudio,
    payload: Seq<u8>,
    s: Seq<(Seq<char>, Leaf)>,
    readings: Seq<Option<Double>>,
)
    requires
        crate::ex_audio::emit_header(h).fault is None,
        h.packet_type == ExAudioPacketType::of(h.packet_type.code()),
    ensures
        crate::demuxer::stream::sound(
            crate::ex_audio::emit_header(h).bytes + payload,
            s,
            readings,
            None,
        ) matches Ok(d) && d.codec == crate::ex_audio::codec_name(h.fourcc->0) && (
        h.packet_type is SequenceStart ==> d.extradata == payload),
{
    law_ex_audio_comes_back(0, 0, h, payload);
    crate::ex_audio::law_read_write(h, payload);
}

/// The stream of H.264 that was written is set up by the configuration that was written.
pub proof fn law_avc_stream_comes_back(
    config: Seq<u8>,
    s: Seq<(Seq<char>, Leaf)>,
    readings: Seq<Option<Double>>,
)
    ensures
        picture(
            seq![frame_header(true, VIDEO_CODEC_H264).code()] + (avc_prefix(0, 0) + config),
            s,
            readings,
        ) matches Ok(p) && p.codec == video_codec_name(VIDEO_CODEC_H264) && p.extradata == config,
{
    let h = frame_header(true, VIDEO_CODEC_H264);
    let body = seq![h.code()] + (avc_prefix(0, 0) + config);
    crate::tag::law_video_header_round_trip(h.code(), h);
    assert(body[1] == 0);
    assert(body.skip(5) =~= config);
}

/// The stream of another codec that was written has that codec; that of VP6 with an alpha channel
/// is set up by where the channel is.
pub proof fn law_video_stream_comes_back(
    is_keyframe: bool,
    codec_id: u8,
    payload: Seq<u8>,
    s: Seq<(Seq<char>, Leaf)>,
    readings: Seq<Option<Double>>,
)
    requires
        codec_id < 16,
        codec_id != VIDEO_CODEC_H264,
    ensures
        picture(seq![frame_header(is_keyframe, codec_id).code()] + payload, s, readings) matches Ok(p)
            && p.codec == video_codec_name(codec_id) && p.extradata == (if codec_id
            == VIDEO_CODEC_VP6A && payload.len() > 0 {
            payload.take(1)
        } else {
            Seq::empty()
        }),
{
    let h = frame_header(is_keyframe, codec_id);
    let body = seq![h.code()] + payload;
    crate::tag::law_video_header_round_trip(h.code(), h);
    if payload.len() > 0 {
        assert(seq![body[1]] =~= payload.take(1));
    }
}

/// The stream of video with a FourCC that was written has its codec, and is set up by the
/// configuration that was written.
pub proof fn law_ex_video_stream_comes_back(
    h: ExVideo,
    payload: Seq<u8>,
    s: Seq<(Seq<char>, Leaf)>,
    readings: Seq<Option<Double>>,
)
    requires
        canonical(h),
        crate::ex_video::emit_header(h).fault is None,
        h.multitrack is None,
        h.fourcc is Some,
    ensures
        picture(crate::ex_video::emit_header(h).bytes + payload, s, readings) matches Ok(p) && p.codec
            == crate::ex_video::codec_name(h.fourcc->0) && (h.packet_type is SequenceStart
            ==> p.extradata == payload),
{
    law_ex_video_comes_back(0, 0, h, payload);
    lemma_header_is_not_empty(h);
    let body = crate::ex_video::emit_header(h).bytes + payload;
    assert(crate::ex_video::header(body) matches Ok(Some(x)) && x.fourcc == h.fourcc) by {
        crate::ex_video::law_read_write(h, payload);
    }
}

// ---- whole files ------------------------------------------------------------

/// Every tag has a header that can be read.
pub open spec fn readable(units: Seq<Unit>) -> bool {
    forall|i: int|
        0 <= i < units.len() ==> {
            &&& (#[trigger] units[i]).kind is Audio ==> crate::ex_audio::header(units[i].body) is Ok
            &&& units[i].kind is Video ==> crate::ex_video::header(units[i].body) is Ok
        }
}

/// A tag that tells the reader something: a script, or media that is not empty.
pub open spec fn tells(unit: Unit) -> bool {
    unit.kind is ScriptData || unit.body.len() > 0
}

proof fn lemma_see_units_ok(units: Seq<Unit>, left: nat, st: Scan, k: int)
    requires
        readable(units),
        st.audio is Some || st.video is Some || st.script || (0 <= k < units.len() && k < left
            && tells(units[k])),
    ensures
        see_units(units, left, st) matches Ok(n) && (n.audio is Some || n.video is Some || n.script),
    decreases left,
{
    if left > 0 && !complete(st) && units.len() > 0 {
        let rest = units.drop_first();
        assert(readable(rest)) by {
            assert forall|i: int| 0 <= i < rest.len() implies {
                &&& (#[trigger] rest[i]).kind is Audio ==> crate::ex_audio::header(
                    rest[i].body,
                ) is Ok
                &&& rest[i].kind is Video ==> crate::ex_video::header(rest[i].body) is Ok
            } by {
                assert(rest[i] == units[i + 1]);
            }
        }
        let seen = see(st, units[0].kind, units[0].header(), units[0].body);
        assert(seen is Ok && (st.audio is Some || st.video is Some || st.script || tells(units[0])
            ==> seen->Ok_0.audio is Some || seen->Ok_0.video is Some || seen->Ok_0.script)) by {
            reveal(see);
            assert(readable(units));
            assert(units[0].kind is Audio ==> crate::ex_audio::header(units[0].body) is Ok);
        }
        if k > 0 && k < units.len() {
            assert(rest[k - 1] == units[k]);
        }
        lemma_see_units_ok(rest, (left - 1) as nat, seen->Ok_0, k - 1);
    }
}

/// A file that was written opens, if its media tags have readable headers and one of the tags
/// that are looked at tells something.
pub proof fn law_written_file_opens(has_audio: bool, has_video: bool, units: Seq<Unit>, k: int)
    requires
        all_fit(units),
        readable(units),
        0 <= k < units.len(),
        k < MAX_DISCOVERY_TAGS,
        tells(units[k]),
    ensures
        opened(file(has_audio, has_video, units)) is Ok,
{
    law_open_written(has_audio, has_video, units);
    lemma_see_units_ok(units, MAX_DISCOVERY_TAGS as nat, Scan::none(), k);
}

// ---- the table of keyframes -------------------------------------------------

/// Of properties that can be written, each can.
proof fn lemma_each_fits(s: Seq<(Seq<char>, Meta)>, k: int)
    requires
        emit_properties(s).fault is None,
        0 <= k < s.len(),
    ensures
        emit_meta(s[k].1).fault is None,
    decreases s.len(),
{
    if k > 0 {
        lemma_each_fits(s.drop_first(), k - 1);
    }
}

/// Properties leave a table that is there.
proof fn lemma_table_stays(f: Facts, s: Seq<(Seq<char>, AmfTree)>)
    requires
        f.keyframes is Some,
    ensures
        properties(f, s).keyframes == f.keyframes,
    decreases s.len(),
{
    if s.len() > 0 {
        lemma_table_stays(property(f, s[0].0, s[0].1), s.drop_first());
    }
}

/// The first table is kept.
proof fn lemma_table_taken(f: Facts, s: Seq<(Seq<char>, AmfTree)>, k: int)
    requires
        f.keyframes is None,
        0 <= k < s.len(),
        s[k].0 == "keyframes"@,
        s[k].1 is Object,
        keyframes(s[k].1) is Some,
        forall|j: int| 0 <= j < k ==> (#[trigger] s[j]).0 != "keyframes"@,
    ensures
        properties(f, s).keyframes == keyframes(s[k].1),
    decreases s.len(),
{
    let g = property(f, s[0].0, s[0].1);
    let rest = s.drop_first();
    if k == 0 {
        lemma_table_stays(g, rest);
    } else {
        assert(rest[k - 1] == s[k]);
        assert forall|j: int| 0 <= j < k - 1 implies (#[trigger] rest[j]).0 != "keyframes"@ by {
            assert(rest[j] == s[j + 1]);
        }
        lemma_table_taken(g, rest, k - 1);
    }
}

/// Tags leave a table that is there.
proof fn lemma_see_keeps_table(units: Seq<Unit>, left: nat, st: Scan)
    requires
        st.facts.keyframes is Some,
    ensures
        see_units(units, left, st) matches Ok(n) ==> n.facts.keyframes == st.facts.keyframes,
    decreases left,
{
    if left > 0 && !complete(st) && units.len() > 0 {
        let seen = see(st, units[0].kind, units[0].header(), units[0].body);
        if let Ok(n) = seen {
            assert(n.facts.keyframes == st.facts.keyframes) by {
                reveal(see);
                if units[0].kind is ScriptData {
                    lemma_script_keeps_table(st.facts, units[0].body);
                }
            }
            lemma_see_keeps_table(units.drop_first(), (left - 1) as nat, n);
        }
    }
}

proof fn lemma_script_keeps_table(f: Facts, body: Seq<u8>)
    requires
        f.keyframes is Some,
    ensures
        script(f, body).keyframes == f.keyframes,
{
    if let Ok((AmfTree::String(name), p)) = crate::amf0::decode::value(body, 0) {
        if let Ok((v, q)) = crate::amf0::decode::value(body, p) {
            if let Some(s) = crate::amf0::fields(v) {
                lemma_table_stays(f.with(class_entry(v)), s);
            }
        }
    }
}

/// The table of keyframes in the metadata that a file starts with is the one that the file goes
/// by: a search ends at its last entry that is not after the time asked for, or at its first.
pub proof fn law_written_table_is_used(
    has_audio: bool,
    has_video: bool,
    units: Seq<Unit>,
    bag: Seq<(Seq<char>, Meta)>,
    k: int,
    r: Reader,
    stream_index: u32,
    pts: i64,
    seconds: Double,
)
    requires
        all_fit(units),
        units.len() > 0,
        units[0].kind is ScriptData,
        emit_script("onMetaData"@, Meta::EcmaArray(bag)).fault is None,
        units[0].body == emit_script("onMetaData"@, Meta::EcmaArray(bag)).bytes,
        0 <= k < bag.len(),
        bag[k].0 == "keyframes"@,
        bag[k].1 is Keyframes,
        forall|j: int| 0 <= j < k ==> (#[trigger] bag[j]).0 != "keyframes"@,
        opened(file(has_audio, has_video, units)) == Ok::<Reader, Error>(r),
    ensures
        ({
            let positions = bag[k].1->file_positions;
            let times = bag[k].1->times_seconds;
            let i = place(times, seconds, times.len() - 1);
            &&& r.told.keyframes == Some(Toc { positions, times })
            &&& r.told.video is Some && stream_index < r.told.stream_count() ==> sought(
                r,
                stream_index,
                pts,
                seconds,
            ) == (
                Ok::<Landing, Error>(Landing::Keyframe(times[i])),
                Reader { pos: positions[i] as int, ..r },
            )
        }),
{
    let positions = bag[k].1->file_positions;
    let times = bag[k].1->times_seconds;
    let s = trees(bag);
    assert(emit_properties(bag).fault is None);
    lemma_each_fits(bag, k);
    law_keyframes_come_back(positions, times);
    assert(s[k] == (bag[k].0, tree(bag[k].1)));
    assert forall|j: int| 0 <= j < k implies (#[trigger] s[j]).0 != "keyframes"@ by {
        assert(s[j].0 == bag[j].0);
    }
    lemma_table_taken(Facts::none(), s, k);
    law_metadata_comes_back(Facts::none(), bag);
    law_open_written(has_audio, has_video, units);
    let none = Scan::none();
    let first = see(none, units[0].kind, units[0].header(), units[0].body);
    assert(first matches Ok(n) && n.facts.keyframes == Some(Toc { positions, times })) by {
        reveal(see);
    }
    lemma_see_keeps_table(units.drop_first(), (MAX_DISCOVERY_TAGS - 1) as nat, first->Ok_0);
}

} // verus!

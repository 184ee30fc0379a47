//! Tags, told by their bytes.
use vstd::prelude::*;
use vstd::utf8::*;
use crate::amf0::bytes::{big_endian, law_numbers_by_bytes, lemma_big_endian_shift};
use crate::color_info::{color_fault, emit_color, ColorInfo};
use crate::error::Fault;
use crate::ex_audio::{ExAudio, ExAudioPacketType};
use crate::ex_video::{ExFrameType, ExPacketType, ExVideo};
use crate::multichannel::{emit_config, Channels};
use crate::tag::ex::{audio_of, emit_color_tag, emit_ex_audio_tag, emit_ex_video_tag,
    emit_multichannel_tag, video_of};
use crate::tag::filter::{preamble, zero_from, Preamble};
use crate::tag::{avc_prefix, emit_audio_tag, emit_tag, emit_video_tag, frame_header, header,
    AudioTagHeader, FrameType, TagType, VideoInfoCommand, VideoTagHeader};
use crate::wire::{be24, be32, Emit};

verus! {

/// The start of a file by its bytes.
pub proof fn law_file_start_by_bytes(has_audio: bool, has_video: bool)
    ensures
        crate::header::header_bytes(has_audio, has_video) == seq![
            0x46u8,
            0x4Cu8,
            0x56u8,
            1u8,
            if has_audio && has_video {
                5u8
            } else if has_audio {
                4u8
            } else if has_video {
                1u8
            } else {
                0u8
            },
            0u8,
            0u8,
            0u8,
            9u8,
        ],
{
    assert(be32(9) =~= seq![0u8, 0u8, 0u8, 9u8]);
}

/// The header of a tag by its bytes: its kind in five bits with the filter flag above them, the size of
/// its body, its time, whose upper byte stands last, and its stream.
pub proof fn law_tag_header_by_bytes(data: Seq<u8>)
    requires
        data.len() >= 11,
    ensures
        ({
            let h = header(data);
            let kind = data[0] as int % 32;
            &&& h.tag_type_raw == data[0]
            &&& h.kind == (if kind == 8 {
                Some(TagType::Audio)
            } else if kind == 9 {
                Some(TagType::Video)
            } else if kind == 18 {
                Some(TagType::ScriptData)
            } else {
                None
            })
            &&& h.filter <==> data[0] as int / 32 % 2 == 1
            &&& h.data_size == big_endian(data, 1, 3)
            &&& h.timestamp_ms == data[7] * 0x100_0000 + big_endian(data, 4, 3)
            &&& h.stream_id == big_endian(data, 8, 3)
        }),
{
    law_numbers_by_bytes(data, 1, 0, 0, 0);
    law_numbers_by_bytes(data, 4, 0, 0, 0);
    law_numbers_by_bytes(data, 8, 0, 0, 0);
    reveal_with_fuel(big_endian, 4);
}

/// What is written for a tag: a header of eleven bytes, the body, and the size of both. A body or a
/// stream that does not fit in three bytes is refused.
#[verifier::spinoff_prover]
#[verifier::rlimit(40)]
pub proof fn law_tag_written_by_bytes(kind: TagType, time: u32, stream_id: u32, body: Seq<u8>)
    ensures
        ({
            let e = emit_tag(kind, time, stream_id, body);
            let n = body.len() as int;
            &&& n > 0xFF_FFFF ==> e == Emit::stop(Fault::TagDataTooLong)
            &&& n <= 0xFF_FFFF && stream_id > 0xFF_FFFF ==> e == Emit::stop(
                Fault::TagStreamIdTooLarge,
            )
            &&& n <= 0xFF_FFFF && stream_id <= 0xFF_FFFF ==> {
                &&& e.fault is None
                &&& e.bytes.len() == 15 + n
                &&& e.bytes[0] == (match kind {
                    TagType::Audio => 8int,
                    TagType::Video => 9,
                    TagType::ScriptData => 18,
                })
                &&& big_endian(e.bytes, 1, 3) == n
                &&& e.bytes[7] == time as int / 0x100_0000
                &&& big_endian(e.bytes, 4, 3) == time as int % 0x100_0000
                &&& big_endian(e.bytes, 8, 3) == stream_id
                &&& e.bytes.subrange(11, 11 + n) == body
                &&& big_endian(e.bytes, 11 + n, 4) == 11 + n
            }
        }),
{
    let n = body.len() as int;
    if n <= 0xFF_FFFF && stream_id <= 0xFF_FFFF {
        let b = emit_tag(kind, time, stream_id, body).bytes;
        let k = seq![kind.code()];
        let s = be24(n as u32);
        let t = be24(time);
        let x = seq![(time / 0x100_0000) as u8];
        let i = be24(stream_id);
        let end = be32((11 + n) as u32);
        let nothing = Seq::<u8>::empty();
        law_numbers_by_bytes(nothing, 0, 0, n as u32, 0);
        law_numbers_by_bytes(nothing, 0, 0, time, 0);
        law_numbers_by_bytes(nothing, 0, 0, stream_id, 0);
        law_numbers_by_bytes(nothing, 0, 0, (11 + n) as u32, 0);
        assert(big_endian(b, 1, 3) == n) by {
            let rest = t + x + i + body + end;
            assert(b =~= k + s + rest);
            lemma_big_endian_shift(k, s, rest, 3);
        }
        assert(big_endian(b, 4, 3) == time as int % 0x100_0000) by {
            let before = k + s;
            let rest = x + i + body + end;
            assert(b =~= before + t + rest);
            lemma_big_endian_shift(before, t, rest, 3);
        }
        assert(big_endian(b, 8, 3) == stream_id) by {
            let before = k + s + t + x;
            let rest = body + end;
            assert(b =~= before + i + rest);
            lemma_big_endian_shift(before, i, rest, 3);
        }
        assert(big_endian(b, 11 + n, 4) == 11 + n) by {
            let before = k + s + t + x + i + body;
            assert(b =~= before + end + nothing);
            lemma_big_endian_shift(before, end, nothing, 4);
        }
        assert(b.subrange(11, 11 + n) =~= body);
        assert(b[7] == x[0]);
    }
}

/// The first byte of audio: the codec, the rate, the size of a sample, and the channels.
pub proof fn law_audio_byte(b: u8, h: AudioTagHeader)
    ensures
        AudioTagHeader::of(b).codec_id == b as int / 16,
        AudioTagHeader::of(b).sample_rate_idx == b as int / 4 % 4,
        AudioTagHeader::of(b).is_16bit <==> b as int / 2 % 2 == 1,
        AudioTagHeader::of(b).is_stereo <==> b as int % 2 == 1,
        h.code() == h.codec_id as int % 16 * 16 + h.sample_rate_idx as int % 4 * 4 + (if h.is_16bit {
            2int
        } else {
            0
        }) + (if h.is_stereo {
            1int
        } else {
            0
        }),
        h.rate() == (if h.codec_id == 14 || h.codec_id == 5 {
            8000int
        } else if h.codec_id == 10 {
            44100
        } else if h.codec_id == 4 {
            16000
        } else if h.sample_rate_idx == 0 {
            5512
        } else if h.sample_rate_idx == 1 {
            11025
        } else if h.sample_rate_idx == 2 {
            22050
        } else {
            44100
        }),
{
}

/// The first byte of video: the kind of frame and the codec.
pub proof fn law_video_byte(b: u8, h: VideoTagHeader)
    ensures
        VideoTagHeader::of(b).codec_id == b as int % 16,
        b as int / 16 == 1 ==> VideoTagHeader::of(b).frame_type is Key,
        b as int / 16 == 2 ==> VideoTagHeader::of(b).frame_type is Inter,
        b as int / 16 == 3 ==> VideoTagHeader::of(b).frame_type is DisposableInter,
        b as int / 16 == 4 ==> VideoTagHeader::of(b).frame_type is GeneratedKey,
        b as int / 16 == 5 ==> VideoTagHeader::of(b).frame_type is VideoInfo,
        b as int / 16 == 0 || b as int / 16 > 5 ==> VideoTagHeader::of(b).frame_type
            == FrameType::Unknown(b / 16),
        h.code() == (match h.frame_type {
            FrameType::Key => 1,
            FrameType::Inter => 2,
            FrameType::DisposableInter => 3,
            FrameType::GeneratedKey => 4,
            FrameType::VideoInfo => 5,
            FrameType::Unknown(n) => n as int % 16,
        }) * 16 + h.codec_id as int % 16,
        VideoInfoCommand::of(0) is StartClientSeek,
        VideoInfoCommand::of(1) is EndClientSeek,
        b > 1 ==> VideoInfoCommand::of(b) == VideoInfoCommand::Unknown(b),
        VideoInfoCommand::of(b).code() == b,
{
}

/// Tags of audio and video have a byte before their data, and those of AVC a kind of packet and a
/// composition time as well.
pub proof fn law_tags_of_media(
    time: u32,
    a: AudioTagHeader,
    v: VideoTagHeader,
    data: Seq<u8>,
    key: bool,
    codec: u8,
    kind: u8,
    t: i32,
)
    ensures
        emit_audio_tag(time, a, data) == emit_tag(TagType::Audio, time, 0, seq![a.code()] + data),
        emit_video_tag(time, v, data) == emit_tag(TagType::Video, time, 0, seq![v.code()] + data),
        frame_header(key, codec).code() == (if key {
            16int
        } else {
            32
        }) + codec as int % 16,
        -0x80_0000 <= t < 0x80_0000 ==> ({
            let p = avc_prefix(kind, t);
            p.len() == 4 && p[0] == kind && big_endian(p, 1, 3) == (if t < 0 {
                t + 0x100_0000
            } else {
                t as int
            })
        }),
{
    if -0x80_0000 <= t < 0x80_0000 {
        let u = crate::ex_video::bits24(t);
        law_numbers_by_bytes(Seq::empty(), 0, 0, u, 0);
        lemma_big_endian_shift(seq![kind], be24(u), Seq::empty(), 3);
        assert(seq![kind] + be24(u) + Seq::empty() =~= avc_prefix(kind, t));
    }
}

/// Extended tags have their header before their data; where the header is refused nothing is written.
pub proof fn law_extended_tags(time: u32, v: ExVideo, a: ExAudio, data: Seq<u8>)
    ensures
        ({
            let h = crate::ex_video::emit_header(v);
            emit_ex_video_tag(time, v, data) == (match h.fault {
                Some(f) => Emit::stop(f),
                None => emit_tag(TagType::Video, time, 0, h.bytes + data),
            })
        }),
        ({
            let h = crate::ex_audio::emit_header(a);
            emit_ex_audio_tag(time, a, data) == (match h.fault {
                Some(f) => Emit::stop(f),
                None => emit_tag(TagType::Audio, time, 0, h.bytes + data),
            })
        }),
{
}

/// A tag of colours is metadata in a keyframe, and a tag of speakers is a configuration of channels.
pub proof fn law_tags_of_settings(time: u32, fourcc: u32, ci: ColorInfo, c: Channels)
    ensures
        color_fault(ci) matches Some(f) ==> emit_color_tag(time, fourcc, ci) == Emit::stop(f),
        color_fault(ci) is None ==> emit_color_tag(time, fourcc, ci) == emit_tag(
            TagType::Video,
            time,
            0,
            seq![0x94u8] + be32(fourcc) + emit_color(ci).bytes,
        ),
        emit_config(c).fault matches Some(f) ==> emit_multichannel_tag(time, fourcc, c)
            == Emit::stop(f),
        emit_config(c).fault is None ==> emit_multichannel_tag(time, fourcc, c) == emit_tag(
            TagType::Audio,
            time,
            0,
            seq![0x94u8] + be32(fourcc) + emit_config(c).bytes,
        ),
{
    let v = video_of(ExFrameType::KeyFrame, ExPacketType::Metadata, fourcc, None);
    assert(crate::ex_video::emit_header(v).fault is None);
    assert(crate::ex_video::emit_header(v).bytes =~= seq![0x94u8] + be32(fourcc));
    let a = audio_of(ExAudioPacketType::MultichannelConfig, fourcc);
    assert(crate::ex_audio::emit_header(a).fault is None);
    assert(crate::ex_audio::emit_header(a).bytes =~= seq![0x94u8] + be32(fourcc));
}

/// The first zero at or behind `from`.
pub proof fn law_zero_is_the_first(body: Seq<u8>, from: int)
    requires
        0 <= from,
    ensures
        match zero_from(body, from) {
            Some(z) => from <= z < body.len() && body[z] == 0 && forall|i: int|
                from <= i < z ==> #[trigger] body[i] != 0,
            None => forall|i: int| from <= i < body.len() ==> #[trigger] body[i] != 0,
        },
    decreases body.len() - from,
{
    if from < body.len() && body[from] != 0 {
        law_zero_is_the_first(body, from + 1);
    }
}

/// What stands before the body of a filtered tag: the number of filters, 1, the name of the filter up to
/// a zero, a size of three bytes, and as many bytes of parameters. The parameters of `Encryption` start
/// with an initialization vector of sixteen bytes; those of `SE` with a byte, whose upper bit says
/// whether the tag is encrypted, and where it is, with a vector behind that byte.
#[verifier::spinoff_prover]
#[verifier::rlimit(40)]
pub proof fn law_filter_by_bytes(body: Seq<u8>, z: int)
    ensures
        body.len() == 0 ==> preamble(body) == Err::<Preamble, Fault>(Fault::FilterEmptyBody),
        body.len() > 0 && body[0] != 1 ==> preamble(body) == Err::<Preamble, Fault>(
            Fault::FilterCount,
        ),
        body.len() > 0 && body[0] == 1 && (forall|i: int|
            1 <= i < body.len() ==> #[trigger] body[i] != 0) ==> preamble(body) == Err::<
            Preamble,
            Fault,
        >(Fault::FilterNameUnterminated),
        body.len() > 0 && body[0] == 1 && 1 <= z < body.len() && body[z] == 0 && (forall|i: int|
            1 <= i < z ==> #[trigger] body[i] != 0) ==> {
            let name = decode_utf8(body.subrange(1, z));
            let named = valid_utf8(body.subrange(1, z));
            let start = z + 4;
            let size = big_endian(body, z + 1, 3);
            let end = start + size;
            let sized = named && end <= body.len() && start <= body.len();
            &&& !named ==> preamble(body) == Err::<Preamble, Fault>(Fault::FilterNameNotUtf8)
            &&& named && start > body.len() ==> preamble(body) == Err::<Preamble, Fault>(
                Fault::FilterTruncatedLength,
            )
            &&& named && start <= body.len() < end ==> preamble(body) == Err::<Preamble, Fault>(
                Fault::FilterTruncatedParams,
            )
            &&& sized && name == "Encryption"@ && size < 16 ==> preamble(body) == Err::<
                Preamble,
                Fault,
            >(Fault::FilterShortIv)
            &&& sized && name == "Encryption"@ && size >= 16 ==> preamble(body) == Ok::<
                Preamble,
                Fault,
            >(
                Preamble {
                    filter_name: name,
                    full_encryption: true,
                    is_encrypted: true,
                    iv: Some(body.subrange(start, start + 16)),
                    bytes_consumed: end,
                },
            )
            &&& sized && name == "SE"@ && size == 0 ==> preamble(body) == Err::<Preamble, Fault>(
                Fault::FilterNoSelector,
            )
            &&& sized && name == "SE"@ && size > 0 && body[start] < 128 ==> preamble(body) == Ok::<
                Preamble,
                Fault,
            >(
                Preamble {
                    filter_name: name,
                    full_encryption: false,
                    is_encrypted: false,
                    iv: None,
                    bytes_consumed: end,
                },
            )
            &&& sized && name == "SE"@ && 0 < size < 17 && body[start] >= 128 ==> preamble(body)
                == Err::<Preamble, Fault>(Fault::FilterTruncatedIv)
            &&& sized && name == "SE"@ && size >= 17 && body[start] >= 128 ==> preamble(body) == Ok::<
                Preamble,
                Fault,
            >(
                Preamble {
                    filter_name: name,
                    full_encryption: false,
                    is_encrypted: true,
                    iv: Some(body.subrange(start + 1, start + 17)),
                    bytes_consumed: end,
                },
            )
            &&& sized && name != "Encryption"@ && name != "SE"@ ==> preamble(body) == Err::<
                Preamble,
                Fault,
            >(Fault::FilterUnknownName)
        },
{
    law_zero_is_the_first(body, 1);
    if 1 <= z < body.len() && body[z] == 0 && (forall|i: int| 1 <= i < z ==> #[trigger] body[i] != 0) {
        assert(zero_from(body, 1) == Some(z));
    }
    law_numbers_by_bytes(body, z + 1, 0, 0, 0);
    reveal_strlit("Encryption");
    reveal_strlit("SE");
    assert("SE"@.len() != "Encryption"@.len());
    let start = z + 4;
    let size = big_endian(body, z + 1, 3);
    if 1 <= z && start <= body.len() && start + size <= body.len() && 0 <= size {
        let p = body.subrange(start, start + size);
        if size >= 16 {
            assert(p.take(16) =~= body.subrange(start, start + 16));
        }
        if size >= 17 {
            assert(p.subrange(1, 17) =~= body.subrange(start + 1, start + 17));
        }
        if size > 0 {
            assert(p[0] == body[start]);
        }
    }
}

} // verus!

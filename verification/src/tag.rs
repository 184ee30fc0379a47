//! Tags: the records that the body of a file is made of.
//!
//! A tag is a header of eleven bytes and a payload. Behind each tag stands its size, so that the
//! body can be walked from either end. An audio or video payload starts with a byte that names
//! its codec.
use vstd::prelude::*;
use vstd::string::*;
use crate::error::{Error, Fault};
use crate::ex_video::bits24;
use crate::header::bit;
use crate::text::{decimal, push_decimal};
use crate::wire::{at, be24, be32, lemma_at_head, lemma_at_index, lemma_at_split, lemma_be24_at, lemma_be32_at,
    push_bytes, push_u24, push_u32, read_u24, u24_at, u32_at, Emit};

pub mod bytes;
pub mod ex;
pub mod filter;

pub use ex::{write_aac_ex_coded_frames, write_aac_ex_sequence_start, write_ac3_coded_frames,
    write_av1_coded_frames, write_av1_sequence_start, write_eac3_coded_frames,
    write_ex_audio_multichannel_config, write_ex_audio_sequence_end, write_ex_audio_tag,
    write_ex_video_color_info, write_ex_video_color_info_reset, write_ex_video_metadata,
    write_ex_video_sequence_end, write_ex_video_tag, write_flac_coded_frames,
    write_flac_sequence_start, write_hevc_coded_frames, write_hevc_coded_frames_x,
    write_hevc_sequence_start, write_mp3_ex_coded_frames, write_opus_coded_frames,
    write_opus_sequence_start, write_vp9_coded_frames, write_vp9_sequence_start,
    write_vvc_coded_frames, write_vvc_sequence_start};
pub use filter::EncryptedTagPreamble;

verus! {

/// The number of bytes of a tag header.
pub const TAG_HEADER_LEN: u32 = 11;

/// The largest number of 24 bits.
pub const UI24_MAX: u32 = 0x00FF_FFFF;

/// What a tag carries.
#[derive(Clone, Copy, Debug, PartialEq, Eq, Structural)]
pub enum TagType {
    Audio,
    Video,
    ScriptData,
}

impl TagType {
    /// The tag type with the code `v`, of which only the low five bits count.
    pub open spec fn of(v: u8) -> Option<Self> {
        if v % 32 == 8 {
            Some(TagType::Audio)
        } else if v % 32 == 9 {
            Some(TagType::Video)
        } else if v % 32 == 18 {
            Some(TagType::ScriptData)
        } else {
            None
        }
    }

    /// The byte that stands for the tag type.
    pub open spec fn code(self) -> u8 {
        match self {
            TagType::Audio => 8,
            TagType::Video => 9,
            TagType::ScriptData => 18,
        }
    }

    /// The tag type with the code `v`, of which only the low five bits count.
    pub fn from_u8(v: u8) -> (r: Option<Self>)
        ensures
            r == Self::of(v),
            r matches Some(t) ==> t.code() == v % 32,
    {
        match v % 32 {
            8 => Some(TagType::Audio),
            9 => Some(TagType::Video),
            18 => Some(TagType::ScriptData),
            _ => None,
        }
    }

    /// The byte that stands for the tag type.
    pub fn to_u8(self) -> (r: u8)
        ensures
            r == self.code(),
            Self::of(r) == Some(self),
    {
        match self {
            TagType::Audio => 8,
            TagType::Video => 9,
            TagType::ScriptData => 18,
        }
    }
}

// ---- writing tags ---------------------------------------------------------

/// A buffer went from `before` to `after` as `e` says, and `r` reports the fault or the number of
/// bytes.
pub open spec fn tagged(before: Seq<u8>, after: Seq<u8>, r: Result<u32, Error>, e: Emit) -> bool {
    &&& after == before + e.bytes
    &&& r == (match e.fault {
        Some(f) => Err(Error::InvalidData(f)),
        None => Ok(e.bytes.len() as u32),
    })
}

/// The header of a tag.
pub open spec fn header_bytes(kind: TagType, timestamp_ms: u32, stream_id: u32, size: u32) -> Seq<
    u8,
> {
    seq![kind.code()] + (be24(size) + (be24(timestamp_ms) + (seq![(timestamp_ms / 0x100_0000) as u8]
        + be24(stream_id))))
}

/// A tag and the size that stands behind it.
pub open spec fn tag_bytes(kind: TagType, timestamp_ms: u32, stream_id: u32, body: Seq<u8>) -> Seq<
    u8,
> {
    header_bytes(kind, timestamp_ms, stream_id, body.len() as u32) + (body + be32(
        (TAG_HEADER_LEN + body.len()) as u32,
    ))
}

/// A tag; nothing where the body is too long or the stream id too large.
pub open spec fn emit_tag(kind: TagType, timestamp_ms: u32, stream_id: u32, body: Seq<u8>) -> Emit {
    if body.len() > UI24_MAX {
        Emit::stop(Fault::TagDataTooLong)
    } else if stream_id > UI24_MAX {
        Emit::stop(Fault::TagStreamIdTooLarge)
    } else {
        Emit::put(tag_bytes(kind, timestamp_ms, stream_id, body))
    }
}

/// Appends the size that stands in front of the first tag: zero, since no tag is before it.
pub fn write_first_previous_tag_size(out: &mut Vec<u8>) -> (r: Result<(), Error>)
    ensures
        r is Ok,
        final(out)@ == old(out)@ + be32(0),
{
    push_u32(out, 0);
    Ok(())
}

/// Appends a tag and the size that stands behind it. Returns the number of bytes.
pub fn write_tag(
    out: &mut Vec<u8>,
    tag_type: TagType,
    timestamp_ms: u32,
    stream_id: u32,
    body: &[u8],
) -> (r: Result<u32, Error>)
    ensures
        tagged(old(out)@, final(out)@, r, emit_tag(tag_type, timestamp_ms, stream_id, body@)),
{
    assert(out@ =~= old(out)@ + Seq::<u8>::empty());
    if body.len() as u64 > UI24_MAX as u64 {
        return Err(Error::InvalidData(Fault::TagDataTooLong));
    }
    if stream_id > UI24_MAX {
        return Err(Error::InvalidData(Fault::TagStreamIdTooLarge));
    }
    let size: u32 = body.len() as u32;
    out.push(tag_type.to_u8());
    push_u24(out, size);
    push_u24(out, timestamp_ms);
    out.push((timestamp_ms / 0x100_0000) as u8);
    push_u24(out, stream_id);
    push_bytes(out, body);
    push_u32(out, TAG_HEADER_LEN + size);
    assert(out@ =~= old(out)@ + tag_bytes(tag_type, timestamp_ms, stream_id, body@));
    Ok(TAG_HEADER_LEN + size + 4)
}

// ---- reading tag headers --------------------------------------------------

/// The eleven bytes in front of a payload.
#[derive(Clone, Copy, Debug, PartialEq, Eq, Structural)]
pub struct TagHeader {
    /// The first byte as it stands.
    pub tag_type_raw: u8,
    /// What the tag carries, if that is known.
    pub kind: Option<TagType>,
    /// The number of bytes of the payload.
    pub data_size: u32,
    /// Milliseconds since the start of the file.
    pub timestamp_ms: u32,
    pub stream_id: u32,
    /// The payload is behind a filter, such as encryption.
    pub filter: bool,
}

/// The header in the first eleven bytes of `data`.
pub open spec fn header(data: Seq<u8>) -> TagHeader {
    TagHeader {
        tag_type_raw: data[0],
        kind: TagType::of(data[0]),
        data_size: u24_at(data, 1),
        timestamp_ms: (data[7] * 0x100_0000 + u24_at(data, 4)) as u32,
        stream_id: u24_at(data, 8),
        filter: data[0] / 32 % 2 == 1,
    }
}

impl TagHeader {
    /// Reads the header at the start of `data`. That there is no data at all is told apart from
    /// data that ends inside the header.
    pub fn read(data: &[u8]) -> (r: Result<Self, Error>)
        ensures
            r == (if data@.len() == 0 {
                Err(Error::Eof)
            } else if data@.len() < TAG_HEADER_LEN {
                Err(Error::UnexpectedEof)
            } else {
                Ok(header(data@))
            }),
    {
        if data.len() == 0 {
            return Err(Error::Eof);
        }
        if data.len() < TAG_HEADER_LEN as usize {
            return Err(Error::UnexpectedEof);
        }
        Ok(
            TagHeader {
                tag_type_raw: data[0],
                kind: TagType::from_u8(data[0]),
                data_size: read_u24(data, 1),
                timestamp_ms: data[7] as u32 * 0x100_0000 + read_u24(data, 4),
                stream_id: read_u24(data, 8),
                filter: data[0] / 32 % 2 == 1,
            },
        )
    }
}

/// The parts of a header that stands at the start of `data`.
#[verifier::spinoff_prover]
#[verifier::rlimit(60)]
proof fn lemma_header_parts(data: Seq<u8>, kind: TagType, timestamp_ms: u32, stream_id: u32, size: u32)
    requires
        at(data, 0, header_bytes(kind, timestamp_ms, stream_id, size)),
    ensures
        data[0] == kind.code(),
        u24_at(data, 1) == size % 0x100_0000,
        u24_at(data, 4) == timestamp_ms % 0x100_0000,
        data[7] == timestamp_ms / 0x100_0000,
        u24_at(data, 8) == stream_id % 0x100_0000,
        header_bytes(kind, timestamp_ms, stream_id, size).len() == 11,
{
    let high = seq![(timestamp_ms / 0x100_0000) as u8];
    let d = high + be24(stream_id);
    let c = be24(timestamp_ms) + d;
    let b = be24(size) + c;
    lemma_at_split(data, 0, seq![kind.code()], b);
    lemma_at_split(data, 1, be24(size), c);
    lemma_at_split(data, 4, be24(timestamp_ms), d);
    lemma_at_split(data, 7, high, be24(stream_id));
    lemma_at_index(data, 0, seq![kind.code()], 0);
    lemma_at_index(data, 7, high, 0);
    lemma_be24_at(data, 1, size);
    lemma_be24_at(data, 4, timestamp_ms);
    lemma_be24_at(data, 8, stream_id);
}

/// A header that stands at the start of `data` reads back.
#[verifier::spinoff_prover]
#[verifier::rlimit(60)]
proof fn lemma_header_back(data: Seq<u8>, kind: TagType, timestamp_ms: u32, stream_id: u32, size: u32)
    requires
        at(data, 0, header_bytes(kind, timestamp_ms, stream_id, size)),
        size <= UI24_MAX,
        stream_id <= UI24_MAX,
    ensures
        header(data) == (TagHeader {
            tag_type_raw: kind.code(),
            kind: Some(kind),
            data_size: size,
            timestamp_ms,
            stream_id,
            filter: false,
        }),
{
    lemma_header_parts(data, kind, timestamp_ms, stream_id, size);
    let high = data[7];
    let low = u24_at(data, 4);
    assert(high * 0x100_0000 + low == timestamp_ms);
}

/// The parts of a tag that stands at the start of `data`.
#[verifier::spinoff_prover]
#[verifier::rlimit(60)]
proof fn lemma_tag_parts(data: Seq<u8>, kind: TagType, timestamp_ms: u32, stream_id: u32, body: Seq<u8>)
    requires
        body.len() <= UI24_MAX,
        at(data, 0, tag_bytes(kind, timestamp_ms, stream_id, body)),
    ensures
        at(data, 0, header_bytes(kind, timestamp_ms, stream_id, body.len() as u32)),
        header_bytes(kind, timestamp_ms, stream_id, body.len() as u32).len() == 11,
        at(data, 11, body),
        u32_at(data, 11 + body.len() as int) == 11 + body.len(),
        tag_bytes(kind, timestamp_ms, stream_id, body).len() == 15 + body.len(),
{
    let head = header_bytes(kind, timestamp_ms, stream_id, body.len() as u32);
    let total = (TAG_HEADER_LEN + body.len()) as u32;
    assert(head.len() == 11);
    lemma_at_split(data, 0, head, body + be32(total));
    lemma_at_split(data, 11, body, be32(total));
    lemma_be32_at(data, 11 + body.len() as int, total);
}

/// Reading the header of a tag that was written gives back what it says, the payload stands
/// behind it, and the last four bytes say how many bytes are before them.
pub proof fn law_read_write(
    kind: TagType,
    timestamp_ms: u32,
    stream_id: u32,
    body: Seq<u8>,
    behind: Seq<u8>,
)
    requires
        emit_tag(kind, timestamp_ms, stream_id, body).fault is None,
    ensures
        ({
            let bytes = emit_tag(kind, timestamp_ms, stream_id, body).bytes;
            let data = bytes + behind;
            &&& header(data) == (TagHeader {
                tag_type_raw: kind.code(),
                kind: Some(kind),
                data_size: body.len() as u32,
                timestamp_ms,
                stream_id,
                filter: false,
            })
            &&& at(data, TAG_HEADER_LEN as int, body)
            &&& u32_at(data, bytes.len() - 4) == bytes.len() - 4
            &&& bytes.len() == TAG_HEADER_LEN + body.len() + 4
        }),
{
    let bytes = tag_bytes(kind, timestamp_ms, stream_id, body);
    let data = bytes + behind;
    lemma_at_head(bytes, behind);
    lemma_tag_parts(data, kind, timestamp_ms, stream_id, body);
    lemma_header_back(data, kind, timestamp_ms, stream_id, body.len() as u32);
}

// ---- audio ----------------------------------------------------------------

pub const AUDIO_CODEC_LPCM_NATIVE: u8 = 0;

pub const AUDIO_CODEC_ADPCM: u8 = 1;

pub const AUDIO_CODEC_MP3: u8 = 2;

pub const AUDIO_CODEC_LPCM_LE: u8 = 3;

pub const AUDIO_CODEC_NELLYMOSER_16K_MONO: u8 = 4;

pub const AUDIO_CODEC_NELLYMOSER_8K_MONO: u8 = 5;

pub const AUDIO_CODEC_NELLYMOSER: u8 = 6;

pub const AUDIO_CODEC_ALAW: u8 = 7;

pub const AUDIO_CODEC_MULAW: u8 = 8;

pub const AUDIO_CODEC_AAC: u8 = 10;

pub const AUDIO_CODEC_SPEEX: u8 = 11;

pub const AUDIO_CODEC_MP3_8K: u8 = 14;

pub const AUDIO_CODEC_DEVICE_SPECIFIC: u8 = 15;

/// The first byte of an audio payload.
#[derive(Clone, Copy, Debug, PartialEq, Eq, Structural)]
pub struct AudioTagHeader {
    pub codec_id: u8,
    /// 5.5, 11, 22 or 44 kHz, by a number from zero to three.
    pub sample_rate_idx: u8,
    /// Samples of 16 bits, else of eight.
    pub is_16bit: bool,
    /// Two channels, else one.
    pub is_stereo: bool,
}

impl AudioTagHeader {
    /// The header that a byte stands for.
    pub open spec fn of(b: u8) -> Self {
        AudioTagHeader {
            codec_id: b / 16,
            sample_rate_idx: b / 4 % 4,
            is_16bit: b / 2 % 2 == 1,
            is_stereo: b % 2 == 1,
        }
    }

    /// The byte that stands for the header.
    pub open spec fn code(self) -> u8 {
        (self.codec_id % 16 * 16 + self.sample_rate_idx % 4 * 4 + bit(self.is_16bit) * 2 + bit(
            self.is_stereo,
        )) as u8
    }

    /// The header that a byte stands for.
    pub fn parse(b: u8) -> (r: Self)
        ensures
            r == Self::of(b),
    {
        AudioTagHeader {
            codec_id: b / 16,
            sample_rate_idx: b / 4 % 4,
            is_16bit: b / 2 % 2 == 1,
            is_stereo: b % 2 == 1,
        }
    }

    /// The byte that stands for the header; of the numbers, only the bits that there is room for
    /// count.
    pub fn to_byte(self) -> (r: u8)
        ensures
            r == self.code(),
    {
        let wide: u8 = if self.is_16bit {
            2
        } else {
            0
        };
        let stereo: u8 = if self.is_stereo {
            1
        } else {
            0
        };
        self.codec_id % 16 * 16 + self.sample_rate_idx % 4 * 4 + wide + stereo
    }

    /// The sample rate, as far as the header says it.
    pub open spec fn rate(self) -> u32 {
        if self.codec_id == AUDIO_CODEC_MP3_8K || self.codec_id == AUDIO_CODEC_NELLYMOSER_8K_MONO {
            8_000
        } else if self.codec_id == AUDIO_CODEC_AAC {
            44_100
        } else if self.codec_id == AUDIO_CODEC_NELLYMOSER_16K_MONO {
            16_000
        } else if self.sample_rate_idx == 0 {
            5_512
        } else if self.sample_rate_idx == 1 {
            11_025
        } else if self.sample_rate_idx == 2 {
            22_050
        } else {
            44_100
        }
    }

    /// The sample rate in hertz. Some codecs fix it; that of AAC stands in its configuration, and
    /// 44100 is given for it here.
    pub fn sample_rate_hz(self) -> (r: u32)
        ensures
            r == self.rate(),
    {
        if self.codec_id == AUDIO_CODEC_MP3_8K || self.codec_id == AUDIO_CODEC_NELLYMOSER_8K_MONO {
            return 8_000;
        }
        if self.codec_id == AUDIO_CODEC_AAC {
            return 44_100;
        }
        if self.codec_id == AUDIO_CODEC_NELLYMOSER_16K_MONO {
            return 16_000;
        }
        match self.sample_rate_idx {
            0 => 5_512,
            1 => 11_025,
            2 => 22_050,
            _ => 44_100,
        }
    }

    /// The number of channels.
    pub fn channels(self) -> (r: u16)
        ensures
            r == 1 + bit(self.is_stereo),
    {
        if self.is_stereo {
            2
        } else {
            1
        }
    }
}

#[verifier::spinoff_prover]
proof fn lemma_audio_byte_back(b: u8)
    ensures
        AudioTagHeader::of(b).code() == b,
{
    assert(b / 2 == b / 4 * 2 + b / 2 % 2);
    assert(b / 4 == b / 16 * 4 + b / 4 % 4);
}

#[verifier::spinoff_prover]
proof fn lemma_audio_header_back(h: AudioTagHeader)
    requires
        h.codec_id < 16,
        h.sample_rate_idx < 4,
    ensures
        AudioTagHeader::of(h.code()) == h,
{
    let low = h.sample_rate_idx * 4 + bit(h.is_16bit) * 2 + bit(h.is_stereo);
    let b = h.code();
    assert(b == h.codec_id * 16 + low);
    assert(b / 16 == h.codec_id);
    assert(b / 4 == h.codec_id * 4 + h.sample_rate_idx);
    assert(b / 2 == h.codec_id * 8 + h.sample_rate_idx * 2 + bit(h.is_16bit));
}

/// Every byte is the one that its audio header stands for, and every header whose numbers fit
/// comes back from its byte.
pub proof fn law_audio_header_round_trip(b: u8, h: AudioTagHeader)
    ensures
        AudioTagHeader::of(b).code() == b,
        h.codec_id < 16 && h.sample_rate_idx < 4 ==> AudioTagHeader::of(h.code()) == h,
{
    lemma_audio_byte_back(b);
    if h.codec_id < 16 && h.sample_rate_idx < 4 {
        lemma_audio_header_back(h);
    }
}

/// The name of an audio codec.
pub open spec fn audio_codec_name(id: u8) -> Seq<char> {
    if id == AUDIO_CODEC_LPCM_NATIVE || id == AUDIO_CODEC_LPCM_LE {
        "pcm_s16le"@
    } else if id == AUDIO_CODEC_ADPCM {
        "adpcm_swf"@
    } else if id == AUDIO_CODEC_MP3 || id == AUDIO_CODEC_MP3_8K {
        "mp3"@
    } else if id == AUDIO_CODEC_NELLYMOSER_16K_MONO || id == AUDIO_CODEC_NELLYMOSER_8K_MONO || id
        == AUDIO_CODEC_NELLYMOSER {
        "nellymoser"@
    } else if id == AUDIO_CODEC_ALAW {
        "pcm_alaw"@
    } else if id == AUDIO_CODEC_MULAW {
        "pcm_mulaw"@
    } else if id == AUDIO_CODEC_AAC {
        "aac"@
    } else if id == AUDIO_CODEC_SPEEX {
        "speex"@
    } else if id == AUDIO_CODEC_DEVICE_SPECIFIC {
        "flv:audio:device"@
    } else {
        "flv:audio:"@ + decimal(id as nat)
    }
}

/// The name of an audio codec; one that is not known is named by its number.
pub fn audio_codec_id_str(id: u8) -> (r: String)
    ensures
        r@ == audio_codec_name(id),
{
    match id {
        0 | 3 => "pcm_s16le".to_string(),
        1 => "adpcm_swf".to_string(),
        2 | 14 => "mp3".to_string(),
        4 | 5 | 6 => "nellymoser".to_string(),
        7 => "pcm_alaw".to_string(),
        8 => "pcm_mulaw".to_string(),
        10 => "aac".to_string(),
        11 => "speex".to_string(),
        15 => "flv:audio:device".to_string(),
        other => {
            let mut name = "flv:audio:".to_string();
            push_decimal(&mut name, other as u64);
            name
        },
    }
}

/// The name of an audio codec that metadata gives by its number or, above 255, by its FourCC.
pub fn audio_codec_id_str_u32(id: u32) -> (r: String)
    ensures
        r@ == (if id <= 255 {
            audio_codec_name(id as u8)
        } else {
            crate::ex_audio::codec_name(id)
        }),
{
    if id <= 255 {
        audio_codec_id_str(id as u8)
    } else {
        crate::ex_audio::fourcc_audio_codec_id_str(id)
    }
}

/// An audio tag: the byte that names the codec, and the payload behind it.
pub open spec fn emit_audio_tag(timestamp_ms: u32, h: AudioTagHeader, payload: Seq<u8>) -> Emit {
    emit_tag(TagType::Audio, timestamp_ms, 0, seq![h.code()] + payload)
}

/// Appends an audio tag.
pub fn write_audio_tag(
    out: &mut Vec<u8>,
    timestamp_ms: u32,
    header: AudioTagHeader,
    payload: &[u8],
) -> (r: Result<u32, Error>)
    ensures
        tagged(old(out)@, final(out)@, r, emit_audio_tag(timestamp_ms, header, payload@)),
{
    let mut body: Vec<u8> = Vec::new();
    body.push(header.to_byte());
    push_bytes(&mut body, payload);
    assert(body@ =~= seq![header.code()] + payload@);
    write_tag(out, TagType::Audio, timestamp_ms, 0, body.as_slice())
}

/// Appends an audio tag with an MP3 frame.
pub fn write_mp3_tag(
    out: &mut Vec<u8>,
    timestamp_ms: u32,
    sample_rate_idx: u8,
    is_16bit: bool,
    is_stereo: bool,
    mp3_frame: &[u8],
) -> (r: Result<u32, Error>)
    ensures
        tagged(
            old(out)@,
            final(out)@,
            r,
            emit_audio_tag(
                timestamp_ms,
                AudioTagHeader {
                    codec_id: AUDIO_CODEC_MP3,
                    sample_rate_idx: sample_rate_idx % 4,
                    is_16bit,
                    is_stereo,
                },
                mp3_frame@,
            ),
        ),
{
    let header = AudioTagHeader {
        codec_id: AUDIO_CODEC_MP3,
        sample_rate_idx: sample_rate_idx % 4,
        is_16bit,
        is_stereo,
    };
    write_audio_tag(out, timestamp_ms, header, mp3_frame)
}

/// Appends an audio tag with a raw AAC frame. Its header names 44 kHz, 16 bits and two channels,
/// whatever the configuration of the track says.
pub fn write_aac_raw_tag(out: &mut Vec<u8>, timestamp_ms: u32, raw_au: &[u8]) -> (r: Result<
    u32,
    Error,
>)
    ensures
        tagged(
            old(out)@,
            final(out)@,
            r,
            emit_audio_tag(timestamp_ms, AudioTagHeader::of(0xaf), seq![1u8] + raw_au@),
        ),
{
    let header = AudioTagHeader {
        codec_id: AUDIO_CODEC_AAC,
        sample_rate_idx: 3,
        is_16bit: true,
        is_stereo: true,
    };
    let mut payload: Vec<u8> = Vec::new();
    payload.push(1);
    push_bytes(&mut payload, raw_au);
    assert(payload@ =~= seq![1u8] + raw_au@);
    write_audio_tag(out, timestamp_ms, header, payload.as_slice())
}

// ---- video ----------------------------------------------------------------

pub const VIDEO_CODEC_JPEG: u8 = 1;

pub const VIDEO_CODEC_FLV1: u8 = 2;

pub const VIDEO_CODEC_SCREEN_V1: u8 = 3;

pub const VIDEO_CODEC_VP6F: u8 = 4;

pub const VIDEO_CODEC_VP6A: u8 = 5;

pub const VIDEO_CODEC_SCREEN_V2: u8 = 6;

pub const VIDEO_CODEC_H264: u8 = 7;

/// The kind of a frame.
#[derive(Clone, Copy, Debug, PartialEq, Eq, Structural)]
pub enum FrameType {
    Key,
    Inter,
    DisposableInter,
    GeneratedKey,
    /// No frame: the payload is a command.
    VideoInfo,
    Unknown(u8),
}

impl FrameType {
    /// The frame type with the code `v`.
    pub open spec fn of(v: u8) -> Self {
        if v == 1 {
            FrameType::Key
        } else if v == 2 {
            FrameType::Inter
        } else if v == 3 {
            FrameType::DisposableInter
        } else if v == 4 {
            FrameType::GeneratedKey
        } else if v == 5 {
            FrameType::VideoInfo
        } else {
            FrameType::Unknown(v)
        }
    }

    /// The four bits that stand for the frame type.
    pub open spec fn code(self) -> u8 {
        match self {
            FrameType::Key => 1,
            FrameType::Inter => 2,
            FrameType::DisposableInter => 3,
            FrameType::GeneratedKey => 4,
            FrameType::VideoInfo => 5,
            FrameType::Unknown(n) => n % 16,
        }
    }

    /// The frame type with the code `v`.
    pub fn from_u8(v: u8) -> (r: Self)
        ensures
            r == Self::of(v),
            v < 16 ==> r.code() == v,
    {
        match v {
            1 => FrameType::Key,
            2 => FrameType::Inter,
            3 => FrameType::DisposableInter,
            4 => FrameType::GeneratedKey,
            5 => FrameType::VideoInfo,
            other => FrameType::Unknown(other),
        }
    }

    /// The four bits that stand for the frame type.
    pub fn to_u8(self) -> (r: u8)
        ensures
            r == self.code(),
            r < 16,
    {
        match self {
            FrameType::Key => 1,
            FrameType::Inter => 2,
            FrameType::DisposableInter => 3,
            FrameType::GeneratedKey => 4,
            FrameType::VideoInfo => 5,
            FrameType::Unknown(n) => n % 16,
        }
    }
}

/// The command in a payload that carries no frame.
#[derive(Clone, Copy, Debug, PartialEq, Eq, Structural)]
pub enum VideoInfoCommand {
    /// Frames sent while a client seeks begin.
    StartClientSeek,
    /// Frames sent while a client seeks end.
    EndClientSeek,
    /// Any other code.
    Unknown(u8),
}

impl VideoInfoCommand {
    /// The command with the code `v`.
    pub open spec fn of(v: u8) -> Self {
        if v == 0 {
            VideoInfoCommand::StartClientSeek
        } else if v == 1 {
            VideoInfoCommand::EndClientSeek
        } else {
            VideoInfoCommand::Unknown(v)
        }
    }

    /// The byte that stands for the command.
    pub open spec fn code(self) -> u8 {
        match self {
            VideoInfoCommand::StartClientSeek => 0,
            VideoInfoCommand::EndClientSeek => 1,
            VideoInfoCommand::Unknown(n) => n,
        }
    }

    /// The command with the code `v`.
    pub fn from_u8(v: u8) -> (r: Self)
        ensures
            r == Self::of(v),
            r.code() == v,
    {
        match v {
            0 => VideoInfoCommand::StartClientSeek,
            1 => VideoInfoCommand::EndClientSeek,
            other => VideoInfoCommand::Unknown(other),
        }
    }

    /// The byte that stands for the command.
    pub fn to_u8(self) -> (r: u8)
        ensures
            r == self.code(),
    {
        match self {
            VideoInfoCommand::StartClientSeek => 0,
            VideoInfoCommand::EndClientSeek => 1,
            VideoInfoCommand::Unknown(n) => n,
        }
    }
}

/// The first byte of a video payload.
#[derive(Clone, Copy, Debug, PartialEq, Eq, Structural)]
pub struct VideoTagHeader {
    pub frame_type: FrameType,
    pub codec_id: u8,
}

impl VideoTagHeader {
    /// The header that a byte stands for.
    pub open spec fn of(b: u8) -> Self {
        VideoTagHeader { frame_type: FrameType::of(b / 16), codec_id: b % 16 }
    }

    /// The byte that stands for the header.
    pub open spec fn code(self) -> u8 {
        (self.frame_type.code() * 16 + self.codec_id % 16) as u8
    }

    /// The header that a byte stands for.
    pub fn parse(b: u8) -> (r: Self)
        ensures
            r == Self::of(b),
    {
        VideoTagHeader { frame_type: FrameType::from_u8(b / 16), codec_id: b % 16 }
    }

    /// The byte that stands for the header; of the codec, only four bits count.
    pub fn to_byte(self) -> (r: u8)
        ensures
            r == self.code(),
    {
        self.frame_type.to_u8() * 16 + self.codec_id % 16
    }

    /// Whether decoding can start at the frame.
    pub fn is_keyframe(self) -> (r: bool)
        ensures
            r == (self.frame_type is Key || self.frame_type is GeneratedKey),
    {
        matches!(self.frame_type, FrameType::Key | FrameType::GeneratedKey)
    }

    /// Whether the payload is a command and no frame.
    pub fn is_video_info(self) -> (r: bool)
        ensures
            r == (self.frame_type is VideoInfo),
    {
        matches!(self.frame_type, FrameType::VideoInfo)
    }
}

/// Every byte is the one that its video header stands for, and every header whose codec fits and
/// whose frame type is what its code is read as comes back from its byte.
pub proof fn law_video_header_round_trip(b: u8, h: VideoTagHeader)
    ensures
        VideoTagHeader::of(b).code() == b,
        h.codec_id < 16 && h.frame_type == FrameType::of(h.frame_type.code())
            ==> VideoTagHeader::of(h.code()) == h,
{
    let c = h.frame_type.code();
    assert(c < 16);
    if h.codec_id < 16 {
        assert(h.code() / 16 == c && h.code() % 16 == h.codec_id);
    }
}

/// The name of a video codec.
pub open spec fn video_codec_name(id: u8) -> Seq<char> {
    if id == VIDEO_CODEC_JPEG {
        "mjpeg"@
    } else if id == VIDEO_CODEC_FLV1 {
        "flv1"@
    } else if id == VIDEO_CODEC_SCREEN_V1 {
        "flashsv"@
    } else if id == VIDEO_CODEC_VP6F {
        "vp6f"@
    } else if id == VIDEO_CODEC_VP6A {
        "vp6a"@
    } else if id == VIDEO_CODEC_SCREEN_V2 {
        "flashsv2"@
    } else if id == VIDEO_CODEC_H264 {
        "h264"@
    } else {
        "flv:video:"@ + decimal(id as nat)
    }
}

/// The name of a video codec; one that is not known is named by its number.
pub fn video_codec_id_str(id: u8) -> (r: String)
    ensures
        r@ == video_codec_name(id),
{
    match id {
        1 => "mjpeg".to_string(),
        2 => "flv1".to_string(),
        3 => "flashsv".to_string(),
        4 => "vp6f".to_string(),
        5 => "vp6a".to_string(),
        6 => "flashsv2".to_string(),
        7 => "h264".to_string(),
        other => {
            let mut name = "flv:video:".to_string();
            push_decimal(&mut name, other as u64);
            name
        },
    }
}

/// The name of a video codec that metadata gives by its number or, above 255, by its FourCC.
pub fn video_codec_id_str_u32(id: u32) -> (r: String)
    ensures
        r@ == (if id <= 255 {
            video_codec_name(id as u8)
        } else {
            crate::ex_video::codec_name(id)
        }),
{
    if id <= 255 {
        video_codec_id_str(id as u8)
    } else {
        crate::ex_video::fourcc_codec_id_str(id)
    }
}

/// A video tag: the byte that names the frame type and the codec, and the payload behind it.
pub open spec fn emit_video_tag(timestamp_ms: u32, h: VideoTagHeader, payload: Seq<u8>) -> Emit {
    emit_tag(TagType::Video, timestamp_ms, 0, seq![h.code()] + payload)
}

/// Key frames and others.
pub open spec fn key_or_inter(is_keyframe: bool) -> FrameType {
    if is_keyframe {
        FrameType::Key
    } else {
        FrameType::Inter
    }
}

/// The header of a frame of a codec.
pub open spec fn frame_header(is_keyframe: bool, codec_id: u8) -> VideoTagHeader {
    VideoTagHeader { frame_type: key_or_inter(is_keyframe), codec_id }
}

/// What stands between the header of an AVC payload and its data: the packet type and the
/// composition time.
pub open spec fn avc_prefix(packet_type: u8, composition_time_ms: i32) -> Seq<u8> {
    seq![packet_type] + be24(bits24(composition_time_ms))
}

fn make_frame_header(is_keyframe: bool, codec_id: u8) -> (r: VideoTagHeader)
    ensures
        r == frame_header(is_keyframe, codec_id),
{
    let frame_type = if is_keyframe {
        FrameType::Key
    } else {
        FrameType::Inter
    };
    VideoTagHeader { frame_type, codec_id }
}

/// Appends a video tag.
pub fn write_video_tag(
    out: &mut Vec<u8>,
    timestamp_ms: u32,
    header: VideoTagHeader,
    payload: &[u8],
) -> (r: Result<u32, Error>)
    ensures
        tagged(old(out)@, final(out)@, r, emit_video_tag(timestamp_ms, header, payload@)),
{
    let mut body: Vec<u8> = Vec::new();
    body.push(header.to_byte());
    push_bytes(&mut body, payload);
    assert(body@ =~= seq![header.code()] + payload@);
    write_tag(out, TagType::Video, timestamp_ms, 0, body.as_slice())
}

/// Appends a video tag with a frame of Sorenson H.263.
pub fn write_h263_tag(
    out: &mut Vec<u8>,
    timestamp_ms: u32,
    is_keyframe: bool,
    frame: &[u8],
) -> (r: Result<u32, Error>)
    ensures
        tagged(
            old(out)@,
            final(out)@,
            r,
            emit_video_tag(timestamp_ms, frame_header(is_keyframe, VIDEO_CODEC_FLV1), frame@),
        ),
{
    write_video_tag(out, timestamp_ms, make_frame_header(is_keyframe, VIDEO_CODEC_FLV1), frame)
}

/// Appends a video tag with a frame of VP6.
pub fn write_vp6_tag(
    out: &mut Vec<u8>,
    timestamp_ms: u32,
    is_keyframe: bool,
    frame: &[u8],
) -> (r: Result<u32, Error>)
    ensures
        tagged(
            old(out)@,
            final(out)@,
            r,
            emit_video_tag(timestamp_ms, frame_header(is_keyframe, VIDEO_CODEC_VP6F), frame@),
        ),
{
    write_video_tag(out, timestamp_ms, make_frame_header(is_keyframe, VIDEO_CODEC_VP6F), frame)
}

/// Appends a video tag with a frame of VP6 and its alpha channel. `alpha_offset` says where in
/// `frame` the alpha channel starts.
pub fn write_vp6a_tag(
    out: &mut Vec<u8>,
    timestamp_ms: u32,
    is_keyframe: bool,
    alpha_offset: u8,
    frame: &[u8],
) -> (r: Result<u32, Error>)
    ensures
        tagged(
            old(out)@,
            final(out)@,
            r,
            emit_video_tag(
                timestamp_ms,
                frame_header(is_keyframe, VIDEO_CODEC_VP6A),
                seq![alpha_offset] + frame@,
            ),
        ),
{
    let mut payload: Vec<u8> = Vec::new();
    payload.push(alpha_offset);
    push_bytes(&mut payload, frame);
    assert(payload@ =~= seq![alpha_offset] + frame@);
    write_video_tag(
        out,
        timestamp_ms,
        make_frame_header(is_keyframe, VIDEO_CODEC_VP6A),
        payload.as_slice(),
    )
}

fn avc_payload(packet_type: u8, composition_time_ms: i32, data: &[u8]) -> (r: Vec<u8>)
    requires
        -0x80_0000 <= composition_time_ms < 0x80_0000,
    ensures
        r@ == avc_prefix(packet_type, composition_time_ms) + data@,
{
    let bits: u32 = if composition_time_ms < 0 {
        (composition_time_ms + 0x100_0000) as u32
    } else {
        composition_time_ms as u32
    };
    let mut payload: Vec<u8> = Vec::new();
    payload.push(packet_type);
    push_u24(&mut payload, bits);
    push_bytes(&mut payload, data);
    assert(payload@ =~= avc_prefix(packet_type, composition_time_ms) + data@);
    payload
}

/// Appends a video tag with the configuration of an AVC track.
pub fn write_avc_sequence_header(
    out: &mut Vec<u8>,
    timestamp_ms: u32,
    config_record: &[u8],
) -> (r: Result<u32, Error>)
    ensures
        tagged(
            old(out)@,
            final(out)@,
            r,
            emit_video_tag(
                timestamp_ms,
                frame_header(true, VIDEO_CODEC_H264),
                avc_prefix(0, 0) + config_record@,
            ),
        ),
{
    let payload = avc_payload(0, 0, config_record);
    write_video_tag(
        out,
        timestamp_ms,
        make_frame_header(true, VIDEO_CODEC_H264),
        payload.as_slice(),
    )
}

/// Appends a video tag with a frame of an AVC track. A composition time that does not fit 24 bits
/// is an error.
pub fn write_avc_nalu_tag(
    out: &mut Vec<u8>,
    timestamp_ms: u32,
    is_keyframe: bool,
    composition_time_ms: i32,
    access_unit: &[u8],
) -> (r: Result<u32, Error>)
    ensures
        tagged(
            old(out)@,
            final(out)@,
            r,
            if -0x80_0000 <= composition_time_ms < 0x80_0000 {
                emit_video_tag(
                    timestamp_ms,
                    frame_header(is_keyframe, VIDEO_CODEC_H264),
                    avc_prefix(1, composition_time_ms) + access_unit@,
                )
            } else {
                Emit::stop(Fault::TagCompositionTimeRange)
            },
        ),
{
    if composition_time_ms < -0x80_0000 || composition_time_ms >= 0x80_0000 {
        assert(out@ =~= old(out)@ + Seq::<u8>::empty());
        return Err(Error::InvalidData(Fault::TagCompositionTimeRange));
    }
    let payload = avc_payload(1, composition_time_ms, access_unit);
    write_video_tag(
        out,
        timestamp_ms,
        make_frame_header(is_keyframe, VIDEO_CODEC_H264),
        payload.as_slice(),
    )
}

/// Appends the video tag that ends an AVC track.
pub fn write_avc_end_of_sequence(out: &mut Vec<u8>, timestamp_ms: u32) -> (r: Result<u32, Error>)
    ensures
        tagged(
            old(out)@,
            final(out)@,
            r,
            emit_video_tag(
                timestamp_ms,
                VideoTagHeader {
                    frame_type: FrameType::DisposableInter,
                    codec_id: VIDEO_CODEC_H264,
                },
                avc_prefix(2, 0),
            ),
        ),
{
    let header = VideoTagHeader {
        frame_type: FrameType::DisposableInter,
        codec_id: VIDEO_CODEC_H264,
    };
    let payload = avc_payload(2, 0, &[]);
    assert(payload@ =~= avc_prefix(2, 0));
    write_video_tag(out, timestamp_ms, header, payload.as_slice())
}

/// Appends a video tag with a command.
pub fn write_video_info_command_tag(
    out: &mut Vec<u8>,
    timestamp_ms: u32,
    command: VideoInfoCommand,
) -> (r: Result<u32, Error>)
    ensures
        tagged(
            old(out)@,
            final(out)@,
            r,
            emit_video_tag(
                timestamp_ms,
                VideoTagHeader { frame_type: FrameType::VideoInfo, codec_id: 0 },
                seq![command.code()],
            ),
        ),
{
    let header = VideoTagHeader { frame_type: FrameType::VideoInfo, codec_id: 0 };
    let mut payload: Vec<u8> = Vec::new();
    payload.push(command.to_u8());
    assert(payload@ =~= seq![command.code()]);
    write_video_tag(out, timestamp_ms, header, payload.as_slice())
}

} // verus!

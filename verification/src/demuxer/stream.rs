//! What the first tag of a stream, and the metadata before it, say of the stream.
use vstd::prelude::*;
use vstd::string::*;
use crate::demuxer::entries::{entries_view, truth, Entry, EntryValue, Leaf};
use crate::demuxer::packet::{audio_part, read_audio_part, read_video_part, video_part};
use crate::double::{of_int, Double};
use crate::error::{Error, Fault};
use crate::ex_audio::{fourcc_audio_codec_id_str, ExAudio, ExAudioPacketType, ExAudioTagHeader};
use crate::ex_video::{fourcc_codec_id_str, ExPacketType, ExVideo, ExVideoTagHeader};
use crate::tag::{
    audio_codec_id_str, audio_codec_name, video_codec_id_str, video_codec_name, AudioTagHeader,
    VideoTagHeader, AUDIO_CODEC_AAC, AUDIO_CODEC_LPCM_LE, AUDIO_CODEC_LPCM_NATIVE,
    VIDEO_CODEC_H264, VIDEO_CODEC_VP6A,
};
use crate::text::same_text;
use crate::wire::copy_range;

verus! {

// ---- looking entries up -----------------------------------------------------

/// The number in an entry: its own, or the one that its text reads as. `readings` has the
/// latter, by the place of the entry.
pub open spec fn number_at(
    s: Seq<(Seq<char>, Leaf)>,
    readings: Seq<Option<Double>>,
    i: int,
) -> Option<Double> {
    match s[i].1 {
        Leaf::Number(n) => Some(n),
        Leaf::Text(t) => if i < readings.len() {
            readings[i]
        } else {
            None
        },
        Leaf::Date { time_ms, tz } => None,
    }
}

/// The integer part of a number that is one of 32 bits.
pub open spec fn whole(n: Option<Double>) -> Option<u32> {
    match n {
        Some(d) => if d.within(of_int(u32::MAX as nat)) {
            Some(d.trunc() as u32)
        } else {
            None
        },
        None => None,
    }
}

/// A number that is finite.
pub open spec fn finite_only(n: Option<Double>) -> Option<Double> {
    match n {
        Some(d) => if d.finite() {
            n
        } else {
            None
        },
        None => None,
    }
}

/// The first integer under `key`, from the place `from` on.
pub open spec fn lookup_u32(
    s: Seq<(Seq<char>, Leaf)>,
    readings: Seq<Option<Double>>,
    key: Seq<char>,
    from: int,
) -> Option<u32>
    decreases s.len() - from,
{
    if !(0 <= from < s.len()) {
        None
    } else if s[from].0 == key && whole(number_at(s, readings, from)) is Some {
        whole(number_at(s, readings, from))
    } else {
        lookup_u32(s, readings, key, from + 1)
    }
}

/// The first finite number under `key`, from the place `from` on.
pub open spec fn lookup_f64(
    s: Seq<(Seq<char>, Leaf)>,
    readings: Seq<Option<Double>>,
    key: Seq<char>,
    from: int,
) -> Option<Double>
    decreases s.len() - from,
{
    if !(0 <= from < s.len()) {
        None
    } else if s[from].0 == key && finite_only(number_at(s, readings, from)) is Some {
        finite_only(number_at(s, readings, from))
    } else {
        lookup_f64(s, readings, key, from + 1)
    }
}

/// The truth value in the first entry under `key`, from the place `from` on.
pub open spec fn lookup_bool(s: Seq<(Seq<char>, Leaf)>, key: Seq<char>, from: int) -> Option<bool>
    decreases s.len() - from,
{
    if !(0 <= from < s.len()) {
        None
    } else if s[from].0 == key {
        if s[from].1 == Leaf::Text(truth(true)) {
            Some(true)
        } else if s[from].1 == Leaf::Text(truth(false)) {
            Some(false)
        } else {
            None
        }
    } else {
        lookup_bool(s, key, from + 1)
    }
}

fn get_number(entries: &[Entry], readings: &[Option<Double>], i: usize) -> (r: Option<Double>)
    requires
        i < entries@.len(),
    ensures
        r == number_at(entries_view(entries@), readings@, i as int),
{
    match &entries[i].value {
        EntryValue::Number(n) => Some(*n),
        EntryValue::Text(t) => if i < readings.len() {
            readings[i]
        } else {
            None
        },
        EntryValue::Date { time_ms, tz } => None,
    }
}

/// The first integer under `key`.
pub fn metadata_lookup_u32(entries: &[Entry], readings: &[Option<Double>], key: &str) -> (r: Option<
    u32,
>)
    ensures
        r == lookup_u32(entries_view(entries@), readings@, key@, 0),
{
    let ghost s = entries_view(entries@);
    let mut i: usize = 0;
    while i < entries.len()
        invariant
            i <= entries@.len(),
            s == entries_view(entries@),
            lookup_u32(s, readings@, key@, 0) == lookup_u32(s, readings@, key@, i as int),
        decreases entries@.len() - i,
    {
        assert(s[i as int] == entries@[i as int]@);
        if same_text(entries[i].key.as_str(), key) {
            if let Some(d) = get_number(entries, readings, i) {
                if let Some(n) = d.to_u32() {
                    return Some(n);
                }
            }
        }
        i += 1;
    }
    None
}

/// The first finite number under `key`.
pub fn metadata_lookup_f64(entries: &[Entry], readings: &[Option<Double>], key: &str) -> (r: Option<
    Double,
>)
    ensures
        r == lookup_f64(entries_view(entries@), readings@, key@, 0),
        r matches Some(d) ==> d.finite(),
{
    let ghost s = entries_view(entries@);
    let mut i: usize = 0;
    while i < entries.len()
        invariant
            i <= entries@.len(),
            s == entries_view(entries@),
            lookup_f64(s, readings@, key@, 0) == lookup_f64(s, readings@, key@, i as int),
        decreases entries@.len() - i,
    {
        assert(s[i as int] == entries@[i as int]@);
        if same_text(entries[i].key.as_str(), key) {
            if let Some(d) = get_number(entries, readings, i) {
                if d.is_finite() {
                    return Some(d);
                }
            }
        }
        i += 1;
    }
    None
}

/// The truth value in the first entry under `key`.
pub fn metadata_lookup_bool(entries: &[Entry], key: &str) -> (r: Option<bool>)
    ensures
        r == lookup_bool(entries_view(entries@), key@, 0),
{
    let ghost s = entries_view(entries@);
    let mut i: usize = 0;
    proof {
        reveal_strlit("true");
        reveal_strlit("false");
        assert("true"@.len() != "false"@.len());
    }
    while i < entries.len()
        invariant
            i <= entries@.len(),
            s == entries_view(entries@),
            "true"@ != "false"@,
            lookup_bool(s, key@, 0) == lookup_bool(s, key@, i as int),
        decreases entries@.len() - i,
    {
        assert(s[i as int] == entries@[i as int]@);
        if same_text(entries[i].key.as_str(), key) {
            return match &entries[i].value {
                EntryValue::Text(t) => if same_text(t.as_str(), "true") {
                    Some(true)
                } else if same_text(t.as_str(), "false") {
                    Some(false)
                } else {
                    None
                },
                _ => None,
            };
        }
        i += 1;
    }
    None
}

// ---- audio ------------------------------------------------------------------

/// What is known of a stream of audio.
#[derive(Debug, PartialEq, Eq)]
pub struct AudioStream {
    /// The name of the codec.
    pub codec: String,
    pub sample_rate: Option<u32>,
    pub channels: Option<u16>,
    /// Bits of a sample: 8 or 16.
    pub sample_bits: Option<u8>,
    /// Kilobits per second, not negative.
    pub data_rate_kbps: Option<Double>,
    /// What sets a decoder up.
    pub extradata: Vec<u8>,
}

/// What is known of a stream of audio, apart from how it is held in memory.
#[verifier::ext_equal]
pub struct Sound {
    pub codec: Seq<char>,
    pub sample_rate: Option<u32>,
    pub channels: Option<u16>,
    pub sample_bits: Option<u8>,
    pub data_rate_kbps: Option<Double>,
    pub extradata: Seq<u8>,
}

impl View for AudioStream {
    type V = Sound;

    open spec fn view(&self) -> Sound {
        Sound {
            codec: self.codec@,
            sample_rate: self.sample_rate,
            channels: self.channels,
            sample_bits: self.sample_bits,
            data_rate_kbps: self.data_rate_kbps,
            extradata: self.extradata@,
        }
    }
}

/// A number that is not negative.
pub open spec fn not_negative(n: Option<Double>) -> Option<Double> {
    match n {
        Some(d) => if d.rank() >= 0 {
            n
        } else {
            None
        },
        None => None,
    }
}

/// A number of bits that samples can have.
pub open spec fn sample_size(n: Option<u32>) -> Option<u8> {
    match n {
        Some(b) => if b == 8 || b == 16 {
            Some(b as u8)
        } else {
            None
        },
        None => None,
    }
}

/// What the metadata says of audio, over what the tag says. The samples of a raw codec are of
/// the size that the tag says.
pub open spec fn told_audio(
    d: Sound,
    raw: bool,
    s: Seq<(Seq<char>, Leaf)>,
    readings: Seq<Option<Double>>,
    channel_count: Option<u8>,
) -> Sound {
    let rate = lookup_u32(s, readings, "audiosamplerate"@, 0);
    let bits = sample_size(lookup_u32(s, readings, "audiosamplesize"@, 0));
    Sound {
        sample_rate: match rate {
            Some(n) => if n > 0 {
                rate
            } else {
                d.sample_rate
            },
            None => d.sample_rate,
        },
        channels: match (channel_count, lookup_bool(s, "stereo"@, 0)) {
            (Some(n), _) => Some(n as u16),
            (None, Some(stereo)) => Some(
                if stereo {
                    2
                } else {
                    1
                },
            ),
            (None, None) => d.channels,
        },
        sample_bits: if !raw && bits is Some {
            bits
        } else {
            d.sample_bits
        },
        data_rate_kbps: not_negative(lookup_f64(s, readings, "audiodatarate"@, 0)),
        ..d
    }
}

/// What an audio tag with a FourCC says.
pub open spec fn ex_sound(h: ExAudio, body: Seq<u8>) -> Sound {
    let (kind, data) = audio_part(h, body);
    Sound {
        codec: match h.fourcc {
            Some(f) => crate::ex_audio::codec_name(f),
            None => "flv:exaudio:multicodec"@,
        },
        sample_rate: None,
        channels: None,
        sample_bits: None,
        data_rate_kbps: None,
        extradata: if kind is SequenceStart {
            data
        } else {
            Seq::empty()
        },
    }
}

/// What an audio tag whose codec is given by a number says.
pub open spec fn plain_sound(body: Seq<u8>) -> Sound {
    let h = AudioTagHeader::of(body[0]);
    Sound {
        codec: audio_codec_name(h.codec_id),
        sample_rate: Some(h.rate()),
        channels: Some(
            if h.is_stereo {
                2
            } else {
                1
            },
        ),
        sample_bits: Some(
            if h.is_16bit {
                16
            } else {
                8
            },
        ),
        data_rate_kbps: None,
        extradata: if h.codec_id == AUDIO_CODEC_AAC && body.len() >= 2 && body[1] == 0 {
            body.skip(2)
        } else {
            Seq::empty()
        },
    }
}

/// Samples as they are.
pub open spec fn raw_audio(codec_id: u8) -> bool {
    codec_id == AUDIO_CODEC_LPCM_NATIVE || codec_id == AUDIO_CODEC_LPCM_LE
}

/// What the first tag of a stream of audio and the metadata say of the stream.
/// `channel_count` is the number of channels of a configuration of speakers.
pub open spec fn sound(
    body: Seq<u8>,
    s: Seq<(Seq<char>, Leaf)>,
    readings: Seq<Option<Double>>,
    channel_count: Option<u8>,
) -> Result<Sound, Fault> {
    if body.len() == 0 {
        Err(Fault::EmptyAudioTag)
    } else {
        match crate::ex_audio::header(body) {
            Err(f) => Err(f),
            Ok(Some(h)) => Ok(told_audio(ex_sound(h, body), false, s, readings, channel_count)),
            Ok(None) => Ok(
                told_audio(
                    plain_sound(body),
                    raw_audio(AudioTagHeader::of(body[0]).codec_id),
                    s,
                    readings,
                    channel_count,
                ),
            ),
        }
    }
}

fn get_rate(entries: &[Entry], readings: &[Option<Double>], key: &str) -> (r: Option<Double>)
    ensures
        r == not_negative(lookup_f64(entries_view(entries@), readings@, key@, 0)),
{
    match metadata_lookup_f64(entries, readings, key) {
        Some(d) => if d.less(Double { bits: 0 }) {
            None
        } else {
            Some(d)
        },
        None => None,
    }
}

impl AudioStream {
    fn tell(
        &mut self,
        raw: bool,
        entries: &[Entry],
        readings: &[Option<Double>],
        channel_count: Option<u8>,
    )
        ensures
            final(self)@ == told_audio(
                old(self)@,
                raw,
                entries_view(entries@),
                readings@,
                channel_count,
            ),
    {
        if let Some(n) = metadata_lookup_u32(entries, readings, "audiosamplerate") {
            if n > 0 {
                self.sample_rate = Some(n);
            }
        }
        match channel_count {
            Some(n) => {
                self.channels = Some(n as u16);
            },
            None => {
                if let Some(stereo) = metadata_lookup_bool(entries, "stereo") {
                    self.channels = Some(
                        if stereo {
                            2
                        } else {
                            1
                        },
                    );
                }
            },
        }
        if !raw {
            if let Some(b) = metadata_lookup_u32(entries, readings, "audiosamplesize") {
                if b == 8 || b == 16 {
                    self.sample_bits = Some(b as u8);
                }
            }
        }
        self.data_rate_kbps = get_rate(entries, readings, "audiodatarate");
        assert(self@ =~= told_audio(
            old(self)@,
            raw,
            entries_view(entries@),
            readings@,
            channel_count,
        ));
    }
}

/// Describes a stream of audio by its first tag and the metadata. `readings` has, for each entry
/// that is a text, the number that it reads as; `channel_count` is the number of channels of a
/// configuration of speakers.
pub fn build_audio_stream(
    body: &[u8],
    entries: &[Entry],
    readings: &[Option<Double>],
    channel_count: Option<u8>,
) -> (r: Result<AudioStream, Error>)
    ensures
        match (r, sound(body@, entries_view(entries@), readings@, channel_count)) {
            (Ok(d), Ok(x)) => d@ == x,
            (Err(e), Err(f)) => e == Error::InvalidData(f),
            _ => false,
        },
{
    if body.len() == 0 {
        return Err(Error::InvalidData(Fault::EmptyAudioTag));
    }
    let ex = match ExAudioTagHeader::parse(body) {
        Ok(h) => h,
        Err(e) => {
            return Err(e);
        },
    };
    match ex {
        Some(h) => {
            let codec = match h.fourcc {
                Some(f) => fourcc_audio_codec_id_str(f),
                None => "flv:exaudio:multicodec".to_string(),
            };
            let (kind, data) = read_audio_part(&h, body);
            let extradata: Vec<u8> = match kind {
                ExAudioPacketType::SequenceStart => data,
                _ => Vec::new(),
            };
            let mut d = AudioStream {
                codec,
                sample_rate: None,
                channels: None,
                sample_bits: None,
                data_rate_kbps: None,
                extradata,
            };
            assert(d@ =~= ex_sound(h@, body@));
            d.tell(false, entries, readings, channel_count);
            Ok(d)
        },
        None => {
            let h = AudioTagHeader::parse(body[0]);
            let extradata: Vec<u8> = if h.codec_id == AUDIO_CODEC_AAC && body.len() >= 2 && body[1]
                == 0 {
                copy_range(body, 2, body.len())
            } else {
                Vec::new()
            };
            let mut d = AudioStream {
                codec: audio_codec_id_str(h.codec_id),
                sample_rate: Some(h.sample_rate_hz()),
                channels: Some(h.channels()),
                sample_bits: Some(
                    if h.is_16bit {
                        16
                    } else {
                        8
                    },
                ),
                data_rate_kbps: None,
                extradata,
            };
            assert(d@ =~= plain_sound(body@));
            let raw = h.codec_id == AUDIO_CODEC_LPCM_NATIVE || h.codec_id == AUDIO_CODEC_LPCM_LE;
            d.tell(raw, entries, readings, channel_count);
            Ok(d)
        },
    }
}

// ---- video ------------------------------------------------------------------

/// What is known of a stream of video.
#[derive(Debug, PartialEq, Eq)]
pub struct VideoStream {
    /// The name of the codec.
    pub codec: String,
    pub width: Option<u32>,
    pub height: Option<u32>,
    /// Frames per second, positive.
    pub frame_rate: Option<Double>,
    /// Kilobits per second, not negative.
    pub data_rate_kbps: Option<Double>,
    /// What sets a decoder up.
    pub extradata: Vec<u8>,
}

/// What is known of a stream of video, apart from how it is held in memory.
#[verifier::ext_equal]
pub struct Picture {
    pub codec: Seq<char>,
    pub width: Option<u32>,
    pub height: Option<u32>,
    pub frame_rate: Option<Double>,
    pub data_rate_kbps: Option<Double>,
    pub extradata: Seq<u8>,
}

impl View for VideoStream {
    type V = Picture;

    open spec fn view(&self) -> Picture {
        Picture {
            codec: self.codec@,
            width: self.width,
            height: self.height,
            frame_rate: self.frame_rate,
            data_rate_kbps: self.data_rate_kbps,
            extradata: self.extradata@,
        }
    }
}

/// The number of frames per second that the metadata gives: `videoframerate`, or else
/// `framerate`, where it is positive.
pub open spec fn told_rate(s: Seq<(Seq<char>, Leaf)>, readings: Seq<Option<Double>>) -> Option<
    Double,
> {
    let first = lookup_f64(s, readings, "videoframerate"@, 0);
    let rate = if first is Some {
        first
    } else {
        lookup_f64(s, readings, "framerate"@, 0)
    };
    match rate {
        Some(d) => if d.rank() > 0 {
            rate
        } else {
            None
        },
        None => None,
    }
}

/// The stream of a codec that the metadata describes.
pub open spec fn told_video(
    codec: Seq<char>,
    extradata: Seq<u8>,
    s: Seq<(Seq<char>, Leaf)>,
    readings: Seq<Option<Double>>,
) -> Picture {
    Picture {
        codec,
        width: lookup_u32(s, readings, "width"@, 0),
        height: lookup_u32(s, readings, "height"@, 0),
        frame_rate: told_rate(s, readings),
        data_rate_kbps: not_negative(lookup_f64(s, readings, "videodatarate"@, 0)),
        extradata,
    }
}

/// What sets up a decoder of video whose codec is given by a FourCC.
pub open spec fn ex_setup(h: ExVideo, body: Seq<u8>) -> Seq<u8> {
    if video_part(h, body).0 is SequenceStart {
        video_part(h, body).2
    } else {
        Seq::empty()
    }
}

/// What sets up a decoder of video whose codec is given by a number: the configuration of
/// H.264, and the place of the alpha data of VP6.
pub open spec fn plain_setup(body: Seq<u8>) -> Seq<u8> {
    let codec_id = VideoTagHeader::of(body[0]).codec_id;
    if codec_id == VIDEO_CODEC_H264 && body.len() >= 5 && body[1] == 0 {
        body.skip(5)
    } else if codec_id == VIDEO_CODEC_VP6A && body.len() >= 2 {
        seq![body[1]]
    } else {
        Seq::empty()
    }
}

/// What the first tag of a stream of video and the metadata say of the stream.
pub open spec fn picture(
    body: Seq<u8>,
    s: Seq<(Seq<char>, Leaf)>,
    readings: Seq<Option<Double>>,
) -> Result<Picture, Fault> {
    if body.len() == 0 {
        Err(Fault::EmptyVideoTag)
    } else {
        match crate::ex_video::header(body) {
            Err(f) => Err(f),
            Ok(Some(h)) => Ok(
                told_video(
                    match h.fourcc {
                        Some(f) => crate::ex_video::codec_name(f),
                        None => "flv:exvideo:multicodec"@,
                    },
                    ex_setup(h, body),
                    s,
                    readings,
                ),
            ),
            Ok(None) => Ok(
                told_video(
                    video_codec_name(VideoTagHeader::of(body[0]).codec_id),
                    plain_setup(body),
                    s,
                    readings,
                ),
            ),
        }
    }
}

fn get_frame_rate(entries: &[Entry], readings: &[Option<Double>]) -> (r: Option<Double>)
    ensures
        r == told_rate(entries_view(entries@), readings@),
{
    let rate = match metadata_lookup_f64(entries, readings, "videoframerate") {
        Some(d) => Some(d),
        None => metadata_lookup_f64(entries, readings, "framerate"),
    };
    match rate {
        Some(d) => {
            let zero = Double { bits: 0 };
            if zero.less(d) {
                Some(d)
            } else {
                None
            }
        },
        None => None,
    }
}

fn tell_video(codec: String, extradata: Vec<u8>, entries: &[Entry], readings: &[Option<Double>]) -> (r:
    VideoStream)
    ensures
        r@ == told_video(codec@, extradata@, entries_view(entries@), readings@),
{
    VideoStream {
        codec,
        width: metadata_lookup_u32(entries, readings, "width"),
        height: metadata_lookup_u32(entries, readings, "height"),
        frame_rate: get_frame_rate(entries, readings),
        data_rate_kbps: get_rate(entries, readings, "videodatarate"),
        extradata,
    }
}

/// Describes a stream of video by its first tag and the metadata. `readings` has, for each entry
/// that is a text, the number that it reads as.
pub fn build_video_stream(body: &[u8], entries: &[Entry], readings: &[Option<Double>]) -> (r: Result<
    VideoStream,
    Error,
>)
    ensures
        match (r, picture(body@, entries_view(entries@), readings@)) {
            (Ok(d), Ok(x)) => d@ == x,
            (Err(e), Err(f)) => e == Error::InvalidData(f),
            _ => false,
        },
{
    if body.len() == 0 {
        return Err(Error::InvalidData(Fault::EmptyVideoTag));
    }
    let ex = match ExVideoTagHeader::parse(body) {
        Ok(h) => h,
        Err(e) => {
            return Err(e);
        },
    };
    match ex {
        Some(h) => {
            let codec = match h.fourcc {
                Some(f) => fourcc_codec_id_str(f),
                None => "flv:exvideo:multicodec".to_string(),
            };
            let (kind, offset, data) = read_video_part(&h, body);
            let extradata: Vec<u8> = match kind {
                ExPacketType::SequenceStart => data,
                _ => Vec::new(),
            };
            assert(extradata@ =~= ex_setup(h@, body@));
            Ok(tell_video(codec, extradata, entries, readings))
        },
        None => {
            let codec_id: u8 = VideoTagHeader::parse(body[0]).codec_id;
            let mut extradata: Vec<u8> = Vec::new();
            if codec_id == VIDEO_CODEC_H264 && body.len() >= 5 && body[1] == 0 {
                extradata = copy_range(body, 5, body.len());
            } else if codec_id == VIDEO_CODEC_VP6A && body.len() >= 2 {
                extradata.push(body[1]);
            }
            assert(extradata@ =~= plain_setup(body@));
            Ok(tell_video(video_codec_id_str(codec_id), extradata, entries, readings))
        },
    }
}

/// The rate of 24, 30, 48, 60 or 120 frames in 1.001 seconds that a number of frames per second
/// is within 0.005 of, as a fraction. The bounds are the bits of the first and the last such
/// number.
pub open spec fn ntsc(fps: Double) -> Option<(u32, u32)> {
    if 0x4037_F894_F69C_A9F0 <= fps.bits <= 0x4037_FB24_52C5_9FB2 {
        Some((24000, 1001))
    } else if 0x403D_F70C_34C1_A8AD <= fps.bits <= 0x403D_F99B_90EA_9E6F {
        Some((30000, 1001))
    } else if 0x404D_F7B0_0BCB_E61E <= fps.bits <= 0x404D_F8F7_B9E0_60FE {
        Some((60000, 1001))
    } else if 0x4047_F938_EF34_D6A2 <= fps.bits <= 0x4047_FA80_9D49_5182 {
        Some((48000, 1001))
    } else if 0x405D_F801_F751_04D6 <= fps.bits <= 0x405D_F8A5_CE5B_4246 {
        Some((120000, 1001))
    } else {
        None
    }
}

/// The NTSC rate that a number of frames per second stands for, as a fraction.
pub fn ntsc_frame_rate(fps: Double) -> (r: Option<(u32, u32)>)
    ensures
        r == ntsc(fps),
{
    let b: u64 = fps.bits;
    if 0x4037_F894_F69C_A9F0 <= b && b <= 0x4037_FB24_52C5_9FB2 {
        Some((24000, 1001))
    } else if 0x403D_F70C_34C1_A8AD <= b && b <= 0x403D_F99B_90EA_9E6F {
        Some((30000, 1001))
    } else if 0x404D_F7B0_0BCB_E61E <= b && b <= 0x404D_F8F7_B9E0_60FE {
        Some((60000, 1001))
    } else if 0x4047_F938_EF34_D6A2 <= b && b <= 0x4047_FA80_9D49_5182 {
        Some((48000, 1001))
    } else if 0x405D_F801_F751_04D6 <= b && b <= 0x405D_F8A5_CE5B_4246 {
        Some((120000, 1001))
    } else {
        None
    }
}

/// The greatest common divisor.
pub open spec fn gcd(a: nat, b: nat) -> nat
    decreases b,
{
    if b == 0 {
        a
    } else {
        gcd(b, a % b)
    }
}

/// The fraction of two positive numbers in lowest terms.
pub open spec fn lowest(num: int, den: int) -> (int, int) {
    let g = gcd(num as nat, den as nat) as int;
    (num / g, den / g)
}

/// `oxideav_core::Rational::reduced`: both terms divided by their greatest common divisor, where
/// both are positive.
#[verifier::external_body]
fn reduced(num: i64, den: i64) -> (r: (i64, i64))
    requires
        num > 0,
        den > 0,
    ensures
        (r.0 as int, r.1 as int) == lowest(num as int, den as int),
{
    let q = oxideav_core::Rational::new(num, den).reduced();
    (q.num, q.den)
}

/// A number of frames per second as a fraction in lowest terms: an NTSC rate, or else the nearest
/// number of frames in a thousand seconds, `milli`, but at least one.
pub fn frame_rate_ratio(fps: Double, milli: i64) -> (r: (i64, i64))
    ensures
        (r.0 as int, r.1 as int) == (match ntsc(fps) {
            Some((num, den)) => lowest(num as int, den as int),
            None => lowest(
                if milli > 0 {
                    milli as int
                } else {
                    1
                },
                1000,
            ),
        }),
{
    match ntsc_frame_rate(fps) {
        Some((num, den)) => reduced(num as i64, den as i64),
        None => reduced(
            if milli > 0 {
                milli
            } else {
                1
            },
            1000,
        ),
    }
}

} // verus!

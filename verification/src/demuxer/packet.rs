//! From tags to packets.
use vstd::prelude::*;
use crate::error::{Error, Fault};
use crate::ex_audio::{ExAudio, ExAudioPacketType, ExAudioTagHeader};
use crate::ex_video::{
    signed24, ExPacketType, ExVideo, ExVideoTagHeader, FOURCC_AVC1, FOURCC_HVC1, FOURCC_VVC1,
};
use crate::multitrack::{split, split_tracks, tracks_view, AvMultitrackType, MultitrackTrack, Track};
use crate::tag::filter::preamble;
use crate::tag::{
    AudioTagHeader, EncryptedTagPreamble, TagHeader, TagType, VideoTagHeader, AUDIO_CODEC_AAC,
    VIDEO_CODEC_H264, VIDEO_CODEC_VP6A,
};
use crate::wire::{copy_range, read_u24, u24_at};

verus! {

/// What a tag gives to a decoder. Times are in milliseconds.
#[derive(Debug, PartialEq, Eq)]
pub struct Packet {
    pub stream_index: u32,
    /// When to show the data.
    pub pts: i64,
    /// When to decode the data.
    pub dts: i64,
    /// Decoding can start here.
    pub keyframe: bool,
    /// The data sets a decoder up, or tells the caller something; it is no frame.
    pub header: bool,
    /// The data is not for a decoder.
    pub discard: bool,
    pub data: Vec<u8>,
}

/// What a packet is, apart from how it is held in memory.
#[verifier::ext_equal]
pub struct Frame {
    pub stream_index: u32,
    pub pts: int,
    pub dts: int,
    pub keyframe: bool,
    pub header: bool,
    pub discard: bool,
    pub data: Seq<u8>,
}

impl View for Packet {
    type V = Frame;

    open spec fn view(&self) -> Frame {
        Frame {
            stream_index: self.stream_index,
            pts: self.pts as int,
            dts: self.dts as int,
            keyframe: self.keyframe,
            header: self.header,
            discard: self.discard,
            data: self.data@,
        }
    }
}

/// The packet of an optional one.
pub open spec fn packet_view(p: Option<Packet>) -> Option<Frame> {
    match p {
        Some(q) => Some(q@),
        None => None,
    }
}

impl Clone for Packet {
    fn clone(&self) -> (r: Self)
        ensures
            r@ == self@,
    {
        let data = self.data.clone();
        assert(data@ =~= self.data@);
        Packet {
            stream_index: self.stream_index,
            pts: self.pts,
            dts: self.dts,
            keyframe: self.keyframe,
            header: self.header,
            discard: self.discard,
            data,
        }
    }
}

// ---- tracks -----------------------------------------------------------------

/// The place of the first track with the id zero, from `from` on.
pub open spec fn zero_track(tracks: Seq<Track>, from: int) -> Option<int>
    decreases tracks.len() - from,
{
    if !(0 <= from < tracks.len()) {
        None
    } else if tracks[from].track_id == 0 {
        Some(from)
    } else {
        zero_track(tracks, from + 1)
    }
}

/// The default track: the one with the id zero, or else the first.
pub open spec fn default_track(tracks: Seq<Track>) -> Track {
    match zero_track(tracks, 0) {
        Some(i) => tracks[i],
        None => tracks[0],
    }
}

/// The default track of a payload of several.
pub open spec fn chosen(layout: AvMultitrackType, fourcc: Option<u32>, payload: Seq<u8>) -> Option<
    Track,
> {
    let shared = match fourcc {
        Some(f) => f,
        None => 0,
    };
    match split(layout, shared, payload) {
        Ok(tracks) => Some(default_track(tracks)),
        Err(f) => None,
    }
}

fn pick(tracks: &Vec<MultitrackTrack>) -> (r: usize)
    requires
        tracks@.len() > 0,
    ensures
        r < tracks@.len(),
        tracks@[r as int]@ == default_track(tracks_view(tracks@)),
{
    let ghost s = tracks_view(tracks@);
    let mut i: usize = 0;
    while i < tracks.len()
        invariant
            i <= tracks@.len(),
            s == tracks_view(tracks@),
            zero_track(s, 0) == zero_track(s, i as int),
        decreases tracks@.len() - i,
    {
        assert(s[i as int] == tracks@[i as int]@);
        if tracks[i].track_id == 0 {
            return i;
        }
        i += 1;
    }
    0
}

fn choose_track(layout: AvMultitrackType, fourcc: Option<u32>, payload: &[u8]) -> (r: Option<
    MultitrackTrack,
>)
    ensures
        match (r, chosen(layout, fourcc, payload@)) {
            (Some(t), Some(x)) => t@ == x && t.payload.start <= t.payload.end && t.payload.end
                <= payload@.len(),
            (None, None) => true,
            _ => false,
        },
{
    let shared: u32 = match fourcc {
        Some(f) => f,
        None => 0,
    };
    match split_tracks(layout, shared, payload) {
        Ok(tracks) => {
            let i: usize = pick(&tracks);
            Some(tracks[i].clone())
        },
        Err(_) => None,
    }
}

// ---- audio ------------------------------------------------------------------

/// What a packet of an audio tag with a FourCC carries, and its bytes: of several tracks, those
/// of the default one. Tracks that cannot be told apart stay together.
pub open spec fn audio_part(h: ExAudio, body: Seq<u8>) -> (ExAudioPacketType, Seq<u8>) {
    let payload = body.skip(h.bytes_consumed);
    match h.multitrack {
        None => (h.packet_type, payload),
        Some(layout) => match chosen(layout, h.fourcc, payload) {
            None => (ExAudioPacketType::Multitrack, payload),
            Some(t) => {
                let place = if h.fourcc is Some {
                    h.bytes_consumed - 5
                } else {
                    h.bytes_consumed - 1
                };
                (ExAudioPacketType::of(body[place] % 16), payload.subrange(t.start, t.end))
            },
        },
    }
}

/// What becomes of a packet by what it carries: whether it is a header, and whether decoders
/// pass over it. The end of a sequence gives none.
pub open spec fn audio_flags(kind: ExAudioPacketType) -> Option<(bool, bool)> {
    match kind {
        ExAudioPacketType::SequenceStart => Some((true, false)),
        ExAudioPacketType::CodedFrames => Some((false, false)),
        ExAudioPacketType::SequenceEnd => None,
        _ => Some((true, true)),
    }
}

/// A packet of audio. Decoding can start at each.
pub open spec fn audio_packet(index: u32, ms: u32, header: bool, discard: bool, data: Seq<u8>) -> Frame {
    Frame {
        stream_index: index,
        pts: ms as int,
        dts: ms as int,
        keyframe: true,
        header,
        discard,
        data,
    }
}

/// A packet of audio whose codec is given by a number. A header with nothing behind it is
/// silence.
pub open spec fn plain_audio(index: u32, ms: u32, body: Seq<u8>) -> Option<Frame> {
    if AudioTagHeader::of(body[0]).codec_id != AUDIO_CODEC_AAC {
        let silent = body.len() == 1;
        Some(audio_packet(index, ms, silent, silent, body.skip(1)))
    } else if body.len() >= 2 && body[1] <= 1 {
        Some(audio_packet(index, ms, body[1] == 0, false, body.skip(2)))
    } else {
        None
    }
}

/// The packet that an audio tag gives, if any. An empty tag is silence.
pub open spec fn audio_frame(index: u32, ms: u32, body: Seq<u8>) -> Option<Frame> {
    if body.len() == 0 {
        Some(audio_packet(index, ms, true, true, body))
    } else {
        match crate::ex_audio::header(body) {
            Ok(Some(h)) => {
                let (kind, data) = audio_part(h, body);
                match audio_flags(kind) {
                    Some((header, discard)) => Some(
                        audio_packet(index, ms, header, discard, data),
                    ),
                    None => None,
                }
            },
            _ => plain_audio(index, ms, body),
        }
    }
}

/// Where the header of several tracks says what they carry.
proof fn lemma_inner_place(body: Seq<u8>)
    ensures
        crate::ex_audio::header(body) matches Ok(Some(h)) ==> {
            &&& h.bytes_consumed <= body.len()
            &&& h.multitrack is Some ==> h.bytes_consumed >= 1
            &&& h.multitrack is Some && h.fourcc is Some ==> h.bytes_consumed >= 5
        },
{
    if body.len() > 0 {
        crate::mod_ex::lemma_chain_advances(7, body, 1, body[0] % 16);
    }
}

/// Says what an audio tag with a FourCC carries, and copies its bytes.
pub(crate) fn read_audio_part(h: &ExAudioTagHeader, body: &[u8]) -> (r: (
    ExAudioPacketType,
    Vec<u8>,
))
    requires
        crate::ex_audio::header(body@) == Ok::<Option<ExAudio>, Fault>(Some(h@)),
        h.bytes_consumed <= body@.len(),
    ensures
        (r.0, r.1@) == audio_part(h@, body@),
{
    let payload = copy_range(body, h.bytes_consumed, body.len());
    assert(payload@ =~= body@.skip(h.bytes_consumed as int));
    match h.multitrack {
        None => (h.packet_type, payload),
        Some(layout) => match choose_track(layout, h.fourcc, payload.as_slice()) {
            None => (ExAudioPacketType::Multitrack, payload),
            Some(t) => {
                proof {
                    lemma_inner_place(body@);
                }
                let place: usize = if h.fourcc.is_some() {
                    h.bytes_consumed - 5
                } else {
                    h.bytes_consumed - 1
                };
                let data = copy_range(payload.as_slice(), t.payload.start, t.payload.end);
                (ExAudioPacketType::from_u8(body[place] % 16), data)
            },
        },
    }
}

fn make_audio(index: u32, ms: u32, header: bool, discard: bool, data: Vec<u8>) -> (r: Packet)
    ensures
        r@ == audio_packet(index, ms, header, discard, data@),
{
    Packet {
        stream_index: index,
        pts: ms as i64,
        dts: ms as i64,
        keyframe: true,
        header,
        discard,
        data,
    }
}

fn build_plain_audio(index: u32, ms: u32, body: &[u8]) -> (r: Option<Packet>)
    requires
        body@.len() > 0,
    ensures
        packet_view(r) == plain_audio(index, ms, body@),
{
    let codec: u8 = AudioTagHeader::parse(body[0]).codec_id;
    if codec != AUDIO_CODEC_AAC {
        let silent = body.len() == 1;
        let data = copy_range(body, 1, body.len());
        assert(data@ =~= body@.skip(1));
        return Some(make_audio(index, ms, silent, silent, data));
    }
    if body.len() < 2 || body[1] > 1 {
        return None;
    }
    let data = copy_range(body, 2, body.len());
    assert(data@ =~= body@.skip(2));
    Some(make_audio(index, ms, body[1] == 0, false, data))
}

/// The packet that an audio tag gives, if any.
pub fn build_audio_packet(stream_index: u32, header: &TagHeader, body: &[u8]) -> (r: Option<Packet>)
    ensures
        packet_view(r) == audio_frame(stream_index, header.timestamp_ms, body@),
{
    let ms: u32 = header.timestamp_ms;
    if body.len() == 0 {
        let data: Vec<u8> = Vec::new();
        assert(data@ =~= body@);
        return Some(make_audio(stream_index, ms, true, true, data));
    }
    match ExAudioTagHeader::parse(body) {
        Ok(Some(h)) => {
            let (kind, data) = read_audio_part(&h, body);
            match kind {
                ExAudioPacketType::SequenceStart => Some(
                    make_audio(stream_index, ms, true, false, data),
                ),
                ExAudioPacketType::CodedFrames => Some(
                    make_audio(stream_index, ms, false, false, data),
                ),
                ExAudioPacketType::SequenceEnd => None,
                _ => Some(make_audio(stream_index, ms, true, true, data)),
            }
        },
        _ => build_plain_audio(stream_index, ms, body),
    }
}

// ---- video ------------------------------------------------------------------

/// A codec whose frames have a composition time in front.
pub open spec fn reordered(fourcc: u32) -> bool {
    fourcc == FOURCC_HVC1 || fourcc == FOURCC_VVC1 || fourcc == FOURCC_AVC1
}

/// What a packet of a video tag with a FourCC carries, by how much it is shown later than
/// decoded, and its bytes: of several tracks, those of the default one, whose frames have their
/// own composition time. Tracks that cannot be told apart stay together.
pub open spec fn video_part(h: ExVideo, body: Seq<u8>) -> (ExPacketType, int, Seq<u8>) {
    let payload = body.skip(h.bytes_consumed);
    match h.multitrack {
        None => (
            h.packet_type,
            match h.composition_time_offset_ms {
                Some(t) => t as int,
                None => 0,
            },
            payload,
        ),
        Some(layout) => match chosen(layout, h.fourcc, payload) {
            None => (ExPacketType::Multitrack, 0, payload),
            Some(t) => {
                let data = payload.subrange(t.start, t.end);
                if h.packet_type is CodedFrames && reordered(t.fourcc) && data.len() >= 3 {
                    (h.packet_type, signed24(u24_at(data, 0)) as int, data.skip(3))
                } else {
                    (h.packet_type, 0, data)
                }
            },
        },
    }
}

/// What becomes of a packet by what it carries: whether it is a header, and whether decoders
/// pass over it.
pub open spec fn video_flags(kind: ExPacketType) -> (bool, bool) {
    match kind {
        ExPacketType::SequenceStart => (true, false),
        ExPacketType::Mpeg2TsSequenceStart => (true, false),
        ExPacketType::CodedFrames => (false, false),
        ExPacketType::CodedFramesX => (false, false),
        _ => (true, true),
    }
}

/// A packet that hands a command to the caller.
pub open spec fn command_packet(index: u32, ms: u32, command: u8) -> Frame {
    Frame {
        stream_index: index,
        pts: ms as int,
        dts: ms as int,
        keyframe: false,
        header: true,
        discard: true,
        data: seq![command],
    }
}

/// The packet that a video tag with a FourCC gives. The end of a sequence gives none, and a
/// command frame a packet of the command.
pub open spec fn ex_video_frame(index: u32, ms: u32, h: ExVideo, body: Seq<u8>) -> Option<Frame> {
    let (kind, offset, data) = video_part(h, body);
    if kind is SequenceEnd {
        None
    } else {
        match h.video_command {
            Some(c) => Some(command_packet(index, ms, c.code())),
            None => {
                let (header, discard) = video_flags(kind);
                Some(
                    Frame {
                        stream_index: index,
                        pts: ms + offset,
                        dts: ms as int,
                        keyframe: h.frame_type is KeyFrame || h.frame_type is GeneratedKeyFrame,
                        header,
                        discard,
                        data,
                    },
                )
            },
        }
    }
}

/// A packet of video whose codec is given by a number.
pub open spec fn plain_video(index: u32, ms: u32, body: Seq<u8>) -> Option<Frame> {
    let h = VideoTagHeader::of(body[0]);
    if h.frame_type is VideoInfo {
        if body.len() < 2 {
            None
        } else {
            Some(command_packet(index, ms, body[1]))
        }
    } else {
        let frame = Frame {
            stream_index: index,
            pts: ms as int,
            dts: ms as int,
            keyframe: h.frame_type is Key || h.frame_type is GeneratedKey,
            header: false,
            discard: false,
            data: body.skip(1),
        };
        if h.codec_id == VIDEO_CODEC_H264 {
            if body.len() < 5 || body[1] > 1 {
                None
            } else if body[1] == 0 {
                Some(Frame { header: true, data: body.skip(5), ..frame })
            } else {
                Some(
                    Frame {
                        pts: ms + signed24(u24_at(body, 2)),
                        data: body.skip(5),
                        ..frame
                    },
                )
            }
        } else if h.codec_id == VIDEO_CODEC_VP6A {
            if body.len() < 2 {
                None
            } else {
                Some(Frame { data: body.skip(2), ..frame })
            }
        } else {
            Some(frame)
        }
    }
}

/// The packet that a video tag gives, if any.
pub open spec fn video_frame(index: u32, ms: u32, body: Seq<u8>) -> Option<Frame> {
    if body.len() == 0 {
        None
    } else {
        match crate::ex_video::header(body) {
            Ok(Some(h)) => ex_video_frame(index, ms, h, body),
            _ => plain_video(index, ms, body),
        }
    }
}

fn read_signed24(body: &[u8], pos: usize) -> (r: i32)
    requires
        pos + 3 <= body@.len(),
    ensures
        r == signed24(u24_at(body@, pos as int)),
        -0x80_0000 <= r < 0x80_0000,
{
    let x: u32 = read_u24(body, pos);
    if x >= 0x80_0000 {
        x as i32 - 0x100_0000
    } else {
        x as i32
    }
}

/// Says what a video tag with a FourCC carries and by how much it is shown later, and copies
/// its bytes.
pub(crate) fn read_video_part(h: &ExVideoTagHeader, body: &[u8]) -> (r: (
    ExPacketType,
    i32,
    Vec<u8>,
))
    requires
        h.bytes_consumed <= body@.len(),
    ensures
        (r.0, r.1 as int, r.2@) == video_part(h@, body@),
{
    let payload = copy_range(body, h.bytes_consumed, body.len());
    assert(payload@ =~= body@.skip(h.bytes_consumed as int));
    match h.multitrack {
        None => {
            let offset: i32 = match h.composition_time_offset_ms {
                Some(t) => t,
                None => 0,
            };
            (h.packet_type, offset, payload)
        },
        Some(layout) => match choose_track(layout, h.fourcc, payload.as_slice()) {
            None => (ExPacketType::Multitrack, 0, payload),
            Some(t) => {
                let data = copy_range(payload.as_slice(), t.payload.start, t.payload.end);
                let coded = matches!(h.packet_type, ExPacketType::CodedFrames);
                let late = t.fourcc == FOURCC_HVC1 || t.fourcc == FOURCC_VVC1 || t.fourcc
                    == FOURCC_AVC1;
                if coded && late && data.len() >= 3 {
                    let offset: i32 = read_signed24(data.as_slice(), 0);
                    let rest = copy_range(data.as_slice(), 3, data.len());
                    assert(rest@ =~= data@.skip(3));
                    (h.packet_type, offset, rest)
                } else {
                    (h.packet_type, 0, data)
                }
            },
        },
    }
}

fn make_command(index: u32, ms: u32, command: u8) -> (r: Packet)
    ensures
        r@ == command_packet(index, ms, command),
{
    let mut data: Vec<u8> = Vec::new();
    data.push(command);
    assert(data@ =~= seq![command]);
    Packet {
        stream_index: index,
        pts: ms as i64,
        dts: ms as i64,
        keyframe: false,
        header: true,
        discard: true,
        data,
    }
}

fn build_ex_video(index: u32, ms: u32, h: &ExVideoTagHeader, body: &[u8]) -> (r: Option<Packet>)
    requires
        h.bytes_consumed <= body@.len(),
    ensures
        packet_view(r) == ex_video_frame(index, ms, h@, body@),
{
    let (kind, offset, data) = read_video_part(h, body);
    if let ExPacketType::SequenceEnd = kind {
        return None;
    }
    if let Some(c) = h.video_command {
        return Some(make_command(index, ms, c.as_u8()));
    }
    let (header, discard) = match kind {
        ExPacketType::SequenceStart => (true, false),
        ExPacketType::Mpeg2TsSequenceStart => (true, false),
        ExPacketType::CodedFrames => (false, false),
        ExPacketType::CodedFramesX => (false, false),
        _ => (true, true),
    };
    Some(
        Packet {
            stream_index: index,
            pts: ms as i64 + offset as i64,
            dts: ms as i64,
            keyframe: h.frame_type.is_keyframe(),
            header,
            discard,
            data,
        },
    )
}

fn build_plain_video(index: u32, ms: u32, body: &[u8]) -> (r: Option<Packet>)
    requires
        body@.len() > 0,
    ensures
        packet_view(r) == plain_video(index, ms, body@),
{
    let h = VideoTagHeader::parse(body[0]);
    if h.is_video_info() {
        if body.len() < 2 {
            return None;
        }
        return Some(make_command(index, ms, body[1]));
    }
    let keyframe = h.is_keyframe();
    let dts: i64 = ms as i64;
    let mut pts: i64 = dts;
    let mut header = false;
    let mut start: usize = 1;
    if h.codec_id == VIDEO_CODEC_H264 {
        if body.len() < 5 || body[1] > 1 {
            return None;
        }
        start = 5;
        if body[1] == 0 {
            header = true;
        } else {
            pts = dts + read_signed24(body, 2) as i64;
        }
    } else if h.codec_id == VIDEO_CODEC_VP6A {
        if body.len() < 2 {
            return None;
        }
        start = 2;
    }
    let data = copy_range(body, start, body.len());
    assert(data@ =~= body@.skip(start as int));
    Some(Packet { stream_index: index, pts, dts, keyframe, header, discard: false, data })
}

/// The packet that a video tag gives, if any.
pub fn build_video_packet(stream_index: u32, header: &TagHeader, body: &[u8]) -> (r: Option<Packet>)
    ensures
        packet_view(r) == video_frame(stream_index, header.timestamp_ms, body@),
{
    if body.len() == 0 {
        return None;
    }
    match ExVideoTagHeader::parse(body) {
        Ok(Some(h)) => build_ex_video(stream_index, header.timestamp_ms, &h, body),
        _ => build_plain_video(stream_index, header.timestamp_ms, body),
    }
}

// ---- filtered tags ----------------------------------------------------------

/// The stream that tags of a kind belong to.
pub open spec fn stream_of(kind: Option<TagType>, audio: Option<u32>, video: Option<u32>) -> Option<
    u32,
> {
    match kind {
        Some(TagType::Audio) => audio,
        Some(TagType::Video) => video,
        _ => None,
    }
}

/// The packet that a filtered tag gives: what is behind the preamble, for no decoder. A tag that
/// belongs to no stream gives none, and one with a malformed preamble is a fault.
pub open spec fn filtered_frame(
    h: TagHeader,
    body: Seq<u8>,
    audio: Option<u32>,
    video: Option<u32>,
) -> Result<Option<Frame>, Error> {
    match stream_of(h.kind, audio, video) {
        None => Ok(None),
        Some(index) => match preamble(body) {
            Err(f) => Err(Error::InvalidData(f)),
            Ok(p) => Ok(
                Some(
                    Frame {
                        stream_index: index,
                        pts: h.timestamp_ms as int,
                        dts: h.timestamp_ms as int,
                        keyframe: false,
                        header: false,
                        discard: true,
                        data: body.skip(p.bytes_consumed),
                    },
                ),
            ),
        },
    }
}

/// The packet of an optional one, or the error.
pub open spec fn outcome_view(r: Result<Option<Packet>, Error>) -> Result<Option<Frame>, Error> {
    match r {
        Ok(p) => Ok(packet_view(p)),
        Err(e) => Err(e),
    }
}

/// The packet that a filtered tag gives, if any.
pub fn build_encrypted_packet(
    header: &TagHeader,
    body: &[u8],
    audio_index: Option<u32>,
    video_index: Option<u32>,
) -> (r: Result<Option<Packet>, Error>)
    ensures
        outcome_view(r) == filtered_frame(*header, body@, audio_index, video_index),
{
    let target: Option<u32> = match header.kind {
        Some(TagType::Audio) => audio_index,
        Some(TagType::Video) => video_index,
        _ => None,
    };
    let index: u32 = match target {
        Some(i) => i,
        None => {
            return Ok(None);
        },
    };
    match EncryptedTagPreamble::parse(body) {
        Err(e) => Err(e),
        Ok(p) => {
            let data = copy_range(body, p.bytes_consumed, body.len());
            assert(data@ =~= body@.skip(p.bytes_consumed as int));
            Ok(
                Some(
                    Packet {
                        stream_index: index,
                        pts: header.timestamp_ms as i64,
                        dts: header.timestamp_ms as i64,
                        keyframe: false,
                        header: false,
                        discard: true,
                        data,
                    },
                ),
            )
        },
    }
}

} // verus!

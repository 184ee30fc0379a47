//! Video tag headers that name their codec by a FourCC.
//!
//! The top bit of the first byte says that such a header follows. Behind it stand the frame
//! type, the packet type, modifiers, the layout of a body of several tracks, the FourCC, and
//! what the packet calls for: a composition time or a command.
use vstd::prelude::*;
use vstd::string::*;
use crate::error::{Error, Fault};
use crate::fourcc::{push_spelled, spelled};
use crate::mod_ex::{chain, consistent, emit, emit_chain, entries_view, law_read_entries_are_writable,
    law_walk_emit, law_walk_is_consistent, lemma_chain_advances, offset_sum, saturated, walk, ModEx, ModExEntry};
pub use crate::mod_ex::VideoPacketModExType;
use crate::multitrack::AvMultitrackType;
use crate::wire::{at, be24, be32, lemma_at_index, lemma_at_split, lemma_be24_at, lemma_be32_at,
    lemma_u24_at, lemma_u32_at, lemma_wrote_and, push_u24, push_u32, read_u24, read_u32, u24_at, u32_at, wrote, Emit};

verus! {

/// The bit of the first byte that says that a FourCC header follows.
pub const EX_HEADER_FLAG: u8 = 0x80;

/// `av01`, AV1.
pub const FOURCC_AV01: u32 = 0x61763031;

/// `vp09`, VP9.
pub const FOURCC_VP09: u32 = 0x76703039;

/// `vp08`, VP8.
pub const FOURCC_VP08: u32 = 0x76703038;

/// `hvc1`, HEVC.
pub const FOURCC_HVC1: u32 = 0x68766331;

/// `avc1`, AVC.
pub const FOURCC_AVC1: u32 = 0x61766331;

/// `vvc1`, VVC.
pub const FOURCC_VVC1: u32 = 0x76766331;

/// The kind of a frame.
#[derive(Clone, Copy, Debug, PartialEq, Eq, Structural)]
pub enum ExFrameType {
    KeyFrame,
    InterFrame,
    DisposableInterFrame,
    GeneratedKeyFrame,
    Command,
    Reserved(u8),
}

impl ExFrameType {
    /// The frame type with the code `v`.
    pub open spec fn of(v: u8) -> Self {
        if v == 1 {
            ExFrameType::KeyFrame
        } else if v == 2 {
            ExFrameType::InterFrame
        } else if v == 3 {
            ExFrameType::DisposableInterFrame
        } else if v == 4 {
            ExFrameType::GeneratedKeyFrame
        } else if v == 5 {
            ExFrameType::Command
        } else {
            ExFrameType::Reserved(v)
        }
    }

    /// The three bits that stand for the frame type.
    pub open spec fn code(self) -> u8 {
        match self {
            ExFrameType::KeyFrame => 1,
            ExFrameType::InterFrame => 2,
            ExFrameType::DisposableInterFrame => 3,
            ExFrameType::GeneratedKeyFrame => 4,
            ExFrameType::Command => 5,
            ExFrameType::Reserved(n) => n % 8,
        }
    }

    /// The frame type with the code `v`.
    pub fn from_u8(v: u8) -> (r: Self)
        ensures
            r == Self::of(v),
            v < 8 ==> r.code() == v,
    {
        match v {
            1 => ExFrameType::KeyFrame,
            2 => ExFrameType::InterFrame,
            3 => ExFrameType::DisposableInterFrame,
            4 => ExFrameType::GeneratedKeyFrame,
            5 => ExFrameType::Command,
            other => ExFrameType::Reserved(other),
        }
    }

    /// Whether decoding can start at the frame.
    pub fn is_keyframe(self) -> (r: bool)
        ensures
            r == (self is KeyFrame || self is GeneratedKeyFrame),
    {
        matches!(self, ExFrameType::KeyFrame | ExFrameType::GeneratedKeyFrame)
    }

    /// The three bits that stand for the frame type.
    pub fn to_u8(self) -> (r: u8)
        ensures
            r == self.code(),
            r < 8,
    {
        match self {
            ExFrameType::KeyFrame => 1,
            ExFrameType::InterFrame => 2,
            ExFrameType::DisposableInterFrame => 3,
            ExFrameType::GeneratedKeyFrame => 4,
            ExFrameType::Command => 5,
            ExFrameType::Reserved(n) => n % 8,
        }
    }
}

/// What a packet carries.
#[derive(Clone, Copy, Debug, PartialEq, Eq, Structural)]
pub enum ExPacketType {
    /// The configuration of the codec.
    SequenceStart,
    /// Frames; those of HEVC, VVC and AVC behind a composition time.
    CodedFrames,
    /// Nothing: the sequence is over.
    SequenceEnd,
    /// Frames whose composition time is zero.
    CodedFramesX,
    /// Metadata such as the colours of the picture.
    Metadata,
    /// The configuration of a codec inside a transport stream.
    Mpeg2TsSequenceStart,
    /// Several tracks.
    Multitrack,
    /// A modifier in front of the packet type proper.
    ModEx,
    /// Any other code.
    Reserved(u8),
}

impl ExPacketType {
    /// The packet type with the code `v`.
    pub open spec fn of(v: u8) -> Self {
        if v == 0 {
            ExPacketType::SequenceStart
        } else if v == 1 {
            ExPacketType::CodedFrames
        } else if v == 2 {
            ExPacketType::SequenceEnd
        } else if v == 3 {
            ExPacketType::CodedFramesX
        } else if v == 4 {
            ExPacketType::Metadata
        } else if v == 5 {
            ExPacketType::Mpeg2TsSequenceStart
        } else if v == 6 {
            ExPacketType::Multitrack
        } else if v == 7 {
            ExPacketType::ModEx
        } else {
            ExPacketType::Reserved(v)
        }
    }

    /// The four bits that stand for the packet type.
    pub open spec fn code(self) -> u8 {
        match self {
            ExPacketType::SequenceStart => 0,
            ExPacketType::CodedFrames => 1,
            ExPacketType::SequenceEnd => 2,
            ExPacketType::CodedFramesX => 3,
            ExPacketType::Metadata => 4,
            ExPacketType::Mpeg2TsSequenceStart => 5,
            ExPacketType::Multitrack => 6,
            ExPacketType::ModEx => 7,
            ExPacketType::Reserved(n) => n % 16,
        }
    }

    /// The packet type with the code `v`.
    pub fn from_u8(v: u8) -> (r: Self)
        ensures
            r == Self::of(v),
            v < 16 ==> r.code() == v,
    {
        match v {
            0 => ExPacketType::SequenceStart,
            1 => ExPacketType::CodedFrames,
            2 => ExPacketType::SequenceEnd,
            3 => ExPacketType::CodedFramesX,
            4 => ExPacketType::Metadata,
            5 => ExPacketType::Mpeg2TsSequenceStart,
            6 => ExPacketType::Multitrack,
            7 => ExPacketType::ModEx,
            other => ExPacketType::Reserved(other),
        }
    }

    /// The four bits that stand for the packet type.
    pub fn to_u8(self) -> (r: u8)
        ensures
            r == self.code(),
            r < 16,
    {
        match self {
            ExPacketType::SequenceStart => 0,
            ExPacketType::CodedFrames => 1,
            ExPacketType::SequenceEnd => 2,
            ExPacketType::CodedFramesX => 3,
            ExPacketType::Metadata => 4,
            ExPacketType::Mpeg2TsSequenceStart => 5,
            ExPacketType::Multitrack => 6,
            ExPacketType::ModEx => 7,
            ExPacketType::Reserved(n) => n % 16,
        }
    }
}

/// What a command frame says.
#[derive(Clone, Copy, Debug, PartialEq, Eq, Structural)]
pub enum VideoCommand {
    /// Frames sent while a client seeks begin.
    StartSeek,
    /// Frames sent while a client seeks end.
    EndSeek,
    /// Any other code.
    Reserved(u8),
}

impl VideoCommand {
    /// The command with the code `v`.
    pub open spec fn of(v: u8) -> Self {
        if v == 0 {
            VideoCommand::StartSeek
        } else if v == 1 {
            VideoCommand::EndSeek
        } else {
            VideoCommand::Reserved(v)
        }
    }

    /// The byte that stands for the command.
    pub open spec fn code(self) -> u8 {
        match self {
            VideoCommand::StartSeek => 0,
            VideoCommand::EndSeek => 1,
            VideoCommand::Reserved(v) => v,
        }
    }

    /// The command with the code `v`.
    pub fn from_u8(v: u8) -> (r: Self)
        ensures
            r == Self::of(v),
            r.code() == v,
    {
        match v {
            0 => VideoCommand::StartSeek,
            1 => VideoCommand::EndSeek,
            other => VideoCommand::Reserved(other),
        }
    }

    /// The byte that stands for the command.
    pub fn as_u8(self) -> (r: u8)
        ensures
            r == self.code(),
    {
        match self {
            VideoCommand::StartSeek => 0,
            VideoCommand::EndSeek => 1,
            VideoCommand::Reserved(v) => v,
        }
    }
}

/// A video tag header that names its codec by a FourCC.
#[derive(Debug, PartialEq, Eq)]
pub struct ExVideoTagHeader {
    pub frame_type: ExFrameType,
    /// What the packet, or each of its tracks, carries.
    pub packet_type: ExPacketType,
    /// The codec; none where each track names its own.
    pub fourcc: Option<u32>,
    /// The layout of a body of several tracks.
    pub multitrack: Option<AvMultitrackType>,
    /// The number of bytes that the header takes; the payload is behind them.
    pub bytes_consumed: usize,
    /// Composition time offset in milliseconds, for frames of HEVC, VVC and AVC.
    pub composition_time_offset_ms: Option<i32>,
    /// Sum of the nanoseconds of the modifiers.
    pub timestamp_offset_nano: u32,
    /// The modifiers in front of the packet type, in order.
    pub mod_ex_entries: Vec<ModExEntry>,
    /// The command of a command frame.
    pub video_command: Option<VideoCommand>,
}

/// What a header is, apart from how it is held in memory.
#[verifier::ext_equal]
pub struct ExVideo {
    pub frame_type: ExFrameType,
    pub packet_type: ExPacketType,
    pub fourcc: Option<u32>,
    pub multitrack: Option<AvMultitrackType>,
    pub bytes_consumed: int,
    pub composition_time_offset_ms: Option<i32>,
    pub timestamp_offset_nano: u32,
    pub mod_ex_entries: Seq<ModEx>,
    pub video_command: Option<VideoCommand>,
}

impl View for ExVideoTagHeader {
    type V = ExVideo;

    open spec fn view(&self) -> ExVideo {
        ExVideo {
            frame_type: self.frame_type,
            packet_type: self.packet_type,
            fourcc: self.fourcc,
            multitrack: self.multitrack,
            bytes_consumed: self.bytes_consumed as int,
            composition_time_offset_ms: self.composition_time_offset_ms,
            timestamp_offset_nano: self.timestamp_offset_nano,
            mod_ex_entries: entries_view(self.mod_ex_entries@),
            video_command: self.video_command,
        }
    }
}

impl Clone for ExVideoTagHeader {
    fn clone(&self) -> (r: Self)
        ensures
            r@ == self@,
    {
        let entries = self.mod_ex_entries.clone();
        assert forall|i: int| 0 <= i < entries@.len() implies entries@[i]@
            == self.mod_ex_entries@[i]@ by {
            assert(cloned(self.mod_ex_entries@[i], entries@[i]));
        }
        assert(entries_view(entries@) =~= entries_view(self.mod_ex_entries@));
        ExVideoTagHeader {
            frame_type: self.frame_type,
            packet_type: self.packet_type,
            fourcc: self.fourcc,
            multitrack: self.multitrack,
            bytes_consumed: self.bytes_consumed,
            composition_time_offset_ms: self.composition_time_offset_ms,
            timestamp_offset_nano: self.timestamp_offset_nano,
            mod_ex_entries: entries,
            video_command: self.video_command,
        }
    }
}

// ---- reading --------------------------------------------------------------

/// What a header says of its tracks: the layout, the packet type, the codec, and where it ends.
pub struct Carrier {
    pub multitrack: Option<AvMultitrackType>,
    pub packet_type: u8,
    pub fourcc: Option<u32>,
    pub end: int,
}

/// The layout and the codec at `pos`, behind a packet type.
pub open spec fn carrier(body: Seq<u8>, pos: int, packet_type: u8) -> Result<Carrier, Fault> {
    if packet_type == 6 {
        if pos >= body.len() {
            Err(Fault::ExVideoTruncatedMultitrack)
        } else {
            let layout = AvMultitrackType::of(body[pos] / 16);
            let inner = body[pos] % 16;
            if inner == 6 {
                Err(Fault::ExVideoNestedMultitrack)
            } else if layout is ManyTracksManyCodecs {
                Ok(
                    Carrier {
                        multitrack: Some(layout),
                        packet_type: inner,
                        fourcc: None,
                        end: pos + 1,
                    },
                )
            } else if pos + 5 > body.len() {
                Err(Fault::ExVideoTruncatedMultitrackFourCc)
            } else {
                Ok(
                    Carrier {
                        multitrack: Some(layout),
                        packet_type: inner,
                        fourcc: Some(u32_at(body, pos + 1)),
                        end: pos + 5,
                    },
                )
            }
        }
    } else if pos + 4 > body.len() {
        Err(Fault::ExVideoTruncatedFourCc)
    } else {
        Ok(
            Carrier {
                multitrack: None,
                packet_type,
                fourcc: Some(u32_at(body, pos)),
                end: pos + 4,
            },
        )
    }
}

/// A composition time stands in the header: in frames of one track of HEVC, VVC or AVC.
pub open spec fn timed(
    multitrack: Option<AvMultitrackType>,
    packet_type: ExPacketType,
    fourcc: Option<u32>,
) -> bool {
    multitrack is None && packet_type is CodedFrames && (fourcc == Some(FOURCC_HVC1) || fourcc
        == Some(FOURCC_VVC1) || fourcc == Some(FOURCC_AVC1))
}

/// A command stands in the header.
pub open spec fn commanded(frame_type: ExFrameType, packet_type: ExPacketType) -> bool {
    frame_type is Command && packet_type !is Metadata
}

/// The number that 24 bits stand for in two's complement.
pub open spec fn signed24(x: u32) -> i32 {
    (if x >= 0x80_0000 {
        x - 0x100_0000
    } else {
        x as int
    }) as i32
}

/// The 24 bits that stand for a number in two's complement.
pub open spec fn bits24(x: i32) -> u32 {
    (if x < 0 {
        x + 0x100_0000
    } else {
        x as int
    }) as u32
}

/// The composition time at `pos`, if one is owed, and where it ends.
pub open spec fn composition(body: Seq<u8>, pos: int, owed: bool) -> Result<
    (Option<i32>, int),
    Fault,
> {
    if !owed {
        Ok((None, pos))
    } else if pos + 3 > body.len() {
        Err(Fault::ExVideoTruncatedCompositionTime)
    } else {
        Ok((Some(signed24(u24_at(body, pos))), pos + 3))
    }
}

/// The command at `pos`, if one is owed, and where it ends.
pub open spec fn command(body: Seq<u8>, pos: int, owed: bool) -> Result<
    (Option<VideoCommand>, int),
    Fault,
> {
    if !owed {
        Ok((None, pos))
    } else if pos >= body.len() {
        Err(Fault::ExVideoTruncatedCommand)
    } else {
        Ok((Some(VideoCommand::of(body[pos])), pos + 1))
    }
}

/// The header at the start of a body; none where the body starts with a plain video header.
pub open spec fn header(body: Seq<u8>) -> Result<Option<ExVideo>, Fault> {
    if body.len() == 0 || body[0] < EX_HEADER_FLAG {
        Ok(None)
    } else {
        let frame_type = ExFrameType::of(body[0] / 16 % 8);
        match chain(7, body, 1, body[0] % 16) {
            Err(f) => Err(f),
            Ok((p, last, entries)) => match carrier(body, p, last) {
                Err(f) => Err(f),
                Ok(c) => {
                    let packet_type = ExPacketType::of(c.packet_type);
                    match composition(body, c.end, timed(c.multitrack, packet_type, c.fourcc)) {
                        Err(f) => Err(f),
                        Ok((time, q)) => match command(
                            body,
                            q,
                            commanded(frame_type, packet_type),
                        ) {
                            Err(f) => Err(f),
                            Ok((video_command, end)) => Ok(
                                Some(
                                    ExVideo {
                                        frame_type,
                                        packet_type,
                                        fourcc: c.fourcc,
                                        multitrack: c.multitrack,
                                        bytes_consumed: end,
                                        composition_time_offset_ms: time,
                                        timestamp_offset_nano: saturated(offset_sum(entries)),
                                        mod_ex_entries: entries,
                                        video_command,
                                    },
                                ),
                            ),
                        },
                    }
                },
            },
        }
    }
}

fn read_carrier(body: &[u8], pos: usize, packet_type: u8) -> (r: Result<
    (Option<AvMultitrackType>, u8, Option<u32>, usize),
    Error,
>)
    requires
        pos <= body@.len(),
    ensures
        match (r, carrier(body@, pos as int, packet_type)) {
            (Ok((m, t, c, p)), Ok(s)) => m == s.multitrack && t == s.packet_type && c == s.fourcc
                && p == s.end && pos <= p <= body@.len(),
            (Err(e), Err(f)) => e == Error::InvalidData(f),
            _ => false,
        },
{
    if packet_type != 6 {
        if body.len() - pos < 4 {
            return Err(Error::InvalidData(Fault::ExVideoTruncatedFourCc));
        }
        return Ok((None, packet_type, Some(read_u32(body, pos)), pos + 4));
    }
    if pos >= body.len() {
        return Err(Error::InvalidData(Fault::ExVideoTruncatedMultitrack));
    }
    let layout = AvMultitrackType::from_u8(body[pos] / 16);
    let inner: u8 = body[pos] % 16;
    if inner == 6 {
        return Err(Error::InvalidData(Fault::ExVideoNestedMultitrack));
    }
    if layout.is_many_codecs() {
        return Ok((Some(layout), inner, None, pos + 1));
    }
    if body.len() - pos < 5 {
        return Err(Error::InvalidData(Fault::ExVideoTruncatedMultitrackFourCc));
    }
    Ok((Some(layout), inner, Some(read_u32(body, pos + 1)), pos + 5))
}

fn read_composition(body: &[u8], pos: usize, owed: bool) -> (r: Result<
    (Option<i32>, usize),
    Error,
>)
    requires
        pos <= body@.len(),
    ensures
        match (r, composition(body@, pos as int, owed)) {
            (Ok((t, p)), Ok((u, q))) => t == u && p == q && pos <= p <= body@.len(),
            (Err(e), Err(f)) => e == Error::InvalidData(f),
            _ => false,
        },
{
    if !owed {
        return Ok((None, pos));
    }
    if body.len() - pos < 3 {
        return Err(Error::InvalidData(Fault::ExVideoTruncatedCompositionTime));
    }
    let x: u32 = read_u24(body, pos);
    let time: i32 = if x >= 0x80_0000 {
        x as i32 - 0x100_0000
    } else {
        x as i32
    };
    Ok((Some(time), pos + 3))
}

impl ExVideoTagHeader {
    /// Reads the header at the start of a body; none where the body starts with a plain video
    /// header, or is empty.
    pub fn parse(body: &[u8]) -> (r: Result<Option<Self>, Error>)
        ensures
            match (r, header(body@)) {
                (Ok(Some(h)), Ok(Some(x))) => h@ == x && h.bytes_consumed <= body@.len(),
                (Ok(None), Ok(None)) => true,
                (Err(e), Err(f)) => e == Error::InvalidData(f),
                _ => false,
            },
    {
        if body.len() == 0 || body[0] < EX_HEADER_FLAG {
            return Ok(None);
        }
        let frame_type = ExFrameType::from_u8(body[0] / 16 % 8);
        let (p, last, mod_ex_entries, timestamp_offset_nano) = walk::<7>(body, 1, body[0] % 16)?;
        let (multitrack, inner, fourcc, p) = read_carrier(body, p, last)?;
        let packet_type = ExPacketType::from_u8(inner);
        let coded = matches!(packet_type, ExPacketType::CodedFrames);
        let timed = multitrack.is_none() && coded && (match fourcc {
            Some(f) => f == FOURCC_HVC1 || f == FOURCC_VVC1 || f == FOURCC_AVC1,
            None => false,
        });
        let (time, p) = read_composition(body, p, timed)?;
        let mut end: usize = p;
        let mut video_command: Option<VideoCommand> = None;
        let commanded = matches!(frame_type, ExFrameType::Command);
        if commanded && !matches!(packet_type, ExPacketType::Metadata) {
            if p >= body.len() {
                return Err(Error::InvalidData(Fault::ExVideoTruncatedCommand));
            }
            video_command = Some(VideoCommand::from_u8(body[p]));
            end = p + 1;
        }
        Ok(
            Some(
                ExVideoTagHeader {
                    frame_type,
                    packet_type,
                    fourcc,
                    multitrack,
                    bytes_consumed: end,
                    composition_time_offset_ms: time,
                    timestamp_offset_nano,
                    mod_ex_entries,
                    video_command,
                },
            ),
        )
    }
}

// ---- writing --------------------------------------------------------------

/// The header is of one track, but its packet type announces several tracks or a modifier.
pub open spec fn wrapper_alone(h: ExVideo) -> bool {
    h.multitrack is None && (h.packet_type.code() == 6 || h.packet_type.code() == 7)
}

/// The packet type that stands behind the modifiers.
pub open spec fn outer_type(h: ExVideo) -> u8 {
    if h.multitrack is Some {
        6
    } else {
        h.packet_type.code()
    }
}

/// The first byte and the modifiers.
pub open spec fn emit_lead(h: ExVideo) -> Emit {
    if h.mod_ex_entries.len() == 0 {
        Emit::put(seq![(EX_HEADER_FLAG + h.frame_type.code() * 16 + outer_type(h)) as u8])
    } else {
        Emit::put(seq![(EX_HEADER_FLAG + h.frame_type.code() * 16 + 7) as u8]).and(
            emit_chain(7, h.mod_ex_entries, outer_type(h)),
        )
    }
}

/// The codec of one track, and the composition time that it calls for.
pub open spec fn emit_single(h: ExVideo) -> Emit {
    match h.fourcc {
        None => Emit::stop(Fault::ExVideoNoFourCc),
        Some(fourcc) => Emit::put(be32(fourcc)).and(
            match (timed(None, h.packet_type, h.fourcc), h.composition_time_offset_ms) {
                (true, Some(t)) => if -0x80_0000 <= t < 0x80_0000 {
                    Emit::put(be24(bits24(t)))
                } else {
                    Emit::stop(Fault::ExVideoCompositionTimeRange)
                },
                (true, None) => Emit::stop(Fault::ExVideoNoCompositionTime),
                (false, Some(_)) => Emit::stop(Fault::ExVideoCompositionTimeUndefined),
                (false, None) => Emit::put(Seq::empty()),
            },
        ),
    }
}

/// The layout of several tracks, and the codec that they share.
pub open spec fn emit_layout(h: ExVideo, layout: AvMultitrackType) -> Emit {
    if h.packet_type.code() == 6 {
        Emit::stop(Fault::ExVideoNestedMultitrack)
    } else {
        Emit::put(seq![(layout.code() * 16 + h.packet_type.code()) as u8]).and(
            match (layout, h.fourcc) {
                (AvMultitrackType::ManyTracksManyCodecs, Some(_)) => Emit::stop(
                    Fault::ExVideoSharedFourCc,
                ),
                (AvMultitrackType::ManyTracksManyCodecs, None) => Emit::put(Seq::empty()),
                (_, None) => Emit::stop(Fault::ExVideoNoSharedFourCc),
                (_, Some(fourcc)) => Emit::put(be32(fourcc)),
            },
        ).and(
            if h.composition_time_offset_ms is Some {
                Emit::stop(Fault::ExVideoCompositionTimeInMultitrack)
            } else {
                Emit::put(Seq::empty())
            },
        )
    }
}

/// The layout, the codec and the composition time.
pub open spec fn emit_carrier(h: ExVideo) -> Emit {
    match h.multitrack {
        Some(layout) => emit_layout(h, layout),
        None => emit_single(h),
    }
}

/// The command.
pub open spec fn emit_command(h: ExVideo) -> Emit {
    match (commanded(h.frame_type, h.packet_type), h.video_command) {
        (true, Some(c)) => Emit::put(seq![c.code()]),
        (true, None) => Emit::stop(Fault::ExVideoNoCommand),
        (false, Some(_)) => Emit::stop(Fault::ExVideoCommandUndefined),
        (false, None) => Emit::put(Seq::empty()),
    }
}

/// The header.
pub open spec fn emit_header(h: ExVideo) -> Emit {
    if h.mod_ex_entries.len() == 0 && h.timestamp_offset_nano != 0 {
        Emit::stop(Fault::ExVideoOffsetWithoutEntries)
    } else if wrapper_alone(h) {
        Emit::stop(Fault::ExVideoWrapperPacketType)
    } else {
        emit_lead(h).and(emit_carrier(h)).and(emit_command(h))
    }
}

impl ExVideoTagHeader {
    fn write_lead(&self, out: &mut Vec<u8>) -> (r: Result<(), Error>)
        ensures
            wrote(old(out)@, final(out)@, r, emit_lead(self@)),
    {
        let outer: u8 = if self.multitrack.is_some() {
            6
        } else {
            self.packet_type.to_u8()
        };
        let frame: u8 = self.frame_type.to_u8();
        if self.mod_ex_entries.len() == 0 {
            out.push(EX_HEADER_FLAG + frame * 16 + outer);
            assert(out@ =~= old(out)@ + emit_lead(self@).bytes);
            return Ok(());
        }
        let lead: u8 = EX_HEADER_FLAG + frame * 16 + 7;
        out.push(lead);
        let ghost b = out@;
        assert(b =~= old(out)@ + seq![lead]);
        let r = emit::<7>(out, self.mod_ex_entries.as_slice(), outer);
        proof {
            lemma_wrote_and(
                old(out)@,
                b,
                out@,
                Ok(()),
                r,
                Emit::put(seq![lead]),
                emit_chain(7, self@.mod_ex_entries, outer),
            );
        }
        r
    }

    fn write_single(&self, out: &mut Vec<u8>) -> (r: Result<(), Error>)
        ensures
            wrote(old(out)@, final(out)@, r, emit_single(self@)),
    {
        let fourcc: u32 = match self.fourcc {
            Some(f) => f,
            None => {
                assert(out@ =~= old(out)@ + Seq::<u8>::empty());
                return Err(Error::InvalidData(Fault::ExVideoNoFourCc));
            },
        };
        push_u32(out, fourcc);
        let coded = matches!(self.packet_type, ExPacketType::CodedFrames);
        let timed = coded && (fourcc == FOURCC_HVC1 || fourcc == FOURCC_VVC1 || fourcc
            == FOURCC_AVC1);
        match (timed, self.composition_time_offset_ms) {
            (true, Some(t)) => {
                if t < -0x80_0000 || t >= 0x80_0000 {
                    assert(out@ =~= old(out)@ + emit_single(self@).bytes);
                    return Err(Error::InvalidData(Fault::ExVideoCompositionTimeRange));
                }
                let bits: u32 = if t < 0 {
                    (t + 0x100_0000) as u32
                } else {
                    t as u32
                };
                push_u24(out, bits);
            },
            (true, None) => {
                assert(out@ =~= old(out)@ + emit_single(self@).bytes);
                return Err(Error::InvalidData(Fault::ExVideoNoCompositionTime));
            },
            (false, Some(_)) => {
                assert(out@ =~= old(out)@ + emit_single(self@).bytes);
                return Err(Error::InvalidData(Fault::ExVideoCompositionTimeUndefined));
            },
            (false, None) => {},
        }
        assert(out@ =~= old(out)@ + emit_single(self@).bytes);
        Ok(())
    }

    fn write_layout(&self, out: &mut Vec<u8>, layout: AvMultitrackType) -> (r: Result<(), Error>)
        ensures
            wrote(old(out)@, final(out)@, r, emit_layout(self@, layout)),
    {
        if self.packet_type.to_u8() == 6 {
            assert(out@ =~= old(out)@ + Seq::<u8>::empty());
            return Err(Error::InvalidData(Fault::ExVideoNestedMultitrack));
        }
        out.push(layout.to_u8() * 16 + self.packet_type.to_u8());
        match (layout.is_many_codecs(), self.fourcc) {
            (true, Some(_)) => {
                assert(out@ =~= old(out)@ + emit_layout(self@, layout).bytes);
                return Err(Error::InvalidData(Fault::ExVideoSharedFourCc));
            },
            (true, None) => {},
            (false, None) => {
                assert(out@ =~= old(out)@ + emit_layout(self@, layout).bytes);
                return Err(Error::InvalidData(Fault::ExVideoNoSharedFourCc));
            },
            (false, Some(fourcc)) => push_u32(out, fourcc),
        }
        assert(out@ =~= old(out)@ + emit_layout(self@, layout).bytes);
        if self.composition_time_offset_ms.is_some() {
            return Err(Error::InvalidData(Fault::ExVideoCompositionTimeInMultitrack));
        }
        Ok(())
    }

    fn write_command(&self, out: &mut Vec<u8>) -> (r: Result<(), Error>)
        ensures
            wrote(old(out)@, final(out)@, r, emit_command(self@)),
    {
        let command_frame = matches!(self.frame_type, ExFrameType::Command);
        let owed = command_frame && !matches!(self.packet_type, ExPacketType::Metadata);
        match (owed, self.video_command) {
            (true, Some(c)) => out.push(c.as_u8()),
            (true, None) => {
                assert(out@ =~= old(out)@ + Seq::<u8>::empty());
                return Err(Error::InvalidData(Fault::ExVideoNoCommand));
            },
            (false, Some(_)) => {
                assert(out@ =~= old(out)@ + Seq::<u8>::empty());
                return Err(Error::InvalidData(Fault::ExVideoCommandUndefined));
            },
            (false, None) => {},
        }
        assert(out@ =~= old(out)@ + emit_command(self@).bytes);
        Ok(())
    }

    /// Appends the header; the payload goes behind it.
    ///
    /// A field that the header calls for and that is missing is an error, and so is one that it
    /// has no place for. A packet type that announces several tracks or a modifier is an error in
    /// a header of one track. What was written before the error stays in `out`.
    pub fn to_bytes(&self, out: &mut Vec<u8>) -> (r: Result<(), Error>)
        ensures
            wrote(old(out)@, final(out)@, r, emit_header(self@)),
    {
        if self.mod_ex_entries.len() == 0 && self.timestamp_offset_nano != 0 {
            assert(out@ =~= old(out)@ + Seq::<u8>::empty());
            return Err(Error::InvalidData(Fault::ExVideoOffsetWithoutEntries));
        }
        let code: u8 = self.packet_type.to_u8();
        if self.multitrack.is_none() && (code == 6 || code == 7) {
            assert(out@ =~= old(out)@ + Seq::<u8>::empty());
            return Err(Error::InvalidData(Fault::ExVideoWrapperPacketType));
        }
        self.write_lead(out)?;
        let ghost b = out@;
        let r = match self.multitrack {
            Some(layout) => self.write_layout(out, layout),
            None => self.write_single(out),
        };
        let ghost lead = emit_lead(self@);
        let ghost head = lead.and(emit_carrier(self@));
        proof {
            lemma_wrote_and(old(out)@, b, out@, Ok(()), r, lead, emit_carrier(self@));
        }
        r?;
        let ghost c = out@;
        let s = self.write_command(out);
        proof {
            lemma_wrote_and(old(out)@, c, out@, Ok(()), s, head, emit_command(self@));
        }
        s
    }
}

// ---- reading what was written ---------------------------------------------

/// Every field holds what reading can give: each code the value that it is read as, each
/// modifier the meaning of its bytes, and the sum of their nanoseconds.
pub open spec fn canonical(h: ExVideo) -> bool {
    &&& h.frame_type == ExFrameType::of(h.frame_type.code())
    &&& h.packet_type == ExPacketType::of(h.packet_type.code())
    &&& h.multitrack matches Some(m) ==> m == AvMultitrackType::of(m.code())
    &&& h.video_command matches Some(c) ==> c == VideoCommand::of(c.code())
    &&& forall|i: int| 0 <= i < h.mod_ex_entries.len() ==> consistent(#[trigger] h.mod_ex_entries[i])
    &&& h.timestamp_offset_nano == saturated(offset_sum(h.mod_ex_entries))
}

/// Two's complement of 24 bits, there and back.
proof fn lemma_signed24(t: i32)
    requires
        -0x80_0000 <= t < 0x80_0000,
    ensures
        bits24(t) < 0x100_0000,
        signed24(bits24(t)) == t,
{
}

/// Any 24 bits are a number in range.
proof fn lemma_signed24_range(x: u32)
    requires
        x < 0x100_0000,
    ensures
        -0x80_0000 <= signed24(x) < 0x80_0000,
{
}

proof fn lemma_timed_back(fourcc: u32, t: i32, body: Seq<u8>, pos: int)
    requires
        -0x80_0000 <= t < 0x80_0000,
        at(body, pos, be32(fourcc) + be24(bits24(t))),
    ensures
        u32_at(body, pos) == fourcc,
        composition(body, pos + 4, true) == Ok::<(Option<i32>, int), Fault>((Some(t), pos + 7)),
        pos + 7 <= body.len(),
{
    lemma_at_split(body, pos, be32(fourcc), be24(bits24(t)));
    lemma_be32_at(body, pos, fourcc);
    lemma_be24_at(body, pos + 4, bits24(t));
    lemma_signed24(t);
}

proof fn lemma_single_back(h: ExVideo, body: Seq<u8>, pos: int)
    requires
        h.multitrack is None,
        h.packet_type.code() != 6,
        emit_single(h).fault is None,
        at(body, pos, emit_single(h).bytes),
    ensures
        ({
            let c = carrier(body, pos, h.packet_type.code());
            &&& c matches Ok(k) && k.multitrack is None && k.packet_type == h.packet_type.code()
                && k.fourcc == h.fourcc
            &&& composition(body, c->Ok_0.end, timed(None, h.packet_type, h.fourcc)) == Ok::<
                (Option<i32>, int),
                Fault,
            >((h.composition_time_offset_ms, pos + emit_single(h).bytes.len()))
        }),
{
    let all = emit_single(h).bytes;
    let fourcc = h.fourcc->0;
    match h.composition_time_offset_ms {
        Some(t) => {
            assert(all == be32(fourcc) + be24(bits24(t)));
            lemma_timed_back(fourcc, t, body, pos);
        },
        None => {
            assert(all =~= be32(fourcc));
            lemma_be32_at(body, pos, fourcc);
        },
    }
}

proof fn lemma_layout_back(h: ExVideo, layout: AvMultitrackType, body: Seq<u8>, pos: int)
    requires
        h.multitrack == Some(layout),
        layout == AvMultitrackType::of(layout.code()),
        h.packet_type == ExPacketType::of(h.packet_type.code()),
        emit_layout(h, layout).fault is None,
        at(body, pos, emit_layout(h, layout).bytes),
    ensures
        ({
            let c = carrier(body, pos, 6);
            &&& c matches Ok(k) && k.multitrack == h.multitrack && k.packet_type
                == h.packet_type.code() && k.fourcc == h.fourcc && k.end == pos + emit_layout(
                h,
                layout,
            ).bytes.len()
            &&& h.composition_time_offset_ms is None
        }),
{
    let all = emit_layout(h, layout).bytes;
    let first = (layout.code() * 16 + h.packet_type.code()) as u8;
    assert(h.packet_type.code() < 16 && layout.code() < 16);
    assert(first / 16 == layout.code() && first % 16 == h.packet_type.code());
    let tail = match h.fourcc {
        Some(fourcc) => be32(fourcc),
        None => Seq::empty(),
    };
    assert(all =~= seq![first] + tail);
    lemma_at_split(body, pos, seq![first], tail);
    lemma_at_index(body, pos, seq![first], 0);
    if let Some(fourcc) = h.fourcc {
        lemma_be32_at(body, pos + 1, fourcc);
    }
}

proof fn lemma_lead_back(h: ExVideo, body: Seq<u8>)
    requires
        canonical(h),
        !wrapper_alone(h),
        emit_lead(h).fault is None,
        at(body, 0, emit_lead(h).bytes),
    ensures
        body.len() > 0,
        body[0] >= EX_HEADER_FLAG,
        body[0] / 16 % 8 == h.frame_type.code(),
        chain(7, body, 1, body[0] % 16) == Ok::<(int, u8, Seq<ModEx>), Fault>(
            (emit_lead(h).bytes.len() as int, outer_type(h), h.mod_ex_entries),
        ),
{
    let lead = emit_lead(h).bytes;
    let frame = h.frame_type.code();
    assert(frame < 8);
    assert(outer_type(h) < 16 && outer_type(h) != 7);
    if h.mod_ex_entries.len() == 0 {
        lemma_at_index(body, 0, lead, 0);
        assert(h.mod_ex_entries =~= Seq::empty());
    } else {
        let first = (EX_HEADER_FLAG + frame * 16 + 7) as u8;
        let entries = emit_chain(7, h.mod_ex_entries, outer_type(h)).bytes;
        assert(lead == seq![first] + entries);
        lemma_at_split(body, 0, seq![first], entries);
        lemma_at_index(body, 0, seq![first], 0);
        law_walk_emit(7, body, 1, h.mod_ex_entries, outer_type(h));
    }
}

/// Reading a header that was written gives it back, with the number of bytes that were written.
#[verifier::spinoff_prover]
#[verifier::rlimit(50)]
pub proof fn law_read_write(h: ExVideo, behind: Seq<u8>)
    requires
        canonical(h),
        emit_header(h).fault is None,
    ensures
        header(emit_header(h).bytes + behind) == Ok::<Option<ExVideo>, Fault>(
            Some(ExVideo { bytes_consumed: emit_header(h).bytes.len() as int, ..h }),
        ),
{
    let body = emit_header(h).bytes + behind;
    let lead = emit_lead(h).bytes;
    let mid = emit_carrier(h).bytes;
    let last = emit_command(h).bytes;
    assert(emit_header(h).bytes == (lead + mid) + last);
    assert(body.subrange(0, emit_header(h).bytes.len() as int) =~= (lead + mid) + last);
    lemma_at_split(body, 0, lead + mid, last);
    lemma_at_split(body, 0, lead, mid);
    lemma_lead_back(h, body);
    match h.multitrack {
        None => lemma_single_back(h, body, lead.len() as int),
        Some(layout) => lemma_layout_back(h, layout, body, lead.len() as int),
    }
    if commanded(h.frame_type, h.packet_type) {
        lemma_at_index(body, (lead + mid).len() as int, last, 0);
    }
}

/// A header that was read is canonical, and it can be written again unless one of its modifiers
/// holds a million nanoseconds or more.
#[verifier::spinoff_prover]
#[verifier::rlimit(60)]
pub proof fn law_read_is_canonical(body: Seq<u8>)
    ensures
        header(body) matches Ok(Some(h)) ==> canonical(h) && ((forall|i: int|
            0 <= i < h.mod_ex_entries.len() ==> (#[trigger] h.mod_ex_entries[i]).offset() <= 999_999)
            <==> emit_header(h).fault is None),
{
    if let Ok(Some(h)) = header(body) {
        law_walk_is_consistent(7, body, 1, body[0] % 16);
        lemma_chain_advances(7, body, 1, body[0] % 16);
        let (p, last, entries) = chain(7, body, 1, body[0] % 16)->Ok_0;
        law_read_entries_are_writable(7, body, 1, body[0] % 16, last);
        lemma_carrier_writable(body, p, last, h);
        if h.mod_ex_entries.len() == 0 {
            assert(offset_sum(h.mod_ex_entries) == 0);
        }
        assert(h.frame_type == ExFrameType::of(body[0] / 16 % 8));
    }
}

#[verifier::spinoff_prover]
#[verifier::rlimit(60)]
proof fn lemma_carrier_writable(body: Seq<u8>, pos: int, last: u8, h: ExVideo)
    requires
        0 <= pos,
        last < 16,
        last != 7,
        carrier(body, pos, last) matches Ok(c) && c.multitrack == h.multitrack && h.packet_type
            == ExPacketType::of(c.packet_type) && c.fourcc == h.fourcc && (composition(
            body,
            c.end,
            timed(c.multitrack, h.packet_type, c.fourcc),
        ) matches Ok((time, q)) && time == h.composition_time_offset_ms),
    ensures
        outer_type(h) == last,
        emit_carrier(h).fault is None,
        h.packet_type == ExPacketType::of(h.packet_type.code()),
        !wrapper_alone(h),
        h.multitrack matches Some(m) ==> m == AvMultitrackType::of(m.code()),
{
    let c = carrier(body, pos, last)->Ok_0;
    assert(c.packet_type < 16);
    assert(h.packet_type.code() == c.packet_type);
    if timed(c.multitrack, h.packet_type, c.fourcc) {
        let x = u24_at(body, c.end);
        assert(x < 0x100_0000);
        lemma_signed24_range(x);
    }
}

/// Writing a header that was read gives back its bytes, where it has no modifiers. A modifier
/// may have been read from a longer size than it is written with.
#[verifier::spinoff_prover]
#[verifier::rlimit(60)]
pub proof fn law_write_read(body: Seq<u8>)
    ensures
        header(body) matches Ok(Some(h)) ==> h.mod_ex_entries.len() == 0 ==> emit_header(h)
            =~= Emit::put(body.take(h.bytes_consumed)),
{
    if let Ok(Some(h)) = header(body) {
        if h.mod_ex_entries.len() == 0 {
            law_read_is_canonical(body);
            lemma_chain_advances(7, body, 1, body[0] % 16);
            let last = body[0] % 16;
            let c = carrier(body, 1, last)->Ok_0;
            let owed = timed(c.multitrack, h.packet_type, c.fourcc);
            let q = composition(body, c.end, owed)->Ok_0.1;
            assert(outer_type(h) == last) by {
                lemma_carrier_writable(body, 1, last, h);
            }
            lemma_write_carrier(body, 1, last, h);
            assert(emit_lead(h).bytes =~= body.take(1));
            assert(emit_command(h).bytes =~= body.subrange(q, h.bytes_consumed));
            assert(body.take(1) + body.subrange(1, q) =~= body.take(q));
            assert(body.take(q) + body.subrange(q, h.bytes_consumed) =~= body.take(
                h.bytes_consumed,
            ));
        }
    }
}

#[verifier::spinoff_prover]
#[verifier::rlimit(60)]
proof fn lemma_write_carrier(body: Seq<u8>, pos: int, last: u8, h: ExVideo)
    requires
        0 <= pos <= body.len(),
        last < 16,
        last != 7,
        carrier(body, pos, last) matches Ok(c) && c.multitrack == h.multitrack && h.packet_type
            == ExPacketType::of(c.packet_type) && c.fourcc == h.fourcc && (composition(
            body,
            c.end,
            timed(c.multitrack, h.packet_type, c.fourcc),
        ) matches Ok((time, q)) && time == h.composition_time_offset_ms),
    ensures
        ({
            let c = carrier(body, pos, last)->Ok_0;
            let q = composition(
                body,
                c.end,
                timed(c.multitrack, h.packet_type, c.fourcc),
            )->Ok_0.1;
            &&& emit_carrier(h).bytes == body.subrange(pos, q)
            &&& pos <= q <= body.len()
        }),
{
    let c = carrier(body, pos, last)->Ok_0;
    let owed = timed(c.multitrack, h.packet_type, c.fourcc);
    let q = composition(body, c.end, owed)->Ok_0.1;
    assert(c.packet_type < 16);
    assert(h.packet_type.code() == c.packet_type);
    lemma_carrier_writable(body, pos, last, h);
    if let Some(fourcc) = h.fourcc {
        lemma_u32_at(body, c.end - 4);
    }
    match h.multitrack {
        None => {
            if owed {
                lemma_u24_at(body, c.end);
                lemma_signed24_back(u24_at(body, c.end));
                assert(body.subrange(pos, pos + 4) + body.subrange(pos + 4, q) =~= body.subrange(
                    pos,
                    q,
                ));
            } else {
                assert(emit_carrier(h).bytes =~= body.subrange(pos, q));
            }
        },
        Some(layout) => {
            let first = (layout.code() * 16 + h.packet_type.code()) as u8;
            assert(layout.code() == body[pos] / 16);
            assert(first == body[pos]);
            assert(emit_carrier(h).bytes =~= body.subrange(pos, q));
        },
    }
}

/// Two's complement of 24 bits, back and there.
proof fn lemma_signed24_back(x: u32)
    requires
        x < 0x100_0000,
    ensures
        bits24(signed24(x)) == x,
{
}

/// The name of a codec.
pub open spec fn codec_name(fourcc: u32) -> Seq<char> {
    if fourcc == FOURCC_AV01 {
        "av1"@
    } else if fourcc == FOURCC_VP09 {
        "vp9"@
    } else if fourcc == FOURCC_VP08 {
        "vp8"@
    } else if fourcc == FOURCC_HVC1 {
        "h265"@
    } else if fourcc == FOURCC_AVC1 {
        "h264"@
    } else if fourcc == FOURCC_VVC1 {
        "h266"@
    } else {
        "flv:exvideo:"@ + spelled(fourcc)
    }
}

/// The name of a codec; one that is not known is named by its FourCC.
pub fn fourcc_codec_id_str(fourcc: u32) -> (r: String)
    ensures
        r@ == codec_name(fourcc),
{
    if fourcc == FOURCC_AV01 {
        "av1".to_string()
    } else if fourcc == FOURCC_VP09 {
        "vp9".to_string()
    } else if fourcc == FOURCC_VP08 {
        "vp8".to_string()
    } else if fourcc == FOURCC_HVC1 {
        "h265".to_string()
    } else if fourcc == FOURCC_AVC1 {
        "h264".to_string()
    } else if fourcc == FOURCC_VVC1 {
        "h266".to_string()
    } else {
        let mut name = "flv:exvideo:".to_string();
        push_spelled(&mut name, fourcc);
        name
    }
}

} // verus!

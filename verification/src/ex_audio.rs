//! Audio tag headers that name their codec by a FourCC.
//!
//! A sound format of nine says that such a header follows. Behind it stand the packet type,
//! modifiers, the layout of a body of several tracks, and the FourCC.
use vstd::prelude::*;
use vstd::string::*;
use crate::error::{Error, Fault};
use crate::fourcc::{push_spelled, spelled};
use crate::mod_ex::{chain, entries_view, lemma_chain_advances, offset_sum, saturated, walk, ModEx,
    ModExEntry};
pub use crate::mod_ex::AudioPacketModExType;
pub use crate::multitrack::AvMultitrackType;
use crate::wire::{
    be32, lemma_at_index, lemma_at_split, lemma_be32_at, lemma_u32_at, push_u32, read_u32, u32_at,
    wrote, Emit,
};

verus! {

/// The sound format that says that a FourCC header follows.
pub const SOUND_FORMAT_EX_HEADER: u8 = 9;

/// `ac-3`, AC-3.
pub const FOURCC_AC3: u32 = 0x61632d33;

/// `ec-3`, E-AC-3.
pub const FOURCC_EAC3: u32 = 0x65632d33;

/// `Opus`, Opus.
pub const FOURCC_OPUS: u32 = 0x4f707573;

/// `.mp3`, MPEG audio layer III.
pub const FOURCC_MP3: u32 = 0x2e6d7033;

/// `fLaC`, FLAC.
pub const FOURCC_FLAC: u32 = 0x664c6143;

/// `mp4a`, AAC.
pub const FOURCC_AAC: u32 = 0x6d703461;

/// What a packet carries.
#[derive(Clone, Copy, Debug, PartialEq, Eq, Structural)]
pub enum ExAudioPacketType {
    /// The configuration of the codec.
    SequenceStart,
    /// Frames.
    CodedFrames,
    /// Nothing: the sequence is over.
    SequenceEnd,
    /// The code 3.
    Reserved3,
    /// How the channels are laid out.
    MultichannelConfig,
    /// Several tracks.
    Multitrack,
    /// The code 6.
    Reserved6,
    /// A modifier in front of the packet type proper.
    ModEx,
    /// Any other code.
    Reserved(u8),
}

impl ExAudioPacketType {
    /// The packet type with the code `v`.
    pub open spec fn of(v: u8) -> Self {
        if v == 0 {
            ExAudioPacketType::SequenceStart
        } else if v == 1 {
            ExAudioPacketType::CodedFrames
        } else if v == 2 {
            ExAudioPacketType::SequenceEnd
        } else if v == 3 {
            ExAudioPacketType::Reserved3
        } else if v == 4 {
            ExAudioPacketType::MultichannelConfig
        } else if v == 5 {
            ExAudioPacketType::Multitrack
        } else if v == 6 {
            ExAudioPacketType::Reserved6
        } else if v == 7 {
            ExAudioPacketType::ModEx
        } else {
            ExAudioPacketType::Reserved(v)
        }
    }

    /// The four bits that stand for the packet type.
    pub open spec fn code(self) -> u8 {
        match self {
            ExAudioPacketType::SequenceStart => 0,
            ExAudioPacketType::CodedFrames => 1,
            ExAudioPacketType::SequenceEnd => 2,
            ExAudioPacketType::Reserved3 => 3,
            ExAudioPacketType::MultichannelConfig => 4,
            ExAudioPacketType::Multitrack => 5,
            ExAudioPacketType::Reserved6 => 6,
            ExAudioPacketType::ModEx => 7,
            ExAudioPacketType::Reserved(n) => n % 16,
        }
    }

    /// The packet type with the code `v`.
    pub fn from_u8(v: u8) -> (r: Self)
        ensures
            r == Self::of(v),
            v < 16 ==> r.code() == v,
    {
        match v {
            0 => ExAudioPacketType::SequenceStart,
            1 => ExAudioPacketType::CodedFrames,
            2 => ExAudioPacketType::SequenceEnd,
            3 => ExAudioPacketType::Reserved3,
            4 => ExAudioPacketType::MultichannelConfig,
            5 => ExAudioPacketType::Multitrack,
            6 => ExAudioPacketType::Reserved6,
            7 => ExAudioPacketType::ModEx,
            other => ExAudioPacketType::Reserved(other),
        }
    }

    /// The four bits that stand for the packet type.
    pub fn to_u8(self) -> (r: u8)
        ensures
            r == self.code(),
            r < 16,
    {
        match self {
            ExAudioPacketType::SequenceStart => 0,
            ExAudioPacketType::CodedFrames => 1,
            ExAudioPacketType::SequenceEnd => 2,
            ExAudioPacketType::Reserved3 => 3,
            ExAudioPacketType::MultichannelConfig => 4,
            ExAudioPacketType::Multitrack => 5,
            ExAudioPacketType::Reserved6 => 6,
            ExAudioPacketType::ModEx => 7,
            ExAudioPacketType::Reserved(n) => n % 16,
        }
    }
}

/// An audio tag header that names its codec by a FourCC.
#[derive(Debug, PartialEq, Eq)]
pub struct ExAudioTagHeader {
    /// What the packet carries. Of a packet of several tracks, only that it is one.
    pub packet_type: ExAudioPacketType,
    /// The codec; none where each track names its own.
    pub fourcc: Option<u32>,
    /// The layout of a body of several tracks.
    pub multitrack: Option<AvMultitrackType>,
    /// Sum of the nanoseconds of the modifiers.
    pub timestamp_offset_nano: u32,
    /// The modifiers in front of the packet type, in order.
    pub mod_ex_entries: Vec<ModExEntry>,
    /// The number of bytes that the header takes; the payload is behind them.
    pub bytes_consumed: usize,
}

/// What a header is, apart from how it is held in memory.
#[verifier::ext_equal]
pub struct ExAudio {
    pub packet_type: ExAudioPacketType,
    pub fourcc: Option<u32>,
    pub multitrack: Option<AvMultitrackType>,
    pub timestamp_offset_nano: u32,
    pub mod_ex_entries: Seq<ModEx>,
    pub bytes_consumed: int,
}

impl View for ExAudioTagHeader {
    type V = ExAudio;

    open spec fn view(&self) -> ExAudio {
        ExAudio {
            packet_type: self.packet_type,
            fourcc: self.fourcc,
            multitrack: self.multitrack,
            timestamp_offset_nano: self.timestamp_offset_nano,
            mod_ex_entries: entries_view(self.mod_ex_entries@),
            bytes_consumed: self.bytes_consumed as int,
        }
    }
}

impl Clone for ExAudioTagHeader {
    fn clone(&self) -> (r: Self)
        ensures
            r@ == self@,
    {
        let entries = self.mod_ex_entries.clone();
        assert forall|i: int| 0 <= i < entries@.len() implies entries@[i]@
            == self.mod_ex_entries@[i]@ by {
            assert(cloned(self.mod_ex_entries@[i], entries@[i]));
        }
        assert(entries_view(entries@) =~= entries_view(self.mod_ex_entries@));
        ExAudioTagHeader {
            packet_type: self.packet_type,
            fourcc: self.fourcc,
            multitrack: self.multitrack,
            timestamp_offset_nano: self.timestamp_offset_nano,
            mod_ex_entries: entries,
            bytes_consumed: self.bytes_consumed,
        }
    }
}

// ---- reading --------------------------------------------------------------

/// The layout and the codec at `pos`, behind a packet type, and where they end.
pub open spec fn carrier(body: Seq<u8>, pos: int, packet_type: u8) -> Result<
    (Option<AvMultitrackType>, Option<u32>, int),
    Fault,
> {
    if packet_type == 5 {
        if pos >= body.len() {
            Err(Fault::ExAudioTruncatedMultitrack)
        } else {
            let layout = AvMultitrackType::of(body[pos] / 16);
            if body[pos] % 16 == 5 {
                Err(Fault::ExAudioNestedMultitrack)
            } else if layout is ManyTracksManyCodecs {
                Ok((Some(layout), None, pos + 1))
            } else if pos + 5 > body.len() {
                Err(Fault::ExAudioTruncatedMultitrackFourCc)
            } else {
                Ok((Some(layout), Some(u32_at(body, pos + 1)), pos + 5))
            }
        }
    } else if pos + 4 > body.len() {
        Err(Fault::ExAudioTruncatedFourCc)
    } else {
        Ok((None, Some(u32_at(body, pos)), pos + 4))
    }
}

/// The header at the start of a body; none where the body starts with a plain audio header.
pub open spec fn header(body: Seq<u8>) -> Result<Option<ExAudio>, Fault> {
    if body.len() == 0 || body[0] / 16 != SOUND_FORMAT_EX_HEADER {
        Ok(None)
    } else {
        match chain(7, body, 1, body[0] % 16) {
            Err(f) => Err(f),
            Ok((p, last, entries)) => match carrier(body, p, last) {
                Err(f) => Err(f),
                Ok((multitrack, fourcc, end)) => Ok(
                    Some(
                        ExAudio {
                            packet_type: ExAudioPacketType::of(last),
                            fourcc,
                            multitrack,
                            timestamp_offset_nano: saturated(offset_sum(entries)),
                            mod_ex_entries: entries,
                            bytes_consumed: end,
                        },
                    ),
                ),
            },
        }
    }
}

impl ExAudioTagHeader {
    /// Reads the header at the start of a body; none where the body starts with a plain audio
    /// header, or is empty.
    pub fn parse(body: &[u8]) -> (r: Result<Option<Self>, Error>)
        ensures
            match (r, header(body@)) {
                (Ok(Some(h)), Ok(Some(x))) => h@ == x && h.bytes_consumed <= body@.len(),
                (Ok(None), Ok(None)) => true,
                (Err(e), Err(f)) => e == Error::InvalidData(f),
                _ => false,
            },
    {
        if body.len() == 0 || body[0] / 16 != SOUND_FORMAT_EX_HEADER {
            return Ok(None);
        }
        let (p, last, mod_ex_entries, timestamp_offset_nano) = walk::<7>(body, 1, body[0] % 16)?;
        let packet_type = ExAudioPacketType::from_u8(last);
        let mut multitrack: Option<AvMultitrackType> = None;
        let mut fourcc: Option<u32> = None;
        let mut end: usize = p;
        if last == 5 {
            if p >= body.len() {
                return Err(Error::InvalidData(Fault::ExAudioTruncatedMultitrack));
            }
            if body[p] % 16 == 5 {
                return Err(Error::InvalidData(Fault::ExAudioNestedMultitrack));
            }
            let layout = AvMultitrackType::from_u8(body[p] / 16);
            multitrack = Some(layout);
            end = p + 1;
            if !layout.is_many_codecs() {
                if body.len() - end < 4 {
                    return Err(Error::InvalidData(Fault::ExAudioTruncatedMultitrackFourCc));
                }
                fourcc = Some(read_u32(body, end));
                end = end + 4;
            }
        } else {
            if body.len() - p < 4 {
                return Err(Error::InvalidData(Fault::ExAudioTruncatedFourCc));
            }
            fourcc = Some(read_u32(body, p));
            end = p + 4;
        }
        Ok(
            Some(
                ExAudioTagHeader {
                    packet_type,
                    fourcc,
                    multitrack,
                    timestamp_offset_nano,
                    mod_ex_entries,
                    bytes_consumed: end,
                },
            ),
        )
    }
}

// ---- writing --------------------------------------------------------------

/// The header of one track without modifiers.
pub open spec fn emit_header(h: ExAudio) -> Emit {
    if h.mod_ex_entries.len() > 0 {
        Emit::stop(Fault::ExAudioEntriesNotWritten)
    } else if h.timestamp_offset_nano != 0 {
        Emit::stop(Fault::ExAudioOffsetWithoutEntries)
    } else if h.multitrack is Some {
        Emit::stop(Fault::ExAudioMultitrackNotWritten)
    } else if h.packet_type.code() == 5 || h.packet_type.code() == 7 {
        Emit::stop(Fault::ExAudioWrapperPacketType)
    } else {
        Emit::put(seq![(SOUND_FORMAT_EX_HEADER * 16 + h.packet_type.code()) as u8]).and(
            match h.fourcc {
                None => Emit::stop(Fault::ExAudioNoFourCc),
                Some(fourcc) => Emit::put(be32(fourcc)),
            },
        )
    }
}

impl ExAudioTagHeader {
    /// Appends the header; the payload goes behind it.
    ///
    /// Headers of several tracks, and those with modifiers, are not written, nor are packet types
    /// that announce one of these. Where the FourCC is missing, the first byte stays in `out`.
    pub fn to_bytes(&self, out: &mut Vec<u8>) -> (r: Result<(), Error>)
        ensures
            wrote(old(out)@, final(out)@, r, emit_header(self@)),
    {
        assert(out@ =~= old(out)@ + Seq::<u8>::empty());
        if self.mod_ex_entries.len() > 0 {
            return Err(Error::InvalidData(Fault::ExAudioEntriesNotWritten));
        }
        if self.timestamp_offset_nano != 0 {
            return Err(Error::InvalidData(Fault::ExAudioOffsetWithoutEntries));
        }
        if self.multitrack.is_some() {
            return Err(Error::InvalidData(Fault::ExAudioMultitrackNotWritten));
        }
        let code: u8 = self.packet_type.to_u8();
        if code == 5 || code == 7 {
            return Err(Error::InvalidData(Fault::ExAudioWrapperPacketType));
        }
        out.push(SOUND_FORMAT_EX_HEADER * 16 + code);
        let fourcc: u32 = match self.fourcc {
            Some(f) => f,
            None => {
                assert(out@ =~= old(out)@ + emit_header(self@).bytes);
                return Err(Error::InvalidData(Fault::ExAudioNoFourCc));
            },
        };
        push_u32(out, fourcc);
        assert(out@ =~= old(out)@ + emit_header(self@).bytes);
        Ok(())
    }
}

/// Reading a header that was written gives it back, with the number of bytes that were written.
/// Its packet type must be what its code is read as.
pub proof fn law_read_write(h: ExAudio, behind: Seq<u8>)
    requires
        emit_header(h).fault is None,
        h.packet_type == ExAudioPacketType::of(h.packet_type.code()),
    ensures
        header(emit_header(h).bytes + behind) == Ok::<Option<ExAudio>, Fault>(
            Some(ExAudio { bytes_consumed: emit_header(h).bytes.len() as int, ..h }),
        ),
{
    let all = emit_header(h).bytes;
    let body = all + behind;
    let fourcc = h.fourcc->0;
    let first = (SOUND_FORMAT_EX_HEADER * 16 + h.packet_type.code()) as u8;
    assert(all =~= seq![first] + be32(fourcc));
    assert(body.subrange(0, all.len() as int) =~= all);
    lemma_at_split(body, 0, seq![first], be32(fourcc));
    lemma_at_index(body, 0, seq![first], 0);
    lemma_be32_at(body, 1, fourcc);
    assert(h.packet_type.code() < 16 && h.packet_type.code() != 7 && h.packet_type.code() != 5);
    assert(h.mod_ex_entries =~= Seq::empty());
    assert(offset_sum(h.mod_ex_entries) == 0);
}

/// Writing a header of one track without modifiers that was read gives back its bytes.
pub proof fn law_write_read(body: Seq<u8>)
    ensures
        header(body) matches Ok(Some(h)) ==> h.mod_ex_entries.len() == 0 && h.multitrack is None
            ==> emit_header(h) =~= Emit::put(body.take(h.bytes_consumed)),
{
    if let Ok(Some(h)) = header(body) {
        if h.mod_ex_entries.len() == 0 && h.multitrack is None {
            lemma_chain_advances(7, body, 1, body[0] % 16);
            lemma_u32_at(body, 1);
            assert(offset_sum(h.mod_ex_entries) == 0);
            assert(h.packet_type.code() == body[0] % 16);
            assert(emit_header(h).bytes =~= body.take(1) + body.subrange(1, 5));
            assert(body.take(1) + body.subrange(1, 5) =~= body.take(5));
        }
    }
}

/// The name of a codec.
pub open spec fn codec_name(fourcc: u32) -> Seq<char> {
    if fourcc == FOURCC_AC3 {
        "ac3"@
    } else if fourcc == FOURCC_EAC3 {
        "eac3"@
    } else if fourcc == FOURCC_OPUS {
        "opus"@
    } else if fourcc == FOURCC_MP3 {
        "mp3"@
    } else if fourcc == FOURCC_FLAC {
        "flac"@
    } else if fourcc == FOURCC_AAC {
        "aac"@
    } else {
        "flv:exaudio:"@ + spelled(fourcc)
    }
}

/// The name of a codec; one that is not known is named by its FourCC.
pub fn fourcc_audio_codec_id_str(fourcc: u32) -> (r: String)
    ensures
        r@ == codec_name(fourcc),
{
    if fourcc == FOURCC_AC3 {
        "ac3".to_string()
    } else if fourcc == FOURCC_EAC3 {
        "eac3".to_string()
    } else if fourcc == FOURCC_OPUS {
        "opus".to_string()
    } else if fourcc == FOURCC_MP3 {
        "mp3".to_string()
    } else if fourcc == FOURCC_FLAC {
        "flac".to_string()
    } else if fourcc == FOURCC_AAC {
        "aac".to_string()
    } else {
        let mut name = "flv:exaudio:".to_string();
        push_spelled(&mut name, fourcc);
        name
    }
}

} // verus!

//! Taking a file apart: what it says of itself, its streams, and its packets.
//!
//! [`discover::Opening`] looks for the streams tag by tag, and [`session::Session`] turns tags
//! into packets; whoever has the bytes hands them over. [`FlvDemuxer`] does so for a file in
//! memory.
use vstd::prelude::*;
use vstd::slice::slice_subrange;
use crate::double::Double;
use crate::error::{Error, Fault};
use crate::header::FlvHeader;
use crate::multitrack::{packet_tracks_view, MultitrackPacketTrack};
use crate::tag::{TagHeader, TAG_HEADER_LEN};
use crate::wire::copy_range;

pub mod bytes;
pub mod described;
pub mod discover;
pub mod discovery;
pub mod entries;
pub mod facts;
pub mod frames;
pub mod harvest;
pub mod keys;
pub mod laws;
pub mod notes;
pub mod packet;
pub mod said;
pub mod seek;
pub mod session;
pub mod stream;
pub mod tracks;
pub mod written;
use discover::{complete, found, see, Opening, Scan, MAX_DISCOVERY_TAGS};
use entries::{entries_view, Entry};
use facts::KeyframeIndex;
use packet::{Frame, Packet};
use session::{handled, told_by, Session, Told};
use stream::{picture, sound, AudioStream, Picture, Sound, VideoStream};

verus! {

/// The place of the first tag, behind the file header and the size of the tag before the first.
pub const FIRST_TAG: usize = 13;

/// How sure it is that bytes are the start of a file of this format: wholly, or not at all.
pub fn probe(buf: &[u8]) -> (r: u8)
    ensures
        r == (if crate::header::header(buf@) is Ok {
            100u8
        } else {
            0u8
        }),
{
    match FlvHeader::read(buf) {
        Ok(_) => 100,
        Err(_) => 0,
    }
}

// ---- tags -------------------------------------------------------------------

/// The header of the tag at `pos`.
pub open spec fn tag_at(input: Seq<u8>, pos: int) -> Result<TagHeader, Error> {
    if pos >= input.len() {
        Err(Error::Eof)
    } else if pos + TAG_HEADER_LEN > input.len() {
        Err(Error::UnexpectedEof)
    } else {
        Ok(crate::tag::header(input.skip(pos)))
    }
}

/// Where the tag at `pos` ends, with the size that stands behind its payload.
pub open spec fn tag_end(h: TagHeader, pos: int) -> int {
    pos + TAG_HEADER_LEN + h.data_size + 4
}

/// The payload of the tag at `pos`.
pub open spec fn tag_body(input: Seq<u8>, h: TagHeader, pos: int) -> Seq<u8> {
    input.subrange(pos + TAG_HEADER_LEN, pos + TAG_HEADER_LEN + h.data_size)
}

fn read_tag(input: &Vec<u8>, pos: u64) -> (r: Result<TagHeader, Error>)
    ensures
        r == tag_at(input@, pos as int),
        r matches Ok(h) ==> pos + TAG_HEADER_LEN <= input@.len() && h.data_size < 0x100_0000,
{
    if pos >= input.len() as u64 {
        return Err(Error::Eof);
    }
    let p: usize = pos as usize;
    if input.len() - p < TAG_HEADER_LEN as usize {
        return Err(Error::UnexpectedEof);
    }
    let rest = slice_subrange(input.as_slice(), p, input.len());
    assert(rest@ =~= input@.skip(pos as int));
    TagHeader::read(rest)
}

/// The payload of a tag that is all there.
fn read_body(input: &Vec<u8>, h: &TagHeader, pos: u64) -> (r: Option<Vec<u8>>)
    requires
        pos + TAG_HEADER_LEN <= input@.len(),
    ensures
        r is Some <==> tag_end(*h, pos as int) <= input@.len(),
        r matches Some(b) ==> b@ == tag_body(input@, *h, pos as int),
{
    let len: usize = input.len();
    let start: usize = pos as usize + TAG_HEADER_LEN as usize;
    let left: u64 = (len - start) as u64;
    if left < h.data_size as u64 + 4 {
        return None;
    }
    Some(copy_range(input.as_slice(), start, start + h.data_size as usize))
}

// ---- opening ----------------------------------------------------------------

/// What the tags from `pos` on add, up to `left` of them, until both streams are found. Tags of
/// an unknown kind are passed over.
pub open spec fn scan(input: Seq<u8>, pos: int, left: nat, st: Scan) -> Result<Scan, Error>
    decreases left,
{
    if left == 0 || complete(st) {
        Ok(st)
    } else {
        match tag_at(input, pos) {
            Err(Error::Eof) => Ok(st),
            Err(e) => Err(e),
            Ok(h) => match h.kind {
                None => scan(input, tag_end(h, pos), (left - 1) as nat, st),
                Some(kind) => if tag_end(h, pos) > input.len() {
                    Err(Error::UnexpectedEof)
                } else {
                    match see(st, kind, h, tag_body(input, h, pos)) {
                        Err(e) => Err(e),
                        Ok(next) => scan(input, tag_end(h, pos), (left - 1) as nat, next),
                    }
                },
            },
        }
    }
}

fn discover(input: &Vec<u8>) -> (r: Result<Opening, Error>)
    ensures
        match (r, scan(input@, FIRST_TAG as int, MAX_DISCOVERY_TAGS as nat, Scan::none())) {
            (Ok(f), Ok(x)) => f@.scan == x && x.well_formed(),
            (Err(e), Err(x)) => e == x,
            _ => false,
        },
{
    let mut opening = Opening::new();
    let ghost goal = scan(input@, FIRST_TAG as int, MAX_DISCOVERY_TAGS as nat, Scan::none());
    let mut pos: u64 = FIRST_TAG as u64;
    while opening.wants_more()
        invariant
            opening@.scan.well_formed(),
            goal == scan(input@, FIRST_TAG as int, MAX_DISCOVERY_TAGS as nat, Scan::none()),
            goal == scan(input@, pos as int, opening@.left, opening@.scan),
        decreases opening@.left,
    {
        let h = match read_tag(input, pos) {
            Ok(h) => h,
            Err(Error::Eof) => {
                return Ok(opening);
            },
            Err(e) => {
                return Err(e);
            },
        };
        let len: u64 = input.len() as u64;
        let ghost st = opening@.scan;
        match read_body(input, &h, pos) {
            None => {
                if h.kind.is_some() {
                    return Err(Error::UnexpectedEof);
                }
                assert(scan(input@, tag_end(h, pos as int), (opening@.left - 1) as nat, st) == Ok::<
                    Scan,
                    Error,
                >(st));
                return Ok(opening);
            },
            Some(body) => {
                if let Err(e) = opening.take_tag(&h, body) {
                    return Err(e);
                }
            },
        }
        assert(tag_end(h, pos as int) <= len);
        pos = pos + TAG_HEADER_LEN as u64 + h.data_size as u64 + 4;
    }
    Ok(opening)
}

/// What a file that was taken apart is, apart from how it is held in memory.
#[verifier::ext_equal]
pub struct Reader {
    pub input: Seq<u8>,
    /// The place of the next tag.
    pub pos: int,
    pub told: Told,
}

impl Reader {
    /// What the file is known to hold makes sense.
    pub open spec fn well_formed(self) -> bool {
        0 <= self.pos && self.told.well_formed()
    }
}

/// A file taken apart: it has a header, and a stream or a script among the tags that are looked
/// at.
pub open spec fn opened(input: Seq<u8>) -> Result<Reader, Error> {
    match crate::header::header(input) {
        Err(e) => Err(e),
        Ok(_) => if input.len() < FIRST_TAG {
            Err(Error::UnexpectedEof)
        } else {
            match scan(input, FIRST_TAG as int, MAX_DISCOVERY_TAGS as nat, Scan::none()) {
                Err(e) => Err(e),
                Ok(st) => if found(st) {
                    Ok(Reader { input, pos: FIRST_TAG as int, told: told_by(st) })
                } else {
                    Err(Error::InvalidData(Fault::NoStreams))
                },
            }
        },
    }
}

/// A file in memory that was taken apart.
#[derive(Debug)]
pub struct FlvDemuxer {
    input: Vec<u8>,
    pos: u64,
    session: Session,
}

impl View for FlvDemuxer {
    type V = Reader;

    closed spec fn view(&self) -> Reader {
        Reader { input: self.input@, pos: self.pos as int, told: self.session@ }
    }
}

/// Takes a file apart.
pub fn open(input: Vec<u8>) -> (r: Result<FlvDemuxer, Error>)
    ensures
        match (r, opened(input@)) {
            (Ok(d), Ok(x)) => d@ == x && x.well_formed(),
            (Err(e), Err(x)) => e == x,
            _ => false,
        },
{
    if let Err(e) = FlvHeader::read(input.as_slice()) {
        return Err(e);
    }
    if input.len() < FIRST_TAG {
        return Err(Error::UnexpectedEof);
    }
    let opening = match discover(&input) {
        Ok(f) => f,
        Err(e) => {
            return Err(e);
        },
    };
    match opening.finish() {
        Ok(session) => Ok(FlvDemuxer { input, pos: FIRST_TAG as u64, session }),
        Err(e) => Err(e),
    }
}

// ---- packets ----------------------------------------------------------------

/// What a tag that is all there gives, and the file behind it.
pub open spec fn step(r: Reader, h: TagHeader) -> (Result<Option<Frame>, Error>, Reader) {
    let (out, told) = handled(r.told, h, tag_body(r.input, h, r.pos));
    (out, Reader { pos: tag_end(h, r.pos), told, ..r })
}

/// The next packet, and the file behind it: the first that a tag from here on gives. A file that
/// ends inside a tag has ended.
pub open spec fn next(r: Reader) -> (Result<Frame, Error>, Reader)
    decreases r.input.len() - r.pos,
{
    match tag_at(r.input, r.pos) {
        Err(Error::Eof) => (Err(Error::Eof), r),
        Err(e) => (Err(e), Reader { pos: r.input.len() as int, ..r }),
        Ok(h) => if tag_end(h, r.pos) > r.input.len() {
            (Err(Error::UnexpectedEof), Reader { pos: r.input.len() as int, ..r })
        } else {
            let (out, n) = step(r, h);
            match out {
                Err(e) => (Err(e), n),
                Ok(Some(f)) => (Ok(f), n),
                Ok(None) => next(n),
            }
        },
    }
}

/// The packet, or the error.
pub open spec fn result_view(r: Result<Packet, Error>) -> Result<Frame, Error> {
    match r {
        Ok(p) => Ok(p@),
        Err(e) => Err(e),
    }
}

impl FlvDemuxer {
    /// The name of the format.
    pub fn format_name(&self) -> (r: &'static str)
        ensures
            r@ == "flv"@,
    {
        "flv"
    }

    /// What the file says of itself.
    pub fn metadata(&self) -> (r: &Vec<Entry>)
        ensures
            entries_view(r@) == self@.told.entries,
    {
        self.session.metadata()
    }

    /// The length of the file in seconds.
    pub fn duration_seconds(&self) -> (r: Option<Double>)
        ensures
            r == self@.told.duration,
    {
        self.session.duration_seconds()
    }

    /// Whether the file says that it is encrypted.
    pub fn is_encrypted(&self) -> (r: bool)
        ensures
            r == self@.told.encrypted,
    {
        self.session.is_encrypted()
    }

    /// The table of keyframes.
    pub fn keyframe_index(&self) -> (r: Option<&KeyframeIndex>)
        ensures
            match (r, self@.told.keyframes) {
                (Some(k), Some(t)) => k@ == t,
                (None, None) => true,
                _ => false,
            },
    {
        self.session.keyframe_index()
    }

    /// The tracks of the last tag that carried several, in order, among the tags that were read
    /// for packets. There are none before the first such tag, and where its tracks cannot be
    /// told apart.
    pub fn last_multitrack_tracks(&self) -> (r: &Vec<MultitrackPacketTrack>)
        ensures
            packet_tracks_view(r@) == self@.told.tracks,
    {
        self.session.last_multitrack_tracks()
    }

    /// The number of streams.
    pub fn stream_count(&self) -> (r: u32)
        ensures
            r == self@.told.stream_count(),
    {
        self.session.stream_count()
    }

    /// The index of the stream of audio.
    pub fn audio_stream_index(&self) -> (r: Option<u32>)
        ensures
            r == self@.told.audio_index(),
    {
        self.session.audio_stream_index()
    }

    /// The index of the stream of video.
    pub fn video_stream_index(&self) -> (r: Option<u32>)
        ensures
            r == self@.told.video_index(),
    {
        self.session.video_stream_index()
    }

    /// The metadata in front of the stream of audio.
    pub fn audio_metadata(&self) -> (r: Option<&Vec<Entry>>)
        ensures
            match (r, self@.told.audio) {
                (Some(v), Some(s)) => entries_view(v@) == s.entries,
                (None, None) => true,
                _ => false,
            },
    {
        self.session.audio_metadata()
    }

    /// The metadata in front of the stream of video.
    pub fn video_metadata(&self) -> (r: Option<&Vec<Entry>>)
        ensures
            match (r, self@.told.video) {
                (Some(v), Some(s)) => entries_view(v@) == s.entries,
                (None, None) => true,
                _ => false,
            },
    {
        self.session.video_metadata()
    }

    /// Describes the stream of audio. `readings` has, for each entry of [`Self::audio_metadata`]
    /// that is a text, the number that it reads as.
    pub fn audio_stream(&self, readings: &[Option<Double>]) -> (r: Option<AudioStream>)
        requires
            self@.well_formed(),
        ensures
            match (r, self@.told.audio) {
                (Some(d), Some(s)) => Ok::<Sound, Fault>(d@) == sound(
                    s.body,
                    s.entries,
                    readings@,
                    self@.told.channel_count,
                ),
                (None, None) => true,
                _ => false,
            },
    {
        self.session.audio_stream(readings)
    }

    /// Describes the stream of video. `readings` has, for each entry of [`Self::video_metadata`]
    /// that is a text, the number that it reads as.
    pub fn video_stream(&self, readings: &[Option<Double>]) -> (r: Option<VideoStream>)
        requires
            self@.well_formed(),
        ensures
            match (r, self@.told.video) {
                (Some(d), Some(s)) => Ok::<Picture, Fault>(d@) == picture(
                    s.body,
                    s.entries,
                    readings@,
                ),
                (None, None) => true,
                _ => false,
            },
    {
        self.session.video_stream(readings)
    }

    pub(crate) fn finish(&mut self)
        requires
            old(self)@.well_formed(),
        ensures
            final(self)@ == (Reader { pos: old(self)@.input.len() as int, ..old(self)@ }),
            final(self)@.well_formed(),
    {
        self.pos = self.input.len() as u64;
        assert(self@ =~= (Reader { pos: old(self)@.input.len() as int, ..old(self)@ }));
    }

    /// The next packet.
    pub fn next_packet(&mut self) -> (r: Result<Packet, Error>)
        requires
            old(self)@.well_formed(),
        ensures
            (result_view(r), final(self)@) == next(old(self)@),
            final(self)@.well_formed(),
    {
        let ghost goal = next(self@);
        loop
            invariant
                self@.well_formed(),
                goal == next(old(self)@),
                goal == next(self@),
            decreases self@.input.len() - self@.pos,
        {
            let h = match read_tag(&self.input, self.pos) {
                Ok(h) => h,
                Err(Error::Eof) => {
                    return Err(Error::Eof);
                },
                Err(e) => {
                    self.finish();
                    return Err(e);
                },
            };
            let body = match read_body(&self.input, &h, self.pos) {
                Some(b) => b,
                None => {
                    self.finish();
                    return Err(Error::UnexpectedEof);
                },
            };
            let len: u64 = self.input.len() as u64;
            let ghost before = self@;
            assert(tag_end(h, before.pos) <= len);
            self.pos = self.pos + TAG_HEADER_LEN as u64 + h.data_size as u64 + 4;
            let out = self.session.take_tag(&h, body.as_slice());
            assert(self@ =~= step(before, h).1);
            match out {
                Err(e) => {
                    return Err(e);
                },
                Ok(Some(p)) => {
                    return Ok(p);
                },
                Ok(None) => {},
            }
        }
    }
}

} // verus!

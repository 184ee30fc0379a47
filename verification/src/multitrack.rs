//! Bodies that carry several tracks at one timestamp.
//!
//! Each track is a record: a FourCC where the tracks differ in codec, an id, a size where there
//! may be more than one track, and the bytes of the track.
use std::ops::Range;
use vstd::prelude::*;
use vstd::std_specs::convert::FromSpecImpl;
use crate::error::{Error, Fault};
use crate::wire::{at, be24, be32, lemma_at_index, lemma_at_split, lemma_be24_at, lemma_be32_at, lemma_u24_at,
    lemma_u32_at, push_bytes, push_u24, push_u32, read_u24, read_u32, u24_at, u32_at};

verus! {

/// How the tracks of a body are laid out.
#[derive(Clone, Copy, Debug, PartialEq, Eq, Structural)]
pub enum AvMultitrackType {
    /// One track, which runs to the end of the body.
    OneTrack,
    /// Tracks of one codec.
    ManyTracks,
    /// Tracks that each name their codec.
    ManyTracksManyCodecs,
    /// Any other code.
    Reserved(u8),
}

impl AvMultitrackType {
    /// The layout with the code `v`.
    pub open spec fn of(v: u8) -> Self {
        if v == 0 {
            AvMultitrackType::OneTrack
        } else if v == 1 {
            AvMultitrackType::ManyTracks
        } else if v == 2 {
            AvMultitrackType::ManyTracksManyCodecs
        } else {
            AvMultitrackType::Reserved(v)
        }
    }

    /// The four bits that stand for the layout.
    pub open spec fn code(self) -> u8 {
        match self {
            AvMultitrackType::OneTrack => 0,
            AvMultitrackType::ManyTracks => 1,
            AvMultitrackType::ManyTracksManyCodecs => 2,
            AvMultitrackType::Reserved(n) => n % 16,
        }
    }

    /// The layout with the code `v`.
    pub fn from_u8(v: u8) -> (r: Self)
        ensures
            r == Self::of(v),
            v < 16 ==> r.code() == v,
    {
        match v {
            0 => AvMultitrackType::OneTrack,
            1 => AvMultitrackType::ManyTracks,
            2 => AvMultitrackType::ManyTracksManyCodecs,
            other => AvMultitrackType::Reserved(other),
        }
    }

    /// The four bits that stand for the layout.
    pub fn to_u8(self) -> (r: u8)
        ensures
            r == self.code(),
            r < 16,
    {
        match self {
            AvMultitrackType::OneTrack => 0,
            AvMultitrackType::ManyTracks => 1,
            AvMultitrackType::ManyTracksManyCodecs => 2,
            AvMultitrackType::Reserved(n) => n % 16,
        }
    }

    /// Whether this is the layout of one track.
    pub fn is_one_track(self) -> (r: bool)
        ensures
            r == (self is OneTrack),
    {
        matches!(self, AvMultitrackType::OneTrack)
    }

    /// Whether each track names its codec.
    pub fn is_many_codecs(self) -> (r: bool)
        ensures
            r == (self is ManyTracksManyCodecs),
    {
        matches!(self, AvMultitrackType::ManyTracksManyCodecs)
    }
}

/// One track of a body.
#[derive(Debug, PartialEq, Eq)]
pub struct MultitrackTrack {
    /// Zero for the default track. Ids say nothing of order or quality.
    pub track_id: u8,
    /// Codec of the track.
    pub fourcc: u32,
    /// Where the bytes of the track stand in the body.
    pub payload: Range<usize>,
}

/// What a track is, apart from how it is held in memory.
pub struct Track {
    pub track_id: u8,
    pub fourcc: u32,
    pub start: int,
    pub end: int,
}

impl View for MultitrackTrack {
    type V = Track;

    open spec fn view(&self) -> Track {
        Track {
            track_id: self.track_id,
            fourcc: self.fourcc,
            start: self.payload.start as int,
            end: self.payload.end as int,
        }
    }
}

impl Clone for MultitrackTrack {
    fn clone(&self) -> (r: Self)
        ensures
            r == *self,
    {
        MultitrackTrack {
            track_id: self.track_id,
            fourcc: self.fourcc,
            payload: self.payload.start..self.payload.end,
        }
    }
}

/// The tracks of a run.
pub open spec fn tracks_view(s: Seq<MultitrackTrack>) -> Seq<Track> {
    Seq::new(s.len(), |i: int| s[i]@)
}

impl MultitrackTrack {
    /// The number of bytes of the track.
    pub fn len(&self) -> (r: usize)
        requires
            self.payload.start <= self.payload.end,
        ensures
            r == self@.end - self@.start,
    {
        self.payload.end - self.payload.start
    }

    /// Whether the track has no bytes.
    pub fn is_empty(&self) -> (r: bool)
        ensures
            r == (self@.end <= self@.start),
    {
        self.payload.end <= self.payload.start
    }
}

/// One track with its bytes and the name of its codec.
#[derive(Debug, PartialEq, Eq)]
pub struct MultitrackPacketTrack {
    /// Zero for the default track. Ids say nothing of order or quality.
    pub track_id: u8,
    /// Codec of the track.
    pub fourcc: u32,
    /// Name of the codec.
    pub codec_name: String,
    /// The bytes of the track.
    pub payload: Vec<u8>,
}

/// What a track with its bytes is, apart from how it is held in memory.
pub struct PacketTrack {
    pub track_id: u8,
    pub fourcc: u32,
    pub codec_name: Seq<char>,
    pub payload: Seq<u8>,
}

impl View for MultitrackPacketTrack {
    type V = PacketTrack;

    open spec fn view(&self) -> PacketTrack {
        PacketTrack {
            track_id: self.track_id,
            fourcc: self.fourcc,
            codec_name: self.codec_name@,
            payload: self.payload@,
        }
    }
}

/// The tracks of a run.
pub open spec fn packet_tracks_view(s: Seq<MultitrackPacketTrack>) -> Seq<PacketTrack> {
    Seq::new(s.len(), |i: int| s[i]@)
}

impl Clone for MultitrackPacketTrack {
    fn clone(&self) -> (r: Self)
        ensures
            r@ == self@,
    {
        let payload = self.payload.clone();
        assert(payload@ =~= self.payload@);
        MultitrackPacketTrack {
            track_id: self.track_id,
            fourcc: self.fourcc,
            codec_name: self.codec_name.clone(),
            payload,
        }
    }
}

impl MultitrackPacketTrack {
    /// The number of bytes of the track.
    pub fn len(&self) -> (r: usize)
        ensures
            r == self.payload@.len(),
    {
        self.payload.len()
    }

    /// Whether the track has no bytes.
    pub fn is_empty(&self) -> (r: bool)
        ensures
            r == (self.payload@.len() == 0),
    {
        self.payload.len() == 0
    }
}

/// One track to be written.
#[derive(Debug, PartialEq, Eq)]
pub struct JoinTrack {
    /// Zero for the default track. Ids say nothing of order or quality.
    pub track_id: u8,
    /// Codec of the track; it is written only where the tracks differ in codec.
    pub fourcc: u32,
    /// The bytes of the track.
    pub payload: Vec<u8>,
}

/// What a track to be written is, apart from how it is held in memory.
pub struct Part {
    pub track_id: u8,
    pub fourcc: u32,
    pub payload: Seq<u8>,
}

impl View for JoinTrack {
    type V = Part;

    open spec fn view(&self) -> Part {
        Part { track_id: self.track_id, fourcc: self.fourcc, payload: self.payload@ }
    }
}

impl Clone for JoinTrack {
    fn clone(&self) -> (r: Self)
        ensures
            r@ == self@,
    {
        let payload = self.payload.clone();
        assert(payload@ =~= self.payload@);
        JoinTrack { track_id: self.track_id, fourcc: self.fourcc, payload }
    }
}

/// The tracks of a run.
pub open spec fn parts_view(s: Seq<JoinTrack>) -> Seq<Part> {
    Seq::new(s.len(), |i: int| s[i]@)
}

impl JoinTrack {
    /// A track of its parts.
    pub fn new(track_id: u8, fourcc: u32, payload: Vec<u8>) -> (r: Self)
        ensures
            r == (JoinTrack { track_id, fourcc, payload }),
    {
        JoinTrack { track_id, fourcc, payload }
    }

    /// The number of bytes of the track.
    pub fn len(&self) -> (r: usize)
        ensures
            r == self@.payload.len(),
    {
        self.payload.len()
    }

    /// Whether the track has no bytes.
    pub fn is_empty(&self) -> (r: bool)
        ensures
            r == (self@.payload.len() == 0),
    {
        self.payload.len() == 0
    }
}

impl From<&MultitrackPacketTrack> for JoinTrack {
    /// A track that was read, to be written again. Its codec name is not kept.
    fn from(t: &MultitrackPacketTrack) -> (r: Self)
        ensures
            r@ == (Part { track_id: t.track_id, fourcc: t.fourcc, payload: t.payload@ }),
    {
        let payload = t.payload.clone();
        assert(payload@ =~= t.payload@);
        JoinTrack { track_id: t.track_id, fourcc: t.fourcc, payload }
    }
}

impl FromSpecImpl<&MultitrackPacketTrack> for JoinTrack {
    open spec fn obeys_from_spec() -> bool {
        false
    }

    open spec fn from_spec(t: &MultitrackPacketTrack) -> Self {
        JoinTrack { track_id: t.track_id, fourcc: t.fourcc, payload: t.payload }
    }
}

// ---- splitting ------------------------------------------------------------

/// The records from `pos` to the end of the body.
pub open spec fn records(layout: AvMultitrackType, default: u32, body: Seq<u8>, pos: int) -> Result<
    Seq<Track>,
    Fault,
>
    decreases body.len() - pos,
{
    if layout is ManyTracksManyCodecs && pos + 4 > body.len() {
        Err(Fault::MultitrackTruncatedFourCc)
    } else {
        let fourcc = if layout is ManyTracksManyCodecs {
            u32_at(body, pos)
        } else {
            default
        };
        let p = if layout is ManyTracksManyCodecs {
            pos + 4
        } else {
            pos
        };
        if p >= body.len() {
            Err(Fault::MultitrackTruncatedTrackId)
        } else if layout is OneTrack {
            Ok(
                seq![
                    Track { track_id: body[p], fourcc, start: p + 1, end: body.len() as int },
                ],
            )
        } else if p + 4 > body.len() {
            Err(Fault::MultitrackTruncatedSize)
        } else {
            let start = p + 4;
            let end = start + u24_at(body, p + 1);
            let track = Track { track_id: body[p], fourcc, start, end };
            if end > body.len() {
                Err(Fault::MultitrackOverrun)
            } else if end == body.len() {
                Ok(seq![track])
            } else {
                match records(layout, default, body, end) {
                    Err(f) => Err(f),
                    Ok(rest) => Ok(seq![track] + rest),
                }
            }
        }
    }
}

/// The tracks of a body.
pub open spec fn split(layout: AvMultitrackType, default: u32, body: Seq<u8>) -> Result<
    Seq<Track>,
    Fault,
> {
    if layout is Reserved {
        Err(Fault::MultitrackReservedType)
    } else {
        records(layout, default, body, 0)
    }
}

/// A run of which `done` was read before the rest.
spec fn prefixed(done: Seq<Track>, rest: Result<Seq<Track>, Fault>) -> Result<Seq<Track>, Fault> {
    match rest {
        Ok(more) => Ok(done + more),
        Err(f) => Err(f),
    }
}

/// Splits a body into its tracks. `default_fourcc` is the codec of tracks that do not name one.
///
/// There is at least one track, and the bytes of every track lie inside the body.
pub fn split_tracks(mt_type: AvMultitrackType, default_fourcc: u32, body: &[u8]) -> (r: Result<
    Vec<MultitrackTrack>,
    Error,
>)
    ensures
        match (r, split(mt_type, default_fourcc, body@)) {
            (Ok(v), Ok(s)) => tracks_view(v@) == s && v@.len() > 0,
            (Err(e), Err(f)) => e == Error::InvalidData(f),
            _ => false,
        },
        r matches Ok(v) ==> forall|i: int|
            0 <= i < v@.len() ==> (#[trigger] v@[i]).payload.start <= v@[i].payload.end
                && v@[i].payload.end <= body@.len(),
{
    if let AvMultitrackType::Reserved(_) = mt_type {
        return Err(Error::InvalidData(Fault::MultitrackReservedType));
    }
    let mut tracks: Vec<MultitrackTrack> = Vec::new();
    let mut cursor: usize = 0;
    proof {
        if let Ok(more) = records(mt_type, default_fourcc, body@, 0) {
            assert(tracks_view(tracks@) + more =~= more);
        }
    }
    loop
        invariant
            mt_type !is Reserved,
            cursor <= body@.len(),
            split(mt_type, default_fourcc, body@) == prefixed(
                tracks_view(tracks@),
                records(mt_type, default_fourcc, body@, cursor as int),
            ),
            forall|i: int|
                0 <= i < tracks@.len() ==> (#[trigger] tracks@[i]).payload.start
                    <= tracks@[i].payload.end && tracks@[i].payload.end <= body@.len(),
        decreases body@.len() - cursor,
    {
        let mut p: usize = cursor;
        let mut fourcc: u32 = default_fourcc;
        if mt_type.is_many_codecs() {
            if body.len() - p < 4 {
                return Err(Error::InvalidData(Fault::MultitrackTruncatedFourCc));
            }
            fourcc = read_u32(body, p);
            p = p + 4;
        }
        if p >= body.len() {
            return Err(Error::InvalidData(Fault::MultitrackTruncatedTrackId));
        }
        let track_id: u8 = body[p];
        if mt_type.is_one_track() {
            let t = MultitrackTrack { track_id, fourcc, payload: p + 1..body.len() };
            assert(tracks_view(tracks@.push(t)) =~= tracks_view(tracks@) + seq![t@]);
            tracks.push(t);
            return Ok(tracks);
        }
        if body.len() - p < 4 {
            return Err(Error::InvalidData(Fault::MultitrackTruncatedSize));
        }
        let size: usize = read_u24(body, p + 1) as usize;
        let start: usize = p + 4;
        if size > body.len() - start {
            return Err(Error::InvalidData(Fault::MultitrackOverrun));
        }
        let end: usize = start + size;
        let t = MultitrackTrack { track_id, fourcc, payload: start..end };
        proof {
            assert(tracks_view(tracks@.push(t)) =~= tracks_view(tracks@) + seq![t@]);
            if let Ok(more) = records(mt_type, default_fourcc, body@, end as int) {
                assert(tracks_view(tracks@) + (seq![t@] + more) =~= (tracks_view(tracks@)
                    + seq![t@]) + more);
            }
        }
        tracks.push(t);
        if end == body.len() {
            return Ok(tracks);
        }
        cursor = end;
    }
}

// ---- joining --------------------------------------------------------------

/// The most bytes a track can have where its size is written.
pub const MAX_TRACK_PAYLOAD: usize = 0x00FF_FFFF;

/// The record of one track.
pub open spec fn record(layout: AvMultitrackType, part: Part) -> Seq<u8> {
    let codec = if layout is ManyTracksManyCodecs {
        be32(part.fourcc)
    } else {
        Seq::empty()
    };
    let size = if layout is OneTrack {
        Seq::empty()
    } else {
        be24(part.payload.len() as u32)
    };
    codec + (seq![part.track_id] + (size + part.payload))
}

/// The records of a run of tracks.
pub open spec fn body_of(layout: AvMultitrackType, parts: Seq<Part>) -> Seq<u8>
    decreases parts.len(),
{
    if parts.len() == 0 {
        Seq::empty()
    } else {
        record(layout, parts[0]) + body_of(layout, parts.drop_first())
    }
}

/// Some track has more bytes than its size can say.
pub open spec fn oversized(layout: AvMultitrackType, parts: Seq<Part>) -> bool {
    layout !is OneTrack && exists|i: int|
        0 <= i < parts.len() && (#[trigger] parts[i]).payload.len() > MAX_TRACK_PAYLOAD
}

/// The body that carries `parts`.
pub open spec fn join(layout: AvMultitrackType, parts: Seq<Part>) -> Result<Seq<u8>, Fault> {
    if layout is Reserved {
        Err(Fault::MultitrackReservedType)
    } else if layout is OneTrack && parts.len() != 1 {
        Err(Fault::MultitrackNotOneTrack)
    } else if parts.len() == 0 {
        Err(Fault::MultitrackNoTracks)
    } else if oversized(layout, parts) {
        Err(Fault::MultitrackPayloadTooLong)
    } else {
        Ok(body_of(layout, parts))
    }
}

proof fn lemma_body_of_push(layout: AvMultitrackType, parts: Seq<Part>, last: Part)
    ensures
        body_of(layout, parts.push(last)) == body_of(layout, parts) + record(layout, last),
    decreases parts.len(),
{
    let all = parts.push(last);
    if parts.len() == 0 {
        assert(all.drop_first() =~= Seq::<Part>::empty());
        assert(body_of(layout, all.drop_first()) == Seq::<u8>::empty());
        assert(body_of(layout, all) =~= record(layout, last));
        assert(body_of(layout, parts) + record(layout, last) =~= record(layout, last));
    } else {
        assert(all.drop_first() =~= parts.drop_first().push(last));
        lemma_body_of_push(layout, parts.drop_first(), last);
        assert(record(layout, parts[0]) + (body_of(layout, parts.drop_first()) + record(
            layout,
            last,
        )) =~= (record(layout, parts[0]) + body_of(layout, parts.drop_first())) + record(
            layout,
            last,
        ));
    }
}

/// Writes the records of `tracks`.
///
/// The layout of one track takes exactly one, any other at least one. The FourCCs of the tracks
/// are written only where the tracks differ in codec.
pub fn join_tracks(mt_type: AvMultitrackType, tracks: &[JoinTrack]) -> (r: Result<Vec<u8>, Error>)
    ensures
        match (r, join(mt_type, parts_view(tracks@))) {
            (Ok(v), Ok(s)) => v@ == s,
            (Err(e), Err(f)) => e == Error::InvalidData(f),
            _ => false,
        },
{
    if let AvMultitrackType::Reserved(_) = mt_type {
        return Err(Error::InvalidData(Fault::MultitrackReservedType));
    }
    if mt_type.is_one_track() {
        if tracks.len() != 1 {
            return Err(Error::InvalidData(Fault::MultitrackNotOneTrack));
        }
    } else if tracks.len() == 0 {
        return Err(Error::InvalidData(Fault::MultitrackNoTracks));
    }
    let mut body: Vec<u8> = Vec::new();
    let mut i: usize = 0;
    let ghost parts = parts_view(tracks@);
    assert(parts.take(0) =~= Seq::<Part>::empty());
    assert(body_of(mt_type, parts.take(0)) == Seq::<u8>::empty());
    while i < tracks.len()
        invariant
            i <= tracks@.len(),
            parts == parts_view(tracks@),
            mt_type !is Reserved,
            mt_type is OneTrack ==> tracks@.len() == 1,
            tracks@.len() > 0,
            body@ == body_of(mt_type, parts.take(i as int)),
            mt_type !is OneTrack ==> forall|j: int|
                0 <= j < i ==> (#[trigger] parts[j]).payload.len() <= MAX_TRACK_PAYLOAD,
        decreases tracks@.len() - i,
    {
        let track = &tracks[i];
        assert(parts[i as int] == track@);
        if mt_type.is_many_codecs() {
            push_u32(&mut body, track.fourcc);
        }
        body.push(track.track_id);
        if !mt_type.is_one_track() {
            let size: usize = track.payload.len();
            if size > MAX_TRACK_PAYLOAD {
                assert(oversized(mt_type, parts));
                return Err(Error::InvalidData(Fault::MultitrackPayloadTooLong));
            }
            push_u24(&mut body, size as u32);
        }
        push_bytes(&mut body, track.payload.as_slice());
        proof {
            lemma_body_of_push(mt_type, parts.take(i as int), track@);
            assert(parts.take(i + 1) =~= parts.take(i as int).push(track@));
            assert(body@ =~= body_of(mt_type, parts.take(i as int)) + record(mt_type, track@));
        }
        i = i + 1;
    }
    assert(parts.take(i as int) =~= parts);
    Ok(body)
}

// ---- the two are inverse --------------------------------------------------

/// What `track` of `body` is as a track to be written.
pub open spec fn part_of(body: Seq<u8>, track: Track) -> Part {
    Part {
        track_id: track.track_id,
        fourcc: track.fourcc,
        payload: body.subrange(track.start, track.end),
    }
}

/// The tracks of a split, as tracks to be written.
pub open spec fn parts_of(body: Seq<u8>, tracks: Seq<Track>) -> Seq<Part> {
    Seq::new(tracks.len(), |i: int| part_of(body, tracks[i]))
}

/// What splitting gives back of a track: one that names no codec comes back with the default.
pub open spec fn received(layout: AvMultitrackType, default: u32, part: Part) -> Part {
    if layout is ManyTracksManyCodecs {
        part
    } else {
        Part { fourcc: default, ..part }
    }
}

/// The parts of a record that stands in a body.
proof fn lemma_record_at(layout: AvMultitrackType, part: Part, body: Seq<u8>, pos: int)
    requires
        at(body, pos, record(layout, part)),
        layout is OneTrack || part.payload.len() <= MAX_TRACK_PAYLOAD,
    ensures
        ({
            let p = if layout is ManyTracksManyCodecs {
                pos + 4
            } else {
                pos
            };
            let q = if layout is OneTrack {
                p + 1
            } else {
                p + 4
            };
            &&& layout is ManyTracksManyCodecs ==> u32_at(body, pos) == part.fourcc
            &&& body[p] == part.track_id
            &&& layout !is OneTrack ==> u24_at(body, p + 1) == part.payload.len()
            &&& at(body, q, part.payload)
            &&& record(layout, part).len() == q - pos + part.payload.len()
        }),
{
    let codec = if layout is ManyTracksManyCodecs {
        be32(part.fourcc)
    } else {
        Seq::empty()
    };
    let size = if layout is OneTrack {
        Seq::empty()
    } else {
        be24(part.payload.len() as u32)
    };
    let p = pos + codec.len();
    lemma_at_split(body, pos, codec, seq![part.track_id] + (size + part.payload));
    lemma_at_split(body, p, seq![part.track_id], size + part.payload);
    lemma_at_split(body, p + 1, size, part.payload);
    lemma_at_index(body, p, seq![part.track_id], 0);
    if layout is ManyTracksManyCodecs {
        lemma_be32_at(body, pos, part.fourcc);
    }
    if layout !is OneTrack {
        lemma_be24_at(body, p + 1, part.payload.len() as u32);
    }
}

proof fn lemma_records_of_body(
    layout: AvMultitrackType,
    default: u32,
    parts: Seq<Part>,
    body: Seq<u8>,
    pos: int,
)
    requires
        layout !is Reserved,
        parts.len() > 0,
        layout is OneTrack ==> parts.len() == 1,
        !oversized(layout, parts),
        0 <= pos <= body.len(),
        body.subrange(pos, body.len() as int) == body_of(layout, parts),
    ensures
        records(layout, default, body, pos) matches Ok(tracks) && parts_of(body, tracks)
            =~= Seq::new(parts.len(), |i: int| received(layout, default, parts[i])),
    decreases parts.len(),
{
    let first = record(layout, parts[0]);
    let rest = parts.drop_first();
    assert(at(body, pos, first + body_of(layout, rest)));
    lemma_at_split(body, pos, first, body_of(layout, rest));
    assert(layout !is OneTrack ==> parts[0].payload.len() <= MAX_TRACK_PAYLOAD);
    lemma_record_at(layout, parts[0], body, pos);
    let end = pos + first.len();
    let tracks = records(layout, default, body, pos);
    let want = Seq::new(parts.len(), |i: int| received(layout, default, parts[i]));
    if rest.len() == 0 {
        assert(body_of(layout, rest) == Seq::<u8>::empty());
        assert(end == body.len());
        assert(tracks matches Ok(t) && t.len() == 1 && t[0].end == body.len());
        assert(parts_of(body, tracks->Ok_0)[0] == want[0]);
    } else {
        assert(body_of(layout, rest).len() > 0);
        assert forall|i: int| 0 <= i < rest.len() implies (#[trigger] rest[i]).payload.len()
            <= MAX_TRACK_PAYLOAD by {
            assert(rest[i] == parts[i + 1]);
        }
        assert(body.subrange(end, body.len() as int) =~= body_of(layout, rest));
        lemma_records_of_body(layout, default, rest, body, end);
        let more = records(layout, default, body, end)->Ok_0;
        let all = tracks->Ok_0;
        assert(all =~= seq![all[0]] + more);
        assert forall|i: int| 0 <= i < parts.len() implies parts_of(body, all)[i] == want[i] by {
            if i > 0 {
                assert(all[i] == more[i - 1]);
                assert(rest[i - 1] == parts[i]);
                assert(parts_of(body, more)[i - 1] == received(layout, default, rest[i - 1]));
            }
        }
    }
}

/// Splitting what was joined gives back every track, in order: its id, its bytes, and its codec
/// where the layout names it.
pub proof fn law_split_join(layout: AvMultitrackType, default: u32, parts: Seq<Part>)
    ensures
        join(layout, parts) matches Ok(body) ==> (split(layout, default, body) matches Ok(tracks)
            && parts_of(body, tracks) =~= Seq::new(
            parts.len(),
            |i: int| received(layout, default, parts[i]),
        )),
{
    if let Ok(body) = join(layout, parts) {
        assert(body.subrange(0, body.len() as int) =~= body);
        lemma_records_of_body(layout, default, parts, body, 0);
    }
}

proof fn lemma_body_of_records(
    layout: AvMultitrackType,
    default: u32,
    body: Seq<u8>,
    pos: int,
)
    requires
        0 <= pos,
        records(layout, default, body, pos) is Ok,
    ensures
        ({
            let parts = parts_of(body, records(layout, default, body, pos)->Ok_0);
            &&& parts.len() > 0
            &&& layout is OneTrack ==> parts.len() == 1
            &&& !oversized(layout, parts)
            &&& pos <= body.len()
            &&& body_of(layout, parts) == body.subrange(pos, body.len() as int)
        }),
    decreases body.len() - pos,
{
    let all = records(layout, default, body, pos)->Ok_0;
    let parts = parts_of(body, all);
    let p = if layout is ManyTracksManyCodecs {
        pos + 4
    } else {
        pos
    };
    if layout is ManyTracksManyCodecs {
        lemma_u32_at(body, pos);
    }
    if layout !is OneTrack {
        lemma_u24_at(body, p + 1);
    }
    let end = all[0].end;
    assert(parts[0] == part_of(body, all[0]));
    assert(record(layout, parts[0]) =~= body.subrange(pos, end));
    let rest = parts.drop_first();
    if end == body.len() {
        assert(rest =~= Seq::<Part>::empty());
        assert(body_of(layout, rest) == Seq::<u8>::empty());
        assert(body_of(layout, parts) =~= body.subrange(pos, end));
    } else {
        lemma_body_of_records(layout, default, body, end);
        let more = records(layout, default, body, end)->Ok_0;
        assert(all =~= seq![all[0]] + more);
        assert(rest =~= parts_of(body, more));
        assert(body.subrange(pos, end) + body.subrange(end, body.len() as int) =~= body.subrange(
            pos,
            body.len() as int,
        ));
        assert forall|i: int| 0 <= i < parts.len() implies (#[trigger] parts[i]).payload.len()
            <= MAX_TRACK_PAYLOAD by {
            if i > 0 {
                assert(rest[i - 1] == parts[i]);
            }
        }
    }
}

/// Joining what was split gives back the body, byte for byte.
pub proof fn law_join_split(layout: AvMultitrackType, default: u32, body: Seq<u8>)
    ensures
        split(layout, default, body) matches Ok(tracks) ==> join(layout, parts_of(body, tracks))
            == Ok::<Seq<u8>, Fault>(body),
{
    if split(layout, default, body) is Ok {
        lemma_body_of_records(layout, default, body, 0);
        assert(body.subrange(0, body.len() as int) =~= body);
    }
}

} // verus!

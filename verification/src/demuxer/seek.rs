//! Going to a time.
use vstd::prelude::*;
use crate::demuxer::facts::ascending;
use crate::demuxer::session::{Session, Told};
use crate::demuxer::{read_tag, tag_at, tag_end, FlvDemuxer, Reader, FIRST_TAG};
use crate::double::Double;
use crate::error::{Error, Fault};
use crate::ex_video::{ExFrameType, EX_HEADER_FLAG};
use crate::tag::{TagHeader, TagType, VideoTagHeader, TAG_HEADER_LEN};

verus! {

/// Where a search for a time ended.
#[derive(Clone, Copy, Debug, PartialEq, Eq, Structural)]
pub enum Landing {
    /// At an entry of the table of keyframes, by its time in seconds.
    Keyframe(Double),
    /// At a tag, by its time in milliseconds; or behind the last, by the time that was asked for.
    Time(i64),
}

// ---- the table of keyframes -------------------------------------------------

/// The last of the entries up to `from` that is not after `target`, or the first.
pub open spec fn place(times: Seq<Double>, target: Double, from: int) -> int
    decreases from,
{
    if from <= 0 {
        0
    } else if times[from].rank() <= target.rank() {
        from
    } else {
        place(times, target, from - 1)
    }
}

/// Where the last entry is that is not after `target`.
proof fn lemma_place(times: Seq<Double>, target: Double, from: int, behind: int)
    requires
        0 <= behind <= from + 1,
        behind > 0 ==> times[behind - 1].rank() <= target.rank(),
        forall|i: int| behind <= i <= from ==> (#[trigger] times[i]).rank() > target.rank(),
    ensures
        place(times, target, from) == (if behind > 0 {
            behind - 1
        } else {
            0
        }),
    decreases from,
{
    if from >= behind && from > 0 {
        lemma_place(times, target, from - 1, behind);
    }
}

/// A search of a table in order ends at an entry that is not after the target, unless all are;
/// and every later entry is after it.
pub proof fn law_place_is_at_or_before(times: Seq<Double>, target: Double)
    requires
        times.len() > 0,
        ascending(times),
    ensures
        ({
            let i = place(times, target, times.len() - 1);
            &&& 0 <= i < times.len()
            &&& times[i].rank() <= target.rank() || forall|j: int|
                0 <= j < times.len() ==> (#[trigger] times[j]).rank() > target.rank()
            &&& forall|j: int| i < j < times.len() ==> (#[trigger] times[j]).rank() > target.rank()
        }),
{
    lemma_place_bounds(times, target, times.len() - 1);
    let i = place(times, target, times.len() - 1);
    if times[i].rank() > target.rank() {
        assert forall|j: int| 0 <= j < times.len() implies (#[trigger] times[j]).rank()
            > target.rank() by {
            if j > 0 {
                assert(times[0].rank() <= times[j].rank());
            }
        }
    }
}

pub proof fn lemma_place_bounds(times: Seq<Double>, target: Double, from: int)
    requires
        0 <= from < times.len(),
    ensures
        0 <= place(times, target, from) <= from,
        times[place(times, target, from)].rank() <= target.rank() || place(times, target, from)
            == 0,
        forall|j: int|
            place(times, target, from) < j <= from ==> (#[trigger] times[j]).rank()
                > target.rank(),
    decreases from,
{
    if from > 0 && times[from].rank() > target.rank() {
        lemma_place_bounds(times, target, from - 1);
    }
}

fn bisect(times: &Vec<Double>, target: Double) -> (r: usize)
    requires
        times@.len() > 0,
        ascending(times@),
    ensures
        r == place(times@, target, times@.len() - 1),
        r < times@.len(),
{
    let mut low: usize = 0;
    let mut high: usize = times.len();
    while low < high
        invariant
            low <= high <= times@.len(),
            ascending(times@),
            forall|i: int| 0 <= i < low ==> (#[trigger] times@[i]).rank() <= target.rank(),
            forall|i: int| high <= i < times@.len() ==> (#[trigger] times@[i]).rank()
                > target.rank(),
        decreases high - low,
    {
        let mid: usize = low + (high - low) / 2;
        if target.less(times[mid]) {
            assert forall|i: int| mid <= i < times@.len() implies (#[trigger] times@[i]).rank()
                > target.rank() by {
                if i > mid {
                    assert(times@[mid as int].rank() <= times@[i].rank());
                }
            }
            high = mid;
        } else {
            assert forall|i: int| 0 <= i <= mid implies (#[trigger] times@[i]).rank()
                <= target.rank() by {
                if i < mid {
                    assert(times@[i].rank() <= times@[mid as int].rank());
                }
            }
            low = mid + 1;
        }
    }
    proof {
        lemma_place(times@, target, times@.len() - 1, low as int);
    }
    if low > 0 {
        low - 1
    } else {
        0
    }
}

// ---- the tags ---------------------------------------------------------------

/// The first byte of a video payload says that decoding can start there.
pub open spec fn starts_decoding(b: u8) -> bool {
    if b >= EX_HEADER_FLAG {
        let t = ExFrameType::of(b / 16 % 8);
        t is KeyFrame || t is GeneratedKeyFrame
    } else {
        let t = VideoTagHeader::of(b).frame_type;
        t is Key || t is GeneratedKey
    }
}

/// Whether a tag is one to land at: a keyframe where there is video, else any audio, not before
/// `ms`. `first` is the first byte of the payload, which a video tag that is not empty must have.
pub open spec fn lands(h: TagHeader, first: Option<u8>, ms: int, video: bool) -> Result<bool, Error> {
    match h.kind {
        Some(TagType::Video) => if !video || h.data_size == 0 {
            Ok(false)
        } else {
            match first {
                None => Err(Error::UnexpectedEof),
                Some(b) => Ok(starts_decoding(b) && h.timestamp_ms >= ms),
            }
        },
        Some(TagType::Audio) => Ok(!video && h.timestamp_ms >= ms),
        _ => Ok(false),
    }
}

/// The byte at `pos`.
pub open spec fn byte_at(input: Seq<u8>, pos: int) -> Option<u8> {
    if pos < input.len() {
        Some(input[pos])
    } else {
        None
    }
}

/// The number of bytes from `pos` to the end.
pub open spec fn bytes_left(input: Seq<u8>, pos: int) -> int {
    if pos < input.len() {
        input.len() - pos
    } else {
        0
    }
}

/// The first tag from `pos` on to land at, and its time.
pub open spec fn find(input: Seq<u8>, pos: int, ms: int, video: bool) -> Result<
    Option<(int, u32)>,
    Error,
>
    decreases bytes_left(input, pos),
{
    match tag_at(input, pos) {
        Err(Error::Eof) => Ok(None),
        Err(e) => Err(e),
        Ok(h) => match lands(h, byte_at(input, pos + TAG_HEADER_LEN), ms, video) {
            Err(e) => Err(e),
            Ok(true) => Ok(Some((pos, h.timestamp_ms))),
            Ok(false) => find(input, tag_end(h, pos), ms, video),
        },
    }
}

/// A tag that a search ends at is there, is in the input, and is not before the time asked for.
pub proof fn law_find_is_at_or_after(input: Seq<u8>, pos: int, ms: int, video: bool)
    requires
        0 <= pos,
    ensures
        find(input, pos, ms, video) matches Ok(Some((p, t))) ==> {
            &&& pos <= p
            &&& p + TAG_HEADER_LEN <= input.len()
            &&& t >= ms
            &&& tag_at(input, p) matches Ok(h) && h.timestamp_ms == t && lands(
                h,
                byte_at(input, p + TAG_HEADER_LEN),
                ms,
                video,
            ) == Ok::<bool, Error>(true)
        },
    decreases bytes_left(input, pos),
{
    if let Ok(h) = tag_at(input, pos) {
        if lands(h, byte_at(input, pos + TAG_HEADER_LEN), ms, video) == Ok::<bool, Error>(false) {
            law_find_is_at_or_after(input, tag_end(h, pos), ms, video);
        }
    }
}

/// Whether a tag is one to land at.
pub fn check_landing(h: &TagHeader, first: Option<u8>, ms: i64, video: bool) -> (r: Result<bool, Error>)
    ensures
        r == lands(*h, first, ms as int, video),
{
    let late = h.timestamp_ms as i64 >= ms;
    match h.kind {
        Some(TagType::Video) => {
            if !video || h.data_size == 0 {
                return Ok(false);
            }
            let b: u8 = match first {
                Some(b) => b,
                None => {
                    return Err(Error::UnexpectedEof);
                },
            };
            let key = if b >= EX_HEADER_FLAG {
                ExFrameType::from_u8(b / 16 % 8).is_keyframe()
            } else {
                VideoTagHeader::parse(b).is_keyframe()
            };
            Ok(key && late)
        },
        Some(TagType::Audio) => Ok(!video && late),
        _ => Ok(false),
    }
}

fn find_tag(input: &Vec<u8>, ms: i64, video: bool) -> (r: Result<Option<(u64, u32)>, Error>)
    ensures
        match (r, find(input@, FIRST_TAG as int, ms as int, video)) {
            (Ok(Some((p, t))), Ok(Some((q, u)))) => p == q && t == u,
            (Ok(None), Ok(None)) => true,
            (Err(e), Err(x)) => e == x,
            _ => false,
        },
{
    let ghost goal = find(input@, FIRST_TAG as int, ms as int, video);
    let mut pos: u64 = FIRST_TAG as u64;
    loop
        invariant
            goal == find(input@, FIRST_TAG as int, ms as int, video),
            goal == find(input@, pos as int, ms as int, video),
        decreases input@.len() - pos,
    {
        let h = match read_tag(input, pos) {
            Ok(h) => h,
            Err(Error::Eof) => {
                return Ok(None);
            },
            Err(e) => {
                return Err(e);
            },
        };
        let len: u64 = input.len() as u64;
        let start: u64 = pos + TAG_HEADER_LEN as u64;
        let first: Option<u8> = if start < len {
            Some(input[start as usize])
        } else {
            None
        };
        match check_landing(&h, first, ms, video) {
            Err(e) => {
                return Err(e);
            },
            Ok(true) => {
                return Ok(Some((pos, h.timestamp_ms)));
            },
            Ok(false) => {},
        }
        if len - pos - (TAG_HEADER_LEN as u64) < h.data_size as u64 + 4 {
            assert(find(input@, tag_end(h, pos as int), ms as int, video) == Ok::<
                Option<(int, u32)>,
                Error,
            >(None));
            return Ok(None);
        }
        assert(tag_end(h, pos as int) <= len);
        pos = pos + TAG_HEADER_LEN as u64 + h.data_size as u64 + 4;
    }
}

// ---- seeking ----------------------------------------------------------------

/// A time that is not negative.
pub open spec fn clamped(pts: i64) -> int {
    if pts < 0 {
        0
    } else {
        pts as int
    }
}

/// Where the table of keyframes has a time: the last entry that is not after `seconds`, or the
/// first. Without video there is no use for a table.
pub open spec fn by_table(t: Told, seconds: Double) -> Option<(u64, Double)> {
    match t.keyframes {
        Some(k) if t.video is Some => {
            let i = place(k.times, seconds, k.times.len() - 1);
            Some((k.positions[i], k.times[i]))
        },
        _ => None,
    }
}

/// Going to a time of a stream: by the table of keyframes, or else by the tags to the first that
/// is not before `pts`. Without such a tag, to the end.
pub open spec fn sought(r: Reader, stream_index: u32, pts: i64, seconds: Double) -> (
    Result<Landing, Error>,
    Reader,
) {
    if stream_index >= r.told.stream_count() {
        (Err(Error::InvalidData(Fault::StreamIndexRange)), r)
    } else {
        match by_table(r.told, seconds) {
            Some((pos, time)) => (Ok(Landing::Keyframe(time)), Reader { pos: pos as int, ..r }),
            None => match find(r.input, FIRST_TAG as int, clamped(pts), r.told.video is Some) {
                Err(e) => (Err(e), Reader { pos: r.input.len() as int, ..r }),
                Ok(Some((pos, ms))) => (Ok(Landing::Time(ms as i64)), Reader { pos, ..r }),
                Ok(None) => (
                    Ok(Landing::Time(clamped(pts) as i64)),
                    Reader { pos: r.input.len() as int, ..r },
                ),
            },
        }
    }
}

impl Session {
    /// Where the table of keyframes has a time, if there is a table for the stream: the place of
    /// the tag, and its time in seconds.
    pub fn seek_by_table(&self, stream_index: u32, seconds: Double) -> (r: Result<
        Option<(u64, Double)>,
        Error,
    >)
        requires
            self@.well_formed(),
        ensures
            r == (if stream_index >= self@.stream_count() {
                Err(Error::InvalidData(Fault::StreamIndexRange))
            } else {
                Ok(by_table(self@, seconds))
            }),
    {
        if stream_index >= self.stream_count() {
            return Err(Error::InvalidData(Fault::StreamIndexRange));
        }
        if self.video_stream_index().is_some() {
            if let Some(k) = self.keyframe_index() {
                let i: usize = bisect(&k.times_seconds, seconds);
                return Ok(Some((k.file_positions[i], k.times_seconds[i])));
            }
        }
        Ok(None)
    }
}

impl FlvDemuxer {
    /// Goes to a time of a stream, in milliseconds; `seconds` is the same time, if it is not
    /// negative, or else zero.
    pub fn seek_to(&mut self, stream_index: u32, pts: i64, seconds: Double) -> (r: Result<
        Landing,
        Error,
    >)
        requires
            old(self)@.well_formed(),
        ensures
            (r, final(self)@) == sought(old(self)@, stream_index, pts, seconds),
            final(self)@.well_formed(),
    {
        let ghost before = self@;
        match self.session.seek_by_table(stream_index, seconds) {
            Err(e) => {
                return Err(e);
            },
            Ok(Some((pos, time))) => {
                self.pos = pos;
                assert(self@ =~= sought(before, stream_index, pts, seconds).1);
                return Ok(Landing::Keyframe(time));
            },
            Ok(None) => {},
        }
        let video = self.video_stream_index().is_some();
        let ms: i64 = if pts < 0 {
            0
        } else {
            pts
        };
        match find_tag(&self.input, ms, video) {
            Err(e) => {
                self.finish();
                Err(e)
            },
            Ok(Some((pos, t))) => {
                proof {
                    law_find_is_at_or_after(before.input, FIRST_TAG as int, ms as int, video);
                }
                self.pos = pos;
                assert(self@ =~= sought(before, stream_index, pts, seconds).1);
                Ok(Landing::Time(t as i64))
            },
            Ok(None) => {
                self.finish();
                Ok(Landing::Time(ms))
            },
        }
    }
}

} // verus!

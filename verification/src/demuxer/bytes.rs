//! Tags and searches, told by the bytes of a file.
use vstd::prelude::*;
use crate::demuxer::seek::{find, lands, sought, byte_at, Landing};
use crate::demuxer::{tag_at, tag_body, tag_end, Reader};
use crate::double::Double;
use crate::error::{Error, Fault};
use crate::tag::TagType;

verus! {

// ---- tags -------------------------------------------------------------------

/// The kind of the tag at `p`: 8 of audio, 9 of video, 18 of a script.
pub open spec fn kind_code(input: Seq<u8>, p: int) -> int {
    input[p] as int % 32
}

/// The number of bytes in the payload of the tag at `p`.
pub open spec fn payload_size(input: Seq<u8>, p: int) -> int {
    input[p + 1] * 65536 + input[p + 2] * 256 + input[p + 3]
}

/// The time of the tag at `p`: three bytes, and a fourth above them.
pub open spec fn tag_time(input: Seq<u8>, p: int) -> int {
    input[p + 7] * 16777216 + input[p + 4] * 65536 + input[p + 5] * 256 + input[p + 6]
}

/// Where the tag behind that at `p` starts.
pub open spec fn tag_behind(input: Seq<u8>, p: int) -> int {
    p + 11 + payload_size(input, p) + 4
}

/// There is a header of a tag at `p`.
pub open spec fn has_tag(input: Seq<u8>, p: int) -> bool {
    0 <= p && p + 11 <= input.len()
}

/// Tags are read as their bytes say.
pub proof fn law_tag_by_bytes(input: Seq<u8>, p: int)
    requires
        0 <= p,
    ensures
        p >= input.len() <==> tag_at(input, p) == Err::<crate::tag::TagHeader, Error>(Error::Eof),
        p < input.len() < p + 11 <==> tag_at(input, p) == Err::<crate::tag::TagHeader, Error>(
            Error::UnexpectedEof,
        ),
        has_tag(input, p) <==> tag_at(input, p) is Ok,
        tag_at(input, p) matches Ok(h) ==> {
            &&& h.kind == Some(TagType::Audio) <==> kind_code(input, p) == 8
            &&& h.kind == Some(TagType::Video) <==> kind_code(input, p) == 9
            &&& h.kind == Some(TagType::ScriptData) <==> kind_code(input, p) == 18
            &&& h.data_size == payload_size(input, p)
            &&& h.timestamp_ms == tag_time(input, p)
            &&& h.filter <==> input[p] as int / 32 % 2 == 1
            &&& h.tag_type_raw == input[p]
            &&& h.stream_id == input[p + 8] * 65536 + input[p + 9] * 256 + input[p + 10]
            &&& tag_end(h, p) == tag_behind(input, p)
            &&& tag_behind(input, p) <= input.len() ==> tag_body(input, h, p) == input.subrange(
                p + 11,
                p + 11 + payload_size(input, p),
            )
        },
{
    if has_tag(input, p) {
        let d = input.skip(p);
        assert(forall|i: int| 0 <= i < 11 ==> #[trigger] d[i] == input[p + i]);
        assert(d[0] == input[p]);
    }
}

// ---- searches ---------------------------------------------------------------

/// A walk over tags from `from` comes to `p`.
pub open spec fn visited(input: Seq<u8>, from: int, p: int) -> bool
    decreases input.len() - from,
{
    if from == p {
        true
    } else if has_tag(input, from) && tag_behind(input, from) <= input.len() {
        visited(input, tag_behind(input, from), p)
    } else {
        false
    }
}

/// The tag at `p` is one to land at for a time: where there is video, a video tag whose payload
/// starts with the nibble of a keyframe, 1 or 4 in its low three bits, or 1 or 4 as a whole where
/// the top bit is not set; else an audio tag. It is not before the time.
pub open spec fn wanted(input: Seq<u8>, p: int, ms: int, video: bool) -> bool {
    &&& has_tag(input, p)
    &&& tag_time(input, p) >= ms
    &&& if video {
        &&& kind_code(input, p) == 9
        &&& payload_size(input, p) > 0
        &&& p + 11 < input.len()
        &&& {
            let nibble = input[p + 11] as int / 16;
            nibble == 1 || nibble == 4 || nibble == 9 || nibble == 12
        }
    } else {
        kind_code(input, p) == 8
    }
}

proof fn lemma_lands_by_bytes(input: Seq<u8>, p: int, ms: int, video: bool)
    requires
        has_tag(input, p),
    ensures
        lands(tag_at(input, p)->Ok_0, byte_at(input, p + 11), ms, video) == Ok::<bool, Error>(true)
            <==> wanted(input, p, ms, video),
        lands(tag_at(input, p)->Ok_0, byte_at(input, p + 11), ms, video) is Err ==> video
            && kind_code(input, p) == 9 && payload_size(input, p) > 0 && p + 11 == input.len(),
{
    law_tag_by_bytes(input, p);
}

/// A search ends at the first tag to land at: a walk comes to it, it is one, and no tag that the
/// walk comes to before it is. Where the search finds none, no tag that the walk comes to is one.
pub proof fn law_find_is_the_first(input: Seq<u8>, from: int, ms: int, video: bool)
    requires
        0 <= from,
    ensures
        find(input, from, ms, video) matches Ok(Some((p, t))) ==> {
            &&& from <= p
            &&& visited(input, from, p)
            &&& wanted(input, p, ms, video)
            &&& t == tag_time(input, p)
            &&& forall|q: int| q < p && #[trigger] visited(input, from, q) ==> !wanted(
                input,
                q,
                ms,
                video,
            )
        },
        find(input, from, ms, video) matches Ok(None) ==> forall|q: int| #[trigger]
            visited(input, from, q) ==> !wanted(input, q, ms, video),
        find(input, from, ms, video) is Err ==> forall|q: int| #[trigger]
            visited(input, from, q) ==> !wanted(input, q, ms, video),
    decreases crate::demuxer::seek::bytes_left(input, from),
{
    law_tag_by_bytes(input, from);
    if has_tag(input, from) {
        lemma_lands_by_bytes(input, from, ms, video);
        let h = tag_at(input, from)->Ok_0;
        let next = tag_behind(input, from);
        if lands(h, byte_at(input, from + 11), ms, video) == Ok::<bool, Error>(false) {
            law_find_is_the_first(input, next, ms, video);
            assert forall|q: int| #[trigger] visited(input, from, q) implies q == from || visited(
                input,
                next,
                q,
            ) by {}
            if let Ok(Some((p, t))) = find(input, from, ms, video) {
                assert(visited(input, next, p));
            }
        } else {
            assert forall|q: int| #[trigger] visited(input, from, q) implies q >= from by {
                lemma_visited_grows(input, from, q);
            }
            if lands(h, byte_at(input, from + 11), ms, video) is Err {
                assert forall|q: int| #[trigger] visited(input, from, q) implies !wanted(
                    input,
                    q,
                    ms,
                    video,
                ) by {
                    lemma_visited_grows(input, from, q);
                    if q > from {
                        assert(visited(input, next, q));
                        lemma_visited_grows(input, next, q);
                    }
                }
            }
        }
    } else {
        assert forall|q: int| #[trigger] visited(input, from, q) implies q == from by {}
    }
}

proof fn lemma_visited_grows(input: Seq<u8>, from: int, p: int)
    requires
        visited(input, from, p),
    ensures
        from <= p,
    decreases input.len() - from,
{
    if from != p {
        lemma_visited_grows(input, tag_behind(input, from), p);
    }
}

/// Going to a time without a table: to the first keyframe from the start of the file whose time
/// is not before the one asked for, or where there is no video to the first such audio tag; to the
/// end of the file where there is none. What the file holds stays as it is.
pub proof fn law_seek_lands_at_the_first(r: Reader, stream_index: u32, pts: i64, seconds: Double)
    requires
        stream_index < r.told.stream_count(),
        r.told.video is None || r.told.keyframes is None,
    ensures
        ({
            let asked = if pts < 0 {
                0
            } else {
                pts as int
            };
            let video = r.told.video is Some;
            let (out, n) = sought(r, stream_index, pts, seconds);
            &&& n.input == r.input && n.told == r.told
            &&& out matches Ok(l) ==> {
                ||| {
                    &&& visited(r.input, 13, n.pos)
                    &&& wanted(r.input, n.pos, asked, video)
                    &&& l == Landing::Time(tag_time(r.input, n.pos) as i64)
                    &&& forall|q: int| q < n.pos && #[trigger] visited(r.input, 13, q) ==> !wanted(
                        r.input,
                        q,
                        asked,
                        video,
                    )
                }
                ||| {
                    &&& n.pos == r.input.len()
                    &&& l == Landing::Time(asked as i64)
                    &&& forall|q: int| #[trigger] visited(r.input, 13, q) ==> !wanted(
                        r.input,
                        q,
                        asked,
                        video,
                    )
                }
            }
            &&& (exists|q: int| #[trigger] visited(r.input, 13, q) && wanted(
                r.input,
                q,
                asked,
                video,
            )) ==> out is Ok
        }),
{
    let asked = if pts < 0 {
        0
    } else {
        pts as int
    };
    law_find_is_the_first(r.input, 13, asked, r.told.video is Some);
}

/// Going to a time by the table of keyframes of a file with video: to the place and the time of
/// one and the same entry, the last that is not after the time asked for, or the first where all
/// are after it.
pub proof fn law_seek_by_table(r: Reader, stream_index: u32, pts: i64, seconds: Double)
    requires
        stream_index < r.told.stream_count(),
        r.told.video is Some,
        r.told.keyframes matches Some(k) && k.well_formed(),
    ensures
        ({
            let k = r.told.keyframes->0;
            let (out, n) = sought(r, stream_index, pts, seconds);
            &&& n.input == r.input && n.told == r.told
            &&& exists|i: int|
                {
                    &&& 0 <= i < k.times.len()
                    &&& #[trigger] k.times[i].rank() <= seconds.rank() || i == 0
                    &&& forall|j: int| i < j < k.times.len() ==> (#[trigger] k.times[j]).rank()
                        > seconds.rank()
                    &&& out == Ok::<Landing, Error>(Landing::Keyframe(k.times[i]))
                    &&& n.pos == k.positions[i]
                }
        }),
{
    let k = r.told.keyframes->0;
    let i = crate::demuxer::seek::place(k.times, seconds, k.times.len() - 1);
    crate::demuxer::seek::law_place_is_at_or_before(k.times, seconds);
    crate::demuxer::seek::lemma_place_bounds(k.times, seconds, k.times.len() - 1);
    assert(k.times[i].rank() <= seconds.rank() || i == 0);
}

/// A stream that is not there cannot be gone to, and nothing is moved; a negative time is the
/// start.
pub proof fn law_seek_checks_the_stream(r: Reader, stream_index: u32, pts: i64, seconds: Double)
    ensures
        (stream_index >= r.told.stream_count()) ==> sought(r, stream_index, pts, seconds) == (
            Err::<Landing, Error>(Error::InvalidData(Fault::StreamIndexRange)),
            r,
        ),
        sought(r, stream_index, pts, seconds).0 == Err::<Landing, Error>(
            Error::InvalidData(Fault::StreamIndexRange),
        ) ==> stream_index >= r.told.stream_count(),
        pts < 0 ==> sought(r, stream_index, pts, seconds) == sought(r, stream_index, 0, seconds),
        r.told.stream_count() == (if r.told.audio is Some {
            1int
        } else {
            0
        }) + (if r.told.video is Some {
            1int
        } else {
            0
        }),
{
    let asked = if pts < 0 {
        0
    } else {
        pts as int
    };
    lemma_find_faults(r.input, 13, asked, r.told.video is Some);
}

proof fn lemma_find_faults(input: Seq<u8>, from: int, ms: int, video: bool)
    requires
        0 <= from,
    ensures
        find(input, from, ms, video) matches Err(e) ==> e == Error::UnexpectedEof,
    decreases crate::demuxer::seek::bytes_left(input, from),
{
    law_tag_by_bytes(input, from);
    if has_tag(input, from) {
        let h = tag_at(input, from)->Ok_0;
        if lands(h, byte_at(input, from + 11), ms, video) == Ok::<bool, Error>(false) {
            lemma_find_faults(input, tag_behind(input, from), ms, video);
        }
    }
}

} // verus!

//! Packets, told by the bytes of the tags that they come from.
use vstd::prelude::*;
use crate::demuxer::discover::counted;
use crate::demuxer::harvest::{audio_noted, video_noted};
use crate::demuxer::packet::{audio_frame, chosen, filtered_frame, video_frame, Frame};
use crate::demuxer::session::{handled, Told};
use crate::demuxer::tracks::renewed;
use crate::error::{Error, Fault};
use crate::mod_ex::{chain, lemma_chain_advances, ModEx};
use crate::multitrack::{split, AvMultitrackType, Track};
use crate::tag::filter::preamble;
use crate::tag::{TagHeader, TagType};
use crate::wire::{u24_at, u32_at};

verus! {

// ---- codecs by numbers ------------------------------------------------------

/// A packet of a tag at `ms` that is shown when it is decoded.
pub open spec fn at_once(
    index: u32,
    ms: u32,
    keyframe: bool,
    header: bool,
    discard: bool,
    data: Seq<u8>,
) -> Frame {
    Frame { stream_index: index, pts: ms as int, dts: ms as int, keyframe, header, discard, data }
}

/// The number that three bytes stand for in two's complement.
pub open spec fn signed(a: u8, b: u8, c: u8) -> int {
    let n = a * 65536 + b * 256 + c;
    if a >= 128 {
        n - 16777216
    } else {
        n
    }
}

/// Audio whose codec is a number other than 9, which stands for a FourCC. An empty tag, and a
/// header with nothing behind it, are silence. AAC, number 10, says in its second byte what it
/// carries: 0 the configuration, 1 a frame.
pub proof fn law_plain_audio_packets(index: u32, ms: u32, body: Seq<u8>)
    ensures
        body.len() == 0 ==> audio_frame(index, ms, body) == Some(
            at_once(index, ms, true, true, true, body),
        ),
        body.len() > 0 && body[0] / 16 != 9 && body[0] / 16 != 10 ==> audio_frame(index, ms, body)
            == Some(
            at_once(index, ms, true, body.len() == 1, body.len() == 1, body.skip(1)),
        ),
        body.len() == 1 && body[0] / 16 == 10 ==> audio_frame(index, ms, body) is None,
        body.len() >= 2 && body[0] / 16 == 10 ==> audio_frame(index, ms, body) == (if body[1] == 0 {
            Some(at_once(index, ms, true, true, false, body.skip(2)))
        } else if body[1] == 1 {
            Some(at_once(index, ms, true, false, false, body.skip(2)))
        } else {
            None
        }),
{
}

/// Video whose codec is a number. The first four bits say what the frame is: 1 and 4 keyframes,
/// 5 no frame but a command. Codec 7 is H.264, which says in its second byte what it carries, 0 the
/// configuration and 1 a frame, and then by how much the frame is shown later; codec 5 has a byte
/// before its data.
pub proof fn law_plain_video_packets(index: u32, ms: u32, body: Seq<u8>)
    ensures
        body.len() == 0 ==> video_frame(index, ms, body) is None,
        body.len() > 0 && body[0] < 128 ==> ({
            let what = body[0] as int / 16;
            let codec = body[0] as int % 16;
            let key = what == 1 || what == 4;
            video_frame(index, ms, body) == (if what == 5 {
                if body.len() < 2 {
                    None
                } else {
                    Some(at_once(index, ms, false, true, true, seq![body[1]]))
                }
            } else if codec == 7 {
                if body.len() < 5 || body[1] >= 2 {
                    None
                } else if body[1] == 0 {
                    Some(at_once(index, ms, key, true, false, body.skip(5)))
                } else {
                    Some(
                        Frame {
                            stream_index: index,
                            pts: ms + signed(body[2], body[3], body[4]),
                            dts: ms as int,
                            keyframe: key,
                            header: false,
                            discard: false,
                            data: body.skip(5),
                        },
                    )
                }
            } else if codec == 5 {
                if body.len() < 2 {
                    None
                } else {
                    Some(at_once(index, ms, key, false, false, body.skip(2)))
                }
            } else {
                Some(at_once(index, ms, key, false, false, body.skip(1)))
            })
        }),
{
}

// ---- codecs by FourCCs ------------------------------------------------------

/// Audio of one track whose codec is a FourCC: 0x9 and what the packet carries, the FourCC, and the
/// payload. 0 sets a decoder up, 1 is a frame, 2 ends a sequence and gives no packet; all else is
/// not for a decoder.
pub proof fn law_ex_audio_packets(index: u32, ms: u32, body: Seq<u8>)
    requires
        body.len() >= 5,
        body[0] / 16 == 9,
        body[0] % 16 != 5,
        body[0] % 16 != 7,
    ensures
        audio_frame(index, ms, body) == (if body[0] % 16 == 0 {
            Some(at_once(index, ms, true, true, false, body.skip(5)))
        } else if body[0] % 16 == 1 {
            Some(at_once(index, ms, true, false, false, body.skip(5)))
        } else if body[0] % 16 == 2 {
            None
        } else {
            Some(at_once(index, ms, true, true, true, body.skip(5)))
        }),
{
}

/// The four bytes behind the first are `hvc1`, `vvc1` or `avc1`: frames of these codecs have a
/// composition time.
pub open spec fn late_codec(body: Seq<u8>) -> bool {
    ||| body[1] == 0x68 && body[2] == 0x76 && body[3] == 0x63 && body[4] == 0x31
    ||| body[1] == 0x76 && body[2] == 0x76 && body[3] == 0x63 && body[4] == 0x31
    ||| body[1] == 0x61 && body[2] == 0x76 && body[3] == 0x63 && body[4] == 0x31
}

/// Video of one track whose codec is a FourCC: a byte of the top bit, three bits for the frame
/// and four for what the packet carries, then the FourCC. 0 and 5 set a decoder up; 1 and 3 are
/// frames, and those of 1 have a composition time where the codec has one; 2 ends a sequence and
/// gives no packet; all else is not for a decoder. A command frame, 5, is a packet of the command
/// byte, unless it carries metadata, 4.
#[verifier::rlimit(40)]
pub proof fn law_ex_video_packets(index: u32, ms: u32, body: Seq<u8>)
    requires
        body.len() >= 5,
        body[0] >= 128,
        body[0] % 16 != 6,
        body[0] % 16 != 7,
        ({
            let carries = body[0] as int % 16;
            let what = body[0] as int / 16 - 8;
            &&& carries == 1 && late_codec(body) ==> body.len() >= 8
            &&& what == 5 && carries != 4 ==> body.len() > (if carries == 1 && late_codec(body) {
                8int
            } else {
                5
            })
        }),
    ensures
        ({
            let carries = body[0] as int % 16;
            let what = body[0] as int / 16 - 8;
            let late = carries == 1 && late_codec(body);
            let start = if late {
                8int
            } else {
                5
            };
            let offset = if late {
                signed(body[5], body[6], body[7])
            } else {
                0
            };
            let key = what == 1 || what == 4;
            video_frame(index, ms, body) == (if carries == 2 {
                None
            } else if what == 5 && carries != 4 {
                Some(at_once(index, ms, false, true, true, seq![body[start]]))
            } else {
                Some(
                    Frame {
                        stream_index: index,
                        pts: ms + offset,
                        dts: ms as int,
                        keyframe: key,
                        header: carries != 1 && carries != 3,
                        discard: carries != 0 && carries != 1 && carries != 3 && carries != 5,
                        data: body.skip(start),
                    },
                )
            })
        }),
{
    let carries = body[0] % 16;
    let h = crate::ex_video::header(body)->Ok_0->0;
    assert(chain(7, body, 1, carries) == Ok::<(int, u8, Seq<ModEx>), Fault>(
        (1, carries, Seq::empty()),
    ));
    lemma_late_codec(body);
    assert(h.multitrack is None);
    assert(h.frame_type is Command <==> body[0] as int / 16 - 8 == 5);
}

proof fn lemma_late_codec(body: Seq<u8>)
    requires
        body.len() >= 5,
    ensures
        late_codec(body) <==> u32_at(body, 1) == 0x68766331 || u32_at(body, 1) == 0x76766331
            || u32_at(body, 1) == 0x61766331,
{
    let n = body[1] * 16777216 + body[2] * 65536 + body[3] * 256 + body[4];
    assert(u32_at(body, 1) == n);
}

// ---- modifiers --------------------------------------------------------------

/// A tag without the modifiers in front of what it carries.
pub open spec fn stripped(body: Seq<u8>, end: int, carries: u8) -> Seq<u8> {
    seq![(body[0] / 16 * 16 + carries) as u8] + body.skip(end)
}

proof fn lemma_shifted_u32(a: Seq<u8>, b: Seq<u8>, p: int, q: int, d: int)
    requires
        p == q + d,
        1 <= q,
        q + 4 <= b.len(),
        forall|i: int| 1 <= i < b.len() ==> #[trigger] b[i] == a[i + d],
    ensures
        u32_at(a, p) == u32_at(b, q),
{
    assert(b[q] == a[p] && b[q + 1] == a[p + 1] && b[q + 2] == a[p + 2] && b[q + 3] == a[p + 3]);
}

/// A tag without its modifiers has the same bytes behind them.
proof fn lemma_stripped(body: Seq<u8>, end: int, carries: u8)
    requires
        1 <= end <= body.len(),
        carries < 16,
    ensures
        ({
            let b = stripped(body, end, carries);
            &&& b.len() == body.len() - (end - 1)
            &&& b[0] / 16 == body[0] / 16
            &&& b[0] % 16 == carries
            &&& forall|i: int| 1 <= i < b.len() ==> #[trigger] b[i] == body[i + (end - 1)]
            &&& forall|e: int| end <= e <= body.len() ==> b.skip(e - (end - 1)) =~= #[trigger]
                body.skip(e)
        }),
{
    let b = stripped(body, end, carries);
    let d = end - 1;
    assert(b[0] == (body[0] / 16 * 16 + carries) as u8);
    assert(forall|i: int| 1 <= i < b.len() ==> #[trigger] b[i] == body[i + d]);
    assert forall|e: int| end <= e <= body.len() implies b.skip(e - d) =~= #[trigger] body.skip(
        e,
    ) by {
        assert(b.skip(e - d) =~= body.skip(e));
    }
}

#[verifier::spinoff_prover]
proof fn lemma_audio_stripped(body: Seq<u8>)
    requires
        body.len() > 0,
        body[0] / 16 == 9,
        crate::ex_audio::header(body) is Ok,
    ensures
        ({
            let (end, carries, s) = chain(7, body, 1, body[0] % 16)->Ok_0;
            let x = crate::ex_audio::header(body)->Ok_0->0;
            &&& 1 <= end <= x.bytes_consumed <= body.len()
            &&& carries < 16
            &&& crate::ex_audio::header(stripped(body, end, carries)) matches Ok(Some(y))
                && y.packet_type == x.packet_type && y.fourcc == x.fourcc && y.multitrack
                == x.multitrack && y.bytes_consumed == x.bytes_consumed - (end - 1)
            &&& x.multitrack is Some ==> x.bytes_consumed >= end + (if x.fourcc is Some {
                5int
            } else {
                1
            })
        }),
{
    let (end, carries, s) = chain(7, body, 1, body[0] % 16)->Ok_0;
    lemma_chain_advances(7, body, 1, body[0] % 16);
    lemma_stripped(body, end, carries);
    let b = stripped(body, end, carries);
    let d = end - 1;
    let (m, f, e) = crate::ex_audio::carrier(body, end, carries)->Ok_0;
    assert(crate::ex_audio::carrier(b, 1, carries) == Ok::<
        (Option<AvMultitrackType>, Option<u32>, int),
        Fault,
    >((m, f, e - d))) by {
        if carries == 5 {
            assert(b[1] == body[end]);
            if !(m->0 is ManyTracksManyCodecs) {
                lemma_shifted_u32(body, b, end + 1, 2, d);
            }
        } else {
            lemma_shifted_u32(body, b, end, 1, d);
        }
    }
    assert(chain(7, b, 1, carries) == Ok::<(int, u8, Seq<ModEx>), Fault>(
        (1, carries, Seq::empty()),
    ));
}

/// Modifiers, which stand where a tag says that it carries 7, leave the packet as it is without
/// them.
#[verifier::spinoff_prover]
#[verifier::rlimit(30)]
pub proof fn law_modifiers_leave_audio(index: u32, ms: u32, body: Seq<u8>)
    requires
        body.len() > 0,
        body[0] / 16 == 9,
        crate::ex_audio::header(body) is Ok,
    ensures
        ({
            let (end, carries, s) = chain(7, body, 1, body[0] % 16)->Ok_0;
            audio_frame(index, ms, body) == audio_frame(index, ms, stripped(body, end, carries))
        }),
{
    let (end, carries, s) = chain(7, body, 1, body[0] % 16)->Ok_0;
    let b = stripped(body, end, carries);
    lemma_audio_stripped(body);
    lemma_stripped(body, end, carries);
    let x = crate::ex_audio::header(body)->Ok_0->0;
    let y = crate::ex_audio::header(b)->Ok_0->0;
    let e = x.bytes_consumed;
    let d = end - 1;
    assert(b.skip(e - d) == body.skip(e));
    if x.multitrack is Some {
        assert(b[e - d - 1] == body[e - 1]);
        if x.fourcc is Some {
            assert(b[e - d - 5] == body[e - 5]);
        }
    }
    assert(crate::demuxer::packet::audio_part(x, body) == crate::demuxer::packet::audio_part(y, b));
}

#[verifier::spinoff_prover]
#[verifier::rlimit(40)]
proof fn lemma_video_stripped(body: Seq<u8>)
    requires
        body.len() > 0,
        body[0] >= 128,
        crate::ex_video::header(body) is Ok,
    ensures
        ({
            let (end, carries, s) = chain(7, body, 1, body[0] % 16)->Ok_0;
            let x = crate::ex_video::header(body)->Ok_0->0;
            &&& 1 <= end <= x.bytes_consumed <= body.len()
            &&& carries < 16
            &&& crate::ex_video::header(stripped(body, end, carries)) matches Ok(Some(y))
                && y.packet_type == x.packet_type && y.fourcc == x.fourcc && y.multitrack
                == x.multitrack && y.bytes_consumed == x.bytes_consumed - (end - 1) && y.frame_type
                == x.frame_type && y.video_command == x.video_command
                && y.composition_time_offset_ms == x.composition_time_offset_ms
        }),
{
    let (end, carries, s) = chain(7, body, 1, body[0] % 16)->Ok_0;
    lemma_chain_advances(7, body, 1, body[0] % 16);
    lemma_stripped(body, end, carries);
    let b = stripped(body, end, carries);
    let d = end - 1;
    let c = crate::ex_video::carrier(body, end, carries)->Ok_0;
    assert(crate::ex_video::carrier(b, 1, carries) == Ok::<crate::ex_video::Carrier, Fault>(
        crate::ex_video::Carrier { end: c.end - d, ..c },
    )) by {
        if carries == 6 {
            assert(b[1] == body[end]);
            if !(c.multitrack->0 is ManyTracksManyCodecs) {
                lemma_shifted_u32(body, b, end + 1, 2, d);
            }
        } else {
            lemma_shifted_u32(body, b, end, 1, d);
        }
    }
    assert(chain(7, b, 1, carries) == Ok::<(int, u8, Seq<ModEx>), Fault>(
        (1, carries, Seq::empty()),
    ));
    let x = crate::ex_video::header(body)->Ok_0->0;
    let owed = crate::ex_video::timed(c.multitrack, x.packet_type, c.fourcc);
    if owed {
        assert(u24_at(body, c.end) == u24_at(b, c.end - d)) by {
            assert(b[c.end - d] == body[c.end] && b[c.end - d + 1] == body[c.end + 1]
                && b[c.end - d + 2] == body[c.end + 2]);
        }
    }
    let (t, q) = crate::ex_video::composition(body, c.end, owed)->Ok_0;
    assert(crate::ex_video::composition(b, c.end - d, owed) == Ok::<(Option<i32>, int), Fault>(
        (t, q - d),
    ));
    if crate::ex_video::commanded(x.frame_type, x.packet_type) {
        assert(b[q - d] == body[q]);
    }
    assert(b[0] / 16 % 8 == body[0] / 16 % 8);
}

/// Modifiers leave the packet of a video tag as it is without them.
#[verifier::spinoff_prover]
#[verifier::rlimit(30)]
pub proof fn law_modifiers_leave_video(index: u32, ms: u32, body: Seq<u8>)
    requires
        body.len() > 0,
        body[0] >= 128,
        crate::ex_video::header(body) is Ok,
    ensures
        ({
            let (end, carries, s) = chain(7, body, 1, body[0] % 16)->Ok_0;
            video_frame(index, ms, body) == video_frame(index, ms, stripped(body, end, carries))
        }),
{
    let (end, carries, s) = chain(7, body, 1, body[0] % 16)->Ok_0;
    let b = stripped(body, end, carries);
    lemma_video_stripped(body);
    lemma_stripped(body, end, carries);
    let x = crate::ex_video::header(body)->Ok_0->0;
    let y = crate::ex_video::header(b)->Ok_0->0;
    assert(b.skip(y.bytes_consumed) == body.skip(x.bytes_consumed));
    assert(crate::demuxer::packet::video_part(x, body) == crate::demuxer::packet::video_part(y, b));
    assert(crate::demuxer::packet::ex_video_frame(index, ms, x, body)
        == crate::demuxer::packet::ex_video_frame(index, ms, y, b));
}

// ---- several tracks ---------------------------------------------------------

/// A layout of several tracks, by its four bits.
pub open spec fn layout_of(n: int) -> AvMultitrackType {
    if n == 0 {
        AvMultitrackType::OneTrack
    } else if n == 1 {
        AvMultitrackType::ManyTracks
    } else if n == 2 {
        AvMultitrackType::ManyTracksManyCodecs
    } else {
        AvMultitrackType::Reserved(n as u8)
    }
}

/// The place of the default track: the first with the id zero, or else the first.
pub open spec fn default_place(tracks: Seq<Track>, i: int) -> bool {
    &&& 0 <= i < tracks.len()
    &&& tracks[i].track_id != 0 ==> i == 0
    &&& forall|j: int|
        0 <= j < tracks.len() && (#[trigger] tracks[j]).track_id == 0 ==> tracks[i].track_id == 0
            && i <= j
}

proof fn lemma_default_place(tracks: Seq<Track>, i: int)
    requires
        default_place(tracks, i),
    ensures
        crate::demuxer::packet::default_track(tracks) == tracks[i],
{
    crate::demuxer::tracks::lemma_zero_track(tracks, 0);
    if let Some(k) = crate::demuxer::packet::zero_track(tracks, 0) {
        assert(tracks[k].track_id == 0);
        assert(i == k);
    }
}

/// The packet of an audio tag of several tracks of one codec is that of a tag of the default track
/// alone, which carries what the byte of the layout says.
pub proof fn law_audio_tracks_packet(index: u32, ms: u32, body: Seq<u8>, i: int)
    requires
        body.len() >= 6,
        body[0] == 0x95,
        body[1] / 16 <= 1,
        body[1] % 16 != 5,
        body[1] % 16 != 7,
        split(layout_of(body[1] as int / 16), u32_at(body, 2), body.skip(6)) matches Ok(tracks)
            && default_place(tracks, i),
    ensures
        ({
            let t = split(layout_of(body[1] as int / 16), u32_at(body, 2), body.skip(6))->Ok_0[i];
            let alone = seq![(0x90 + body[1] % 16) as u8] + body.subrange(2, 6) + body.skip(
                6,
            ).subrange(t.start, t.end);
            audio_frame(index, ms, body) == audio_frame(index, ms, alone)
        }),
{
    let tracks = split(layout_of(body[1] as int / 16), u32_at(body, 2), body.skip(6))->Ok_0;
    lemma_default_place(tracks, i);
    let t = tracks[i];
    let data = body.skip(6).subrange(t.start, t.end);
    let alone = seq![(0x90 + body[1] % 16) as u8] + body.subrange(2, 6) + data;
    assert(chain(7, body, 1, 5) == Ok::<(int, u8, Seq<ModEx>), Fault>((1, 5, Seq::empty())));
    assert(layout_of(body[1] as int / 16) == AvMultitrackType::of(body[1] / 16));
    let h = crate::ex_audio::header(body)->Ok_0->0;
    assert(h.bytes_consumed == 6);
    law_ex_audio_packets(index, ms, alone);
    assert(alone.skip(5) =~= data);
}

/// The packet of a video tag of several tracks of one codec is that of a tag of the default track
/// alone, which carries what the byte of the layout says.
#[verifier::spinoff_prover]
#[verifier::rlimit(40)]
pub proof fn law_video_tracks_packet(index: u32, ms: u32, body: Seq<u8>, i: int)
    requires
        body.len() >= 6,
        body[0] >= 128,
        body[0] % 16 == 6,
        body[0] / 16 != 13,
        body[1] / 16 <= 1,
        body[1] % 16 != 6,
        body[1] % 16 != 7,
        split(layout_of(body[1] as int / 16), u32_at(body, 2), body.skip(6)) matches Ok(tracks)
            && default_place(tracks, i) && tracks[i].end - tracks[i].start >= 3
            && tracks[i].fourcc == u32_at(body, 2) && 0 <= tracks[i].start && tracks[i].end
            <= body.len() - 6,
    ensures
        ({
            let t = split(layout_of(body[1] as int / 16), u32_at(body, 2), body.skip(6))->Ok_0[i];
            let alone = seq![(body[0] / 16 * 16 + body[1] % 16) as u8] + body.subrange(2, 6)
                + body.skip(6).subrange(t.start, t.end);
            video_frame(index, ms, body) == video_frame(index, ms, alone)
        }),
{
    let tracks = split(layout_of(body[1] as int / 16), u32_at(body, 2), body.skip(6))->Ok_0;
    lemma_default_place(tracks, i);
    let t = tracks[i];
    let data = body.skip(6).subrange(t.start, t.end);
    let alone = seq![(body[0] / 16 * 16 + body[1] % 16) as u8] + body.subrange(2, 6) + data;
    assert(chain(7, body, 1, 6) == Ok::<(int, u8, Seq<ModEx>), Fault>((1, 6, Seq::empty())));
    assert(layout_of(body[1] as int / 16) == AvMultitrackType::of(body[1] / 16));
    let h = crate::ex_video::header(body)->Ok_0->0;
    assert(h.bytes_consumed == 6);
    assert(alone.len() >= 8 && alone[0] / 16 == body[0] / 16 && alone[0] % 16 == body[1] % 16);
    assert(u32_at(alone, 1) == u32_at(body, 2)) by {
        assert(alone[1] == body[2] && alone[2] == body[3] && alone[3] == body[4] && alone[4]
            == body[5]);
    }
    lemma_late_codec(alone);
    law_ex_video_packets(index, ms, alone);
    assert(alone.skip(5) =~= data);
    assert(alone.skip(8) =~= data.skip(3));
    assert(alone[5] == data[0] && alone[6] == data[1] && alone[7] == data[2]);
}

/// A tag of several tracks that cannot be told apart is one packet of all of them, for no decoder.
pub proof fn law_tracks_together(index: u32, ms: u32, body: Seq<u8>, start: int)
    ensures
        crate::ex_audio::header(body) matches Ok(Some(h)) ==> h.bytes_consumed == start
            && h.multitrack is Some && chosen(h.multitrack->0, h.fourcc, body.skip(start)) is None
            ==> audio_frame(index, ms, body) == Some(
            at_once(index, ms, true, true, true, body.skip(start)),
        ),
        crate::ex_video::header(body) matches Ok(Some(h)) ==> h.bytes_consumed == start
            && h.multitrack is Some && chosen(h.multitrack->0, h.fourcc, body.skip(start)) is None
            && h.video_command is None ==> (video_frame(index, ms, body) matches Some(f) && f.header
            && f.discard && f.pts == ms && f.dts == ms && f.data == body.skip(start)),
{
}

// ---- filtered tags ----------------------------------------------------------

/// A filtered tag is one packet of what is behind the preamble, at the time of the tag, for no
/// decoder; without a stream that it belongs to there is none.
pub proof fn law_filtered_packets(h: TagHeader, body: Seq<u8>, audio: Option<u32>, video: Option<u32>)
    ensures
        ({
            let index = if h.kind == Some(TagType::Audio) {
                audio
            } else if h.kind == Some(TagType::Video) {
                video
            } else {
                None
            };
            filtered_frame(h, body, audio, video) == (match (index, preamble(body)) {
                (None, _) => Ok(None),
                (Some(_), Err(f)) => Err(Error::InvalidData(f)),
                (Some(i), Ok(p)) => Ok(
                    Some(
                        at_once(i, h.timestamp_ms, false, false, true, body.skip(p.bytes_consumed)),
                    ),
                ),
            })
        }),
{
}

// ---- streams ----------------------------------------------------------------

/// A tag gives a packet of its stream: audio is stream 0, video is stream 1, or 0 where there is
/// no audio. Tags of a kind for which there is no stream, and scripts, give none. The packet does
/// not depend on what the tags before it said.
pub proof fn law_tags_give_packets(t: Told, h: TagHeader, body: Seq<u8>)
    ensures
        ({
            let video_index = if t.audio is Some {
                1u32
            } else {
                0u32
            };
            let out = handled(t, h, body).0;
            &&& h.kind == Some(TagType::Audio) && !h.filter ==> out == Ok::<Option<Frame>, Error>(
                if t.audio is Some {
                    audio_frame(0, h.timestamp_ms, body)
                } else {
                    None
                },
            )
            &&& h.kind == Some(TagType::Video) && !h.filter ==> out == Ok::<Option<Frame>, Error>(
                if t.video is Some {
                    video_frame(video_index, h.timestamp_ms, body)
                } else {
                    None
                },
            )
            &&& h.kind != Some(TagType::Audio) && h.kind != Some(TagType::Video) ==> out == Ok::<
                Option<Frame>,
                Error,
            >(None)
            &&& h.filter && h.kind == Some(TagType::Audio) ==> out == filtered_frame(
                h,
                body,
                if t.audio is Some {
                    Some(0)
                } else {
                    None
                },
                None,
            )
            &&& h.filter && h.kind == Some(TagType::Video) ==> out == filtered_frame(
                h,
                body,
                None,
                if t.video is Some {
                    Some(video_index)
                } else {
                    None
                },
            )
        }),
{
    reveal(handled);
}

/// What a tag changes of what is known of a file: an audio tag of a stream the speakers, a video
/// tag the colours, and either the list of tracks. Filtered tags, scripts and tags without a
/// stream change nothing.
pub proof fn law_tags_are_noted(t: Told, h: TagHeader, body: Seq<u8>)
    ensures
        ({
            let n = handled(t, h, body).1;
            &&& n.duration == t.duration && n.keyframes == t.keyframes && n.encrypted == t.encrypted
                && n.audio == t.audio && n.video == t.video
            &&& h.kind == Some(TagType::Audio) && t.audio is Some && !h.filter ==> n.entries
                == audio_noted(t.entries, body) && n.channel_count == counted(t.channel_count, body)
                && n.tracks == renewed(t.tracks, body, false)
            &&& h.kind == Some(TagType::Video) && t.video is Some && !h.filter ==> n.entries
                == video_noted(t.entries, body) && n.channel_count == t.channel_count && n.tracks
                == renewed(t.tracks, body, true)
            &&& h.filter || (h.kind == Some(TagType::Audio) && t.audio is None) || (h.kind == Some(
                TagType::Video,
            ) && t.video is None) || (h.kind != Some(TagType::Audio) && h.kind != Some(
                TagType::Video,
            )) ==> n == t
        }),
{
    reveal(handled);
}

} // verus!

//! All tracks of a tag that carries several.
use vstd::prelude::*;
use crate::demuxer::packet::{audio_part, default_track, video_part, zero_track};
use crate::error::{Error, Fault};
use crate::ex_audio::{fourcc_audio_codec_id_str, ExAudio, ExAudioTagHeader};
use crate::ex_video::{fourcc_codec_id_str, ExVideo, ExVideoTagHeader};
use crate::multitrack::{join, law_split_join, packet_tracks_view, parts_of, received, split,
    split_tracks, tracks_view, AvMultitrackType, MultitrackPacketTrack, PacketTrack, Part, Track};
use crate::wire::copy_range;

verus! {

/// The name of the codec of a track.
pub open spec fn track_codec_name(fourcc: u32, is_video: bool) -> Seq<char> {
    if is_video {
        crate::ex_video::codec_name(fourcc)
    } else {
        crate::ex_audio::codec_name(fourcc)
    }
}

/// A track of a payload, with its bytes and the name of its codec.
pub open spec fn resolved(t: Track, payload: Seq<u8>, is_video: bool) -> PacketTrack {
    PacketTrack {
        track_id: t.track_id,
        fourcc: t.fourcc,
        codec_name: track_codec_name(t.fourcc, is_video),
        payload: payload.subrange(t.start, t.end),
    }
}

/// Tracks of a payload, in order.
pub open spec fn all_resolved(tracks: Seq<Track>, payload: Seq<u8>, is_video: bool) -> Seq<
    PacketTrack,
> {
    Seq::new(tracks.len(), |i: int| resolved(tracks[i], payload, is_video))
}

/// Splits a payload into its tracks, in order, each with its bytes and the name of its codec.
/// `default_fourcc` is the codec of tracks that do not name one.
pub fn resolve_tracks(
    mt_type: AvMultitrackType,
    default_fourcc: u32,
    payload: &[u8],
    is_video: bool,
) -> (r: Result<Vec<MultitrackPacketTrack>, Error>)
    ensures
        match (r, split(mt_type, default_fourcc, payload@)) {
            (Ok(v), Ok(tracks)) => packet_tracks_view(v@) == all_resolved(
                tracks,
                payload@,
                is_video,
            ),
            (Err(e), Err(f)) => e == Error::InvalidData(f),
            _ => false,
        },
{
    let tracks = match split_tracks(mt_type, default_fourcc, payload) {
        Ok(t) => t,
        Err(e) => {
            return Err(e);
        },
    };
    let ghost all = all_resolved(split(mt_type, default_fourcc, payload@)->Ok_0, payload@, is_video);
    let mut out: Vec<MultitrackPacketTrack> = Vec::new();
    let mut i: usize = 0;
    while i < tracks.len()
        invariant
            i <= tracks@.len(),
            all == all_resolved(tracks_view(tracks@), payload@, is_video),
            packet_tracks_view(out@) =~= all.take(i as int),
            forall|j: int|
                0 <= j < tracks@.len() ==> (#[trigger] tracks@[j]).payload.start
                    <= tracks@[j].payload.end && tracks@[j].payload.end <= payload@.len(),
        decreases tracks@.len() - i,
    {
        let t = &tracks[i];
        let codec_name = if is_video {
            fourcc_codec_id_str(t.fourcc)
        } else {
            fourcc_audio_codec_id_str(t.fourcc)
        };
        let track = MultitrackPacketTrack {
            track_id: t.track_id,
            fourcc: t.fourcc,
            codec_name,
            payload: copy_range(payload, t.payload.start, t.payload.end),
        };
        assert(track@ == all[i as int]);
        let ghost before = out@;
        out.push(track);
        i += 1;
        assert(packet_tracks_view(out@) =~= packet_tracks_view(before).push(track@));
    }
    assert(all.take(i as int) =~= all);
    Ok(out)
}

/// The tracks of a payload behind a header; none where they cannot be told apart.
pub open spec fn listed(
    layout: AvMultitrackType,
    fourcc: Option<u32>,
    payload: Seq<u8>,
    is_video: bool,
) -> Seq<PacketTrack> {
    let shared = match fourcc {
        Some(f) => f,
        None => 0,
    };
    match split(layout, shared, payload) {
        Ok(tracks) => all_resolved(tracks, payload, is_video),
        Err(_) => Seq::empty(),
    }
}

fn list_tracks(layout: AvMultitrackType, fourcc: Option<u32>, payload: &[u8], is_video: bool) -> (r:
    Vec<MultitrackPacketTrack>)
    ensures
        packet_tracks_view(r@) == listed(layout, fourcc, payload@, is_video),
{
    let shared: u32 = match fourcc {
        Some(f) => f,
        None => 0,
    };
    match resolve_tracks(layout, shared, payload, is_video) {
        Ok(tracks) => tracks,
        Err(_) => {
            let none: Vec<MultitrackPacketTrack> = Vec::new();
            assert(packet_tracks_view(none@) =~= Seq::empty());
            none
        },
    }
}

/// The layout of the tracks that a tag carries, the codec that they share, and where they
/// start, if it carries several.
pub open spec fn carried(body: Seq<u8>, is_video: bool) -> Option<
    (AvMultitrackType, Option<u32>, int),
> {
    if is_video {
        match crate::ex_video::header(body) {
            Ok(Some(h)) => match h.multitrack {
                Some(layout) => Some((layout, h.fourcc, h.bytes_consumed)),
                None => None,
            },
            _ => None,
        }
    } else {
        match crate::ex_audio::header(body) {
            Ok(Some(h)) => match h.multitrack {
                Some(layout) => Some((layout, h.fourcc, h.bytes_consumed)),
                None => None,
            },
            _ => None,
        }
    }
}

/// The tracks of a tag, if it carries several; none of them where they cannot be told apart.
pub open spec fn tag_tracks(body: Seq<u8>, is_video: bool) -> Option<Seq<PacketTrack>> {
    match carried(body, is_video) {
        Some((layout, fourcc, start)) => Some(listed(layout, fourcc, body.skip(start), is_video)),
        None => None,
    }
}

/// The tracks of an optional run.
pub open spec fn tracks_option_view(v: Option<Vec<MultitrackPacketTrack>>) -> Option<
    Seq<PacketTrack>,
> {
    match v {
        Some(s) => Some(packet_tracks_view(s@)),
        None => None,
    }
}

/// Lists the tracks of the body of a tag, in order, if it carries several. The list is empty
/// where the tracks cannot be told apart.
pub fn list_tag_tracks(body: &[u8], is_video: bool) -> (r: Option<Vec<MultitrackPacketTrack>>)
    ensures
        tracks_option_view(r) == tag_tracks(body@, is_video),
{
    let (layout, fourcc, start) = if is_video {
        match ExVideoTagHeader::parse(body) {
            Ok(Some(h)) => (h.multitrack, h.fourcc, h.bytes_consumed),
            _ => {
                return None;
            },
        }
    } else {
        match ExAudioTagHeader::parse(body) {
            Ok(Some(h)) => (h.multitrack, h.fourcc, h.bytes_consumed),
            _ => {
                return None;
            },
        }
    };
    match layout {
        None => None,
        Some(l) => {
            let payload = copy_range(body, start, body.len());
            assert(payload@ =~= body@.skip(start as int));
            Some(list_tracks(l, fourcc, payload.as_slice(), is_video))
        },
    }
}

/// The tracks of the last tag that carried several, behind a further tag.
pub open spec fn renewed(last: Seq<PacketTrack>, body: Seq<u8>, is_video: bool) -> Seq<PacketTrack> {
    match tag_tracks(body, is_video) {
        Some(tracks) => tracks,
        None => last,
    }
}

/// Tracks that were joined, as they are received: each with the codec that the layout gives it,
/// and its name.
pub open spec fn sent(
    layout: AvMultitrackType,
    fourcc: Option<u32>,
    parts: Seq<Part>,
    is_video: bool,
) -> Seq<PacketTrack> {
    let shared = match fourcc {
        Some(f) => f,
        None => 0,
    };
    Seq::new(
        parts.len(),
        |i: int| named_part(received(layout, shared, parts[i]), is_video),
    )
}

/// A track with the name of its codec.
pub open spec fn named_part(part: Part, is_video: bool) -> PacketTrack {
    PacketTrack {
        track_id: part.track_id,
        fourcc: part.fourcc,
        codec_name: track_codec_name(part.fourcc, is_video),
        payload: part.payload,
    }
}

/// Tracks that were joined are all listed, in order.
pub proof fn law_joined_is_listed(
    layout: AvMultitrackType,
    fourcc: Option<u32>,
    parts: Seq<Part>,
    is_video: bool,
)
    requires
        join(layout, parts) is Ok,
    ensures
        listed(layout, fourcc, join(layout, parts)->Ok_0, is_video) == sent(
            layout,
            fourcc,
            parts,
            is_video,
        ),
{
    let shared = match fourcc {
        Some(f) => f,
        None => 0,
    };
    let payload = join(layout, parts)->Ok_0;
    law_split_join(layout, shared, parts);
    let tracks = split(layout, shared, payload)->Ok_0;
    let back = parts_of(payload, tracks);
    let list = all_resolved(tracks, payload, is_video);
    let want = sent(layout, fourcc, parts, is_video);
    assert(back.len() == parts.len());
    assert forall|i: int| 0 <= i < parts.len() implies list[i] == want[i] by {
        assert(back[i] == received(layout, shared, parts[i]));
        assert(list[i] == named_part(back[i], is_video));
    }
    assert(list =~= want);
}

// ---- the default track ------------------------------------------------------

/// The place of the default track: the first with the id zero, or else the first.
pub open spec fn is_default(list: Seq<PacketTrack>, i: int) -> bool {
    &&& 0 <= i < list.len()
    &&& list[i].track_id != 0 ==> i == 0
    &&& forall|j: int|
        0 <= j < list.len() && (#[trigger] list[j]).track_id == 0 ==> list[i].track_id == 0 && i
            <= j
}

pub proof fn lemma_zero_track(tracks: Seq<Track>, from: int)
    requires
        0 <= from <= tracks.len(),
    ensures
        match zero_track(tracks, from) {
            Some(i) => from <= i < tracks.len() && tracks[i].track_id == 0 && forall|j: int|
                from <= j < i ==> (#[trigger] tracks[j]).track_id != 0,
            None => forall|j: int|
                from <= j < tracks.len() ==> (#[trigger] tracks[j]).track_id != 0,
        },
    decreases tracks.len() - from,
{
    if from < tracks.len() && tracks[from].track_id != 0 {
        lemma_zero_track(tracks, from + 1);
    }
}

proof fn lemma_default_is_listed(tracks: Seq<Track>, payload: Seq<u8>, is_video: bool) -> (i: int)
    requires
        tracks.len() > 0,
    ensures
        is_default(all_resolved(tracks, payload, is_video), i),
        tracks[i] == default_track(tracks),
{
    let list = all_resolved(tracks, payload, is_video);
    lemma_zero_track(tracks, 0);
    let i = match zero_track(tracks, 0) {
        Some(i) => i,
        None => 0,
    };
    assert forall|j: int| 0 <= j < list.len() && (#[trigger] list[j]).track_id == 0 implies
        list[i].track_id == 0 && i <= j by {
        assert(tracks[j].track_id == 0);
    }
    i
}

/// The bytes of a packet of several tracks of audio are those of the default track in the list.
pub proof fn law_audio_default_is_listed(body: Seq<u8>, h: ExAudio, i: int)
    requires
        crate::ex_audio::header(body) == Ok::<Option<ExAudio>, Fault>(Some(h)),
        tag_tracks(body, false) matches Some(list) && is_default(list, i),
    ensures
        audio_part(h, body).1 == tag_tracks(body, false)->0[i].payload,
{
    let list = tag_tracks(body, false)->0;
    let (layout, fourcc, start) = carried(body, false)->0;
    let shared = match fourcc {
        Some(f) => f,
        None => 0,
    };
    let tracks = split(layout, shared, body.skip(start))->Ok_0;
    let k = lemma_default_is_listed(tracks, body.skip(start), false);
    assert(list[k].track_id == tracks[k].track_id && list[i].track_id == tracks[i].track_id);
    assert(i == k);
}

/// The bytes of a packet of several tracks of video are those of the default track in the list,
/// without the composition time in front of a frame whose codec has one.
pub proof fn law_video_default_is_listed(body: Seq<u8>, h: ExVideo, i: int)
    requires
        crate::ex_video::header(body) == Ok::<Option<ExVideo>, Fault>(Some(h)),
        tag_tracks(body, true) matches Some(list) && is_default(list, i),
    ensures
        ({
            let t = tag_tracks(body, true)->0[i];
            let late = h.packet_type is CodedFrames && crate::demuxer::packet::reordered(t.fourcc)
                && t.payload.len() >= 3;
            video_part(h, body).2 == if late {
                t.payload.skip(3)
            } else {
                t.payload
            }
        }),
{
    let list = tag_tracks(body, true)->0;
    let (layout, fourcc, start) = carried(body, true)->0;
    let shared = match fourcc {
        Some(f) => f,
        None => 0,
    };
    let tracks = split(layout, shared, body.skip(start))->Ok_0;
    let k = lemma_default_is_listed(tracks, body.skip(start), true);
    assert(list[k].track_id == tracks[k].track_id && list[i].track_id == tracks[i].track_id);
    assert(i == k);
}

} // verus!

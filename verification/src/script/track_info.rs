//! What is known of the tracks beside the default one.
use vstd::prelude::*;
use vstd::string::*;
use crate::double::{of_int, Double};
use crate::script::meta::{lemma_properties_push, number, properties, push_number, Meta, MetaValue};
use crate::text::{decimal, push_decimal};

verus! {

/// The side that a track is on.
#[derive(Clone, Copy, Debug, PartialEq, Eq, Structural)]
pub enum MediaKind {
    Video,
    Audio,
}

/// What is known of a track. Fields of the other side are not written.
#[derive(Clone, Copy, Debug, PartialEq, Eq, Structural)]
pub struct TrackInfo {
    /// Width in pixels, of video.
    pub width: Option<u32>,
    /// Height in pixels, of video.
    pub height: Option<u32>,
    /// Frames in a second, of video.
    pub framerate: Option<Double>,
    /// Kilobits in a second, of video.
    pub video_data_rate_kbps: Option<Double>,
    /// The codec of video, by its number or FourCC.
    pub video_codec_id: Option<u32>,
    /// Kilobits in a second, of audio.
    pub audio_data_rate_kbps: Option<Double>,
    /// The number of channels, of audio.
    pub channels: Option<u32>,
    /// Samples in a second, of audio.
    pub audio_sample_rate: Option<Double>,
    /// The codec of audio, by its number or FourCC.
    pub audio_codec_id: Option<u32>,
}

/// A track of which nothing is known.
pub open spec fn no_info() -> TrackInfo {
    TrackInfo {
        width: None,
        height: None,
        framerate: None,
        video_data_rate_kbps: None,
        video_codec_id: None,
        audio_data_rate_kbps: None,
        channels: None,
        audio_sample_rate: None,
        audio_codec_id: None,
    }
}

/// An integer as a number.
pub open spec fn whole(v: Option<u32>) -> Option<Double> {
    match v {
        Some(n) => Some(of_int(n as nat)),
        None => None,
    }
}

/// The properties of a track, under the names of its side.
pub open spec fn track_properties(t: TrackInfo, kind: MediaKind) -> Seq<(Seq<char>, Meta)> {
    match kind {
        MediaKind::Video => number("width"@, whole(t.width))
            + number("height"@, whole(t.height))
            + number("videodatarate"@, t.video_data_rate_kbps)
            + number("framerate"@, t.framerate)
            + number("videocodecid"@, whole(t.video_codec_id)),
        MediaKind::Audio => number("audiodatarate"@, t.audio_data_rate_kbps)
            + number("channels"@, whole(t.channels))
            + number("samplerate"@, t.audio_sample_rate)
            + number("audiocodecid"@, whole(t.audio_codec_id)),
    }
}

fn push_whole(pairs: &mut Vec<(String, MetaValue)>, name: &str, v: Option<u32>)
    ensures
        properties(final(pairs)@) == properties(old(pairs)@) + number(name@, whole(v)),
{
    let d = match v {
        Some(n) => Some(Double::from_u32(n)),
        None => None,
    };
    push_number(pairs, name, d);
}

impl Default for TrackInfo {
    fn default() -> (r: Self)
        ensures
            r == no_info(),
    {
        TrackInfo {
            width: None,
            height: None,
            framerate: None,
            video_data_rate_kbps: None,
            video_codec_id: None,
            audio_data_rate_kbps: None,
            channels: None,
            audio_sample_rate: None,
            audio_codec_id: None,
        }
    }
}

impl TrackInfo {
    /// A track of which nothing is known.
    pub fn new() -> (r: Self)
        ensures
            r == no_info(),
    {
        TrackInfo::default()
    }

    /// Sets a field. Width in pixels, of video.
    pub fn width(self, v: u32) -> (r: Self)
        ensures
            r == (TrackInfo { width: Some(v), ..self }),
    {
        let mut t = self;
        t.width = Some(v);
        t
    }

    /// Sets a field. Height in pixels, of video.
    pub fn height(self, v: u32) -> (r: Self)
        ensures
            r == (TrackInfo { height: Some(v), ..self }),
    {
        let mut t = self;
        t.height = Some(v);
        t
    }

    /// Sets a field. Frames in a second, of video.
    pub fn framerate(self, v: Double) -> (r: Self)
        ensures
            r == (TrackInfo { framerate: Some(v), ..self }),
    {
        let mut t = self;
        t.framerate = Some(v);
        t
    }

    /// Sets a field. Kilobits in a second, of video.
    pub fn video_data_rate_kbps(self, v: Double) -> (r: Self)
        ensures
            r == (TrackInfo { video_data_rate_kbps: Some(v), ..self }),
    {
        let mut t = self;
        t.video_data_rate_kbps = Some(v);
        t
    }

    /// Sets a field. The codec of video, by its number or FourCC.
    pub fn video_codec_id(self, v: u32) -> (r: Self)
        ensures
            r == (TrackInfo { video_codec_id: Some(v), ..self }),
    {
        let mut t = self;
        t.video_codec_id = Some(v);
        t
    }

    /// Sets a field. Kilobits in a second, of audio.
    pub fn audio_data_rate_kbps(self, v: Double) -> (r: Self)
        ensures
            r == (TrackInfo { audio_data_rate_kbps: Some(v), ..self }),
    {
        let mut t = self;
        t.audio_data_rate_kbps = Some(v);
        t
    }

    /// Sets a field. The number of channels, of audio.
    pub fn channels(self, v: u32) -> (r: Self)
        ensures
            r == (TrackInfo { channels: Some(v), ..self }),
    {
        let mut t = self;
        t.channels = Some(v);
        t
    }

    /// Sets a field. Samples in a second, of audio.
    pub fn audio_sample_rate(self, v: Double) -> (r: Self)
        ensures
            r == (TrackInfo { audio_sample_rate: Some(v), ..self }),
    {
        let mut t = self;
        t.audio_sample_rate = Some(v);
        t
    }

    /// Sets a field. The codec of audio, by its number or FourCC.
    pub fn audio_codec_id(self, v: u32) -> (r: Self)
        ensures
            r == (TrackInfo { audio_codec_id: Some(v), ..self }),
    {
        let mut t = self;
        t.audio_codec_id = Some(v);
        t
    }

    fn to_pairs(&self, kind: MediaKind) -> (r: Vec<(String, MetaValue)>)
        ensures
            properties(r@) == track_properties(*self, kind),
    {
        let mut pairs: Vec<(String, MetaValue)> = Vec::new();
        assert(properties(pairs@) =~= Seq::empty());
        match kind {
            MediaKind::Video => {
                push_whole(&mut pairs, "width", self.width);
                push_whole(&mut pairs, "height", self.height);
                push_number(&mut pairs, "videodatarate", self.video_data_rate_kbps);
                push_number(&mut pairs, "framerate", self.framerate);
                push_whole(&mut pairs, "videocodecid", self.video_codec_id);
            },
            MediaKind::Audio => {
                push_number(&mut pairs, "audiodatarate", self.audio_data_rate_kbps);
                push_whole(&mut pairs, "channels", self.channels);
                push_number(&mut pairs, "samplerate", self.audio_sample_rate);
                push_whole(&mut pairs, "audiocodecid", self.audio_codec_id);
            },
        }
        assert(properties(pairs@) =~= track_properties(*self, kind));
        pairs
    }
}

/// What is known of several tracks, by their ids, in order. The default track, zero, has its
/// properties at the top of the metadata and no place here; readers pass it over.
#[derive(Debug, PartialEq, Eq)]
pub struct TrackInfoMap {
    entries: Vec<(u32, TrackInfo)>,
}

impl View for TrackInfoMap {
    type V = Seq<(u32, TrackInfo)>;

    closed spec fn view(&self) -> Seq<(u32, TrackInfo)> {
        self.entries@
    }
}

impl Clone for TrackInfoMap {
    fn clone(&self) -> (r: Self)
        ensures
            r@ == self@,
    {
        let mut entries: Vec<(u32, TrackInfo)> = Vec::new();
        let mut i: usize = 0;
        while i < self.entries.len()
            invariant
                i <= self.entries@.len(),
                entries@ == self.entries@.take(i as int),
            decreases self.entries@.len() - i,
        {
            entries.push(self.entries[i]);
            assert(entries@ =~= self.entries@.take(i + 1));
            i += 1;
        }
        assert(entries@ =~= self.entries@);
        TrackInfoMap { entries }
    }
}

impl Default for TrackInfoMap {
    fn default() -> (r: Self)
        ensures
            r@ == Seq::<(u32, TrackInfo)>::empty(),
    {
        TrackInfoMap { entries: Vec::new() }
    }
}

/// The object of a map: a property for each track, called by its id in decimal.
pub open spec fn track_map(s: Seq<(u32, TrackInfo)>, kind: MediaKind) -> Meta {
    Meta::Object(
        Seq::new(
            s.len(),
            |i: int| (decimal(s[i].0 as nat), Meta::Object(track_properties(s[i].1, kind))),
        ),
    )
}

impl TrackInfoMap {
    /// No tracks.
    pub fn new() -> (r: Self)
        ensures
            r@ == Seq::<(u32, TrackInfo)>::empty(),
    {
        TrackInfoMap::default()
    }

    /// Adds a track.
    pub fn track(self, track_id: u32, info: TrackInfo) -> (r: Self)
        ensures
            r@ == self@.push((track_id, info)),
    {
        let mut map = self;
        map.entries.push((track_id, info));
        map
    }

    /// The number of tracks.
    pub fn len(&self) -> (r: usize)
        ensures
            r == self@.len(),
    {
        self.entries.len()
    }

    /// Whether there are no tracks.
    pub fn is_empty(&self) -> (r: bool)
        ensures
            r == (self@.len() == 0),
    {
        self.entries.len() == 0
    }

    /// The object of the map.
    pub fn to_meta_value(&self, kind: MediaKind) -> (r: MetaValue)
        ensures
            r@ == track_map(self@, kind),
    {
        let mut pairs: Vec<(String, MetaValue)> = Vec::new();
        let ghost all = track_map(self@, kind)->Object_0;
        let mut i: usize = 0;
        while i < self.entries.len()
            invariant
                i <= self.entries@.len(),
                all == track_map(self@, kind)->Object_0,
                properties(pairs@) =~= all.take(i as int),
            decreases self.entries@.len() - i,
        {
            let mut k = String::new();
            push_decimal(&mut k, self.entries[i].0 as u64);
            assert(k@ =~= decimal(self.entries@[i as int].0 as nat));
            let v = MetaValue::Object(self.entries[i].1.to_pairs(kind));
            proof {
                lemma_properties_push(pairs@, k, v);
                assert(all.take(i + 1) =~= all.take(i as int).push(all[i as int]));
                assert(all[i as int] == (k@, v@));
            }
            pairs.push((k, v));
            i += 1;
        }
        assert(all.take(i as int) =~= all);
        MetaValue::Object(pairs)
    }
}

} // verus!

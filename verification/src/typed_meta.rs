//! The metadata of a file by the names that the format gives it.
//!
//! A number that is missing or malformed reads as nothing.
use vstd::prelude::*;
use vstd::string::*;
use vstd::utf8::*;
use crate::color_info::{
    ColorConfig, ColorInfo, HdrCll, HdrMdcv, BRIGHTEST, CHROMA_X_MAX, CHROMA_Y_MAX, LUMINANCE_SPLIT,
    SMALLEST,
};
use crate::demuxer::entries::{entries_view, member_key, Entry, EntryValue, Leaf};
use crate::demuxer::facts::{find_stop, read_number, spelled_number, starts, starts_with, stop_from};
use crate::demuxer::harvest::{is_under, under};
use crate::demuxer::stream::{
    lookup_bool, lookup_f64, lookup_u32, metadata_lookup_bool, metadata_lookup_f64,
    metadata_lookup_u32,
};
use crate::double::Double;
use crate::tag::{
    audio_codec_id_str_u32, audio_codec_name, video_codec_id_str_u32, video_codec_name,
};
use crate::text::{decimal, push_decimal, same_text};

pub mod laws;

verus! {

/// Metadata, and the numbers that its texts read as, by the place of the entry.
#[derive(Clone, Copy, Debug)]
pub struct TypedMetadata<'a> {
    entries: &'a [Entry],
    readings: &'a [Option<Double>],
}

/// What metadata is, apart from how it is held in memory.
pub struct Bag {
    pub entries: Seq<(Seq<char>, Leaf)>,
    pub readings: Seq<Option<Double>>,
}

impl Bag {
    /// The first finite number under `key`.
    pub open spec fn number(self, key: Seq<char>) -> Option<Double> {
        lookup_f64(self.entries, self.readings, key, 0)
    }

    /// The first integer of 32 bits under `key`.
    pub open spec fn integer(self, key: Seq<char>) -> Option<u32> {
        lookup_u32(self.entries, self.readings, key, 0)
    }

    /// The truth value in the first entry under `key`.
    pub open spec fn truth(self, key: Seq<char>) -> Option<bool> {
        lookup_bool(self.entries, key, 0)
    }
}

impl<'a> View for TypedMetadata<'a> {
    type V = Bag;

    closed spec fn view(&self) -> Bag {
        Bag { entries: entries_view(self.entries@), readings: self.readings@ }
    }
}

/// The first of two that is there.
pub open spec fn preferred(a: Option<Double>, b: Option<Double>) -> Option<Double> {
    if a is Some {
        a
    } else {
        b
    }
}

fn prefer(a: Option<Double>, b: Option<Double>) -> (r: Option<Double>)
    ensures
        r == preferred(a, b),
{
    if a.is_some() {
        a
    } else {
        b
    }
}

/// What stands in the first entry under `key`, from the place `from` on.
pub open spec fn lookup(s: Seq<(Seq<char>, Leaf)>, key: Seq<char>, from: int) -> Option<Leaf>
    decreases s.len() - from,
{
    if !(0 <= from < s.len()) {
        None
    } else if s[from].0 == key {
        Some(s[from].1)
    } else {
        lookup(s, key, from + 1)
    }
}

fn find<'a>(entries: &'a [Entry], key: &str) -> (r: Option<&'a EntryValue>)
    ensures
        match (r, lookup(entries_view(entries@), key@, 0)) {
            (Some(v), Some(x)) => v@ == x,
            (None, None) => true,
            _ => false,
        },
{
    let ghost s = entries_view(entries@);
    let mut i: usize = 0;
    while i < entries.len()
        invariant
            i <= entries@.len(),
            s == entries_view(entries@),
            lookup(s, key@, 0) == lookup(s, key@, i as int),
        decreases entries@.len() - i,
    {
        assert(s[i as int] == entries@[i as int]@);
        if same_text(entries[i].key.as_str(), key) {
            return Some(&entries[i].value);
        }
        i += 1;
    }
    None
}

// ---- the properties of the file ---------------------------------------------

impl<'a> TypedMetadata<'a> {
    /// Looks at metadata. `readings` has, for each entry that is a text, the number that it reads
    /// as; entries behind its end read as none.
    pub fn new(entries: &'a [Entry], readings: &'a [Option<Double>]) -> (r: Self)
        ensures
            r@.entries == entries_view(entries@),
            r@.readings == readings@,
    {
        TypedMetadata { entries, readings }
    }

    /// The length in seconds.
    pub fn duration(&self) -> (r: Option<Double>)
        ensures
            r == self@.number("duration"@),
    {
        metadata_lookup_f64(self.entries, self.readings, "duration")
    }

    /// The number of bytes.
    pub fn filesize(&self) -> (r: Option<Double>)
        ensures
            r == self@.number("filesize"@),
    {
        metadata_lookup_f64(self.entries, self.readings, "filesize")
    }

    /// Pixels in a row.
    pub fn width(&self) -> (r: Option<u32>)
        ensures
            r == self@.integer("width"@),
    {
        metadata_lookup_u32(self.entries, self.readings, "width")
    }

    /// Rows of pixels.
    pub fn height(&self) -> (r: Option<u32>)
        ensures
            r == self@.integer("height"@),
    {
        metadata_lookup_u32(self.entries, self.readings, "height")
    }

    /// Frames in a second.
    pub fn framerate(&self) -> (r: Option<Double>)
        ensures
            r == self@.number("framerate"@),
    {
        metadata_lookup_f64(self.entries, self.readings, "framerate")
    }

    /// Frames in a second, by the other name.
    pub fn videoframerate(&self) -> (r: Option<Double>)
        ensures
            r == self@.number("videoframerate"@),
    {
        metadata_lookup_f64(self.entries, self.readings, "videoframerate")
    }

    /// Frames in a second by either name, the other one first.
    pub fn effective_framerate(&self) -> (r: Option<Double>)
        ensures
            r == preferred(self@.number("videoframerate"@), self@.number("framerate"@)),
    {
        prefer(self.videoframerate(), self.framerate())
    }

    /// Kilobits of video in a second.
    pub fn video_data_rate_kbps(&self) -> (r: Option<Double>)
        ensures
            r == self@.number("videodatarate"@),
    {
        metadata_lookup_f64(self.entries, self.readings, "videodatarate")
    }

    /// Kilobits of audio in a second.
    pub fn audio_data_rate_kbps(&self) -> (r: Option<Double>)
        ensures
            r == self@.number("audiodatarate"@),
    {
        metadata_lookup_f64(self.entries, self.readings, "audiodatarate")
    }

    /// Samples in a second.
    pub fn audio_sample_rate(&self) -> (r: Option<Double>)
        ensures
            r == self@.number("audiosamplerate"@),
    {
        metadata_lookup_f64(self.entries, self.readings, "audiosamplerate")
    }

    /// Bits of a sample.
    pub fn audio_sample_size(&self) -> (r: Option<u32>)
        ensures
            r == self@.integer("audiosamplesize"@),
    {
        metadata_lookup_u32(self.entries, self.readings, "audiosamplesize")
    }

    /// By how much audio is late, in seconds.
    pub fn audio_delay_seconds(&self) -> (r: Option<Double>)
        ensures
            r == self@.number("audiodelay"@),
    {
        metadata_lookup_f64(self.entries, self.readings, "audiodelay")
    }

    /// The codec of video, by its number or FourCC.
    pub fn video_codec_id(&self) -> (r: Option<u32>)
        ensures
            r == self@.integer("videocodecid"@),
    {
        metadata_lookup_u32(self.entries, self.readings, "videocodecid")
    }

    /// The codec of audio, by its number or FourCC.
    pub fn audio_codec_id(&self) -> (r: Option<u32>)
        ensures
            r == self@.integer("audiocodecid"@),
    {
        metadata_lookup_u32(self.entries, self.readings, "audiocodecid")
    }

    /// The name of the codec of video.
    pub fn video_codec_id_str(&self) -> (r: Option<String>)
        ensures
            match (r, self@.integer("videocodecid"@)) {
                (Some(t), Some(id)) => t@ == (if id <= 255 {
                    video_codec_name(id as u8)
                } else {
                    crate::ex_video::codec_name(id)
                }),
                (None, None) => true,
                _ => false,
            },
    {
        match self.video_codec_id() {
            Some(id) => Some(video_codec_id_str_u32(id)),
            None => None,
        }
    }

    /// The name of the codec of audio.
    pub fn audio_codec_id_str(&self) -> (r: Option<String>)
        ensures
            match (r, self@.integer("audiocodecid"@)) {
                (Some(t), Some(id)) => t@ == (if id <= 255 {
                    audio_codec_name(id as u8)
                } else {
                    crate::ex_audio::codec_name(id)
                }),
                (None, None) => true,
                _ => false,
            },
    {
        match self.audio_codec_id() {
            Some(id) => Some(audio_codec_id_str_u32(id)),
            None => None,
        }
    }

    /// Whether there are two channels.
    pub fn stereo(&self) -> (r: Option<bool>)
        ensures
            r == self@.truth("stereo"@),
    {
        metadata_lookup_bool(self.entries, "stereo")
    }

    /// Whether the last frame is a keyframe.
    pub fn can_seek_to_end(&self) -> (r: Option<bool>)
        ensures
            r == self@.truth("canSeekToEnd"@),
    {
        metadata_lookup_bool(self.entries, "canSeekToEnd")
    }

    /// When the file was made: free text, or a date.
    pub fn creationdate(&self) -> (r: Option<&'a EntryValue>)
        ensures
            match (r, lookup(self@.entries, "creationdate"@, 0)) {
                (Some(v), Some(x)) => v@ == x,
                (None, None) => true,
                _ => false,
            },
    {
        find(self.entries, "creationdate")
    }

    /// When the file was made, where that is a date: milliseconds since the epoch, and minutes
    /// east of UTC.
    pub fn creationdate_as_date(&self) -> (r: Option<(Double, i16)>)
        ensures
            r == (match lookup(self@.entries, "creationdate"@, 0) {
                Some(Leaf::Date { time_ms, tz }) => Some((time_ms, tz)),
                _ => None::<(Double, i16)>,
            }),
    {
        match find(self.entries, "creationdate") {
            Some(EntryValue::Date { time_ms, tz }) => Some((*time_ms, *tz)),
            _ => None,
        }
    }
}

// ---- tracks -----------------------------------------------------------------

/// What is known of a track of video beside the default one.
#[derive(Clone, Copy, Debug, PartialEq, Eq, Structural)]
pub struct TypedVideoTrackInfo {
    pub track_id: u32,
    pub width: Option<u32>,
    pub height: Option<u32>,
    pub video_data_rate_kbps: Option<Double>,
    pub video_codec_id: Option<u32>,
    pub framerate: Option<Double>,
}

/// What is known of a track of audio beside the default one.
#[derive(Clone, Copy, Debug, PartialEq, Eq, Structural)]
pub struct TypedAudioTrackInfo {
    pub track_id: u32,
    pub audio_data_rate_kbps: Option<Double>,
    pub audio_sample_rate: Option<Double>,
    pub channels: Option<u32>,
    pub audio_codec_id: Option<u32>,
}

/// The key that the properties of a track stand under.
pub open spec fn track_key(map: Seq<char>, id: u32) -> Seq<char> {
    member_key(map, decimal(id as nat))
}

/// The key of a property of a track.
pub open spec fn field_key(map: Seq<char>, id: u32, name: Seq<char>) -> Seq<char> {
    member_key(track_key(map, id), name)
}

/// A key is of a property of a track. The default track, zero, has no properties here.
pub open spec fn of_track(key: Seq<char>, map: Seq<char>, id: u32) -> bool {
    id > 0 && starts(key, track_key(map, id) + "."@)
}

/// A track has a property.
pub open spec fn has_track(s: Seq<(Seq<char>, Leaf)>, map: Seq<char>, id: u32) -> bool {
    exists|i: int| 0 <= i < s.len() && of_track((#[trigger] s[i]).0, map, id)
}

/// What is known of a track of video.
pub open spec fn video_track(b: Bag, id: u32) -> Option<TypedVideoTrackInfo> {
    let map = "videotrackidinfomap"@;
    if has_track(b.entries, map, id) {
        Some(
            TypedVideoTrackInfo {
                track_id: id,
                width: b.integer(field_key(map, id, "width"@)),
                height: b.integer(field_key(map, id, "height"@)),
                video_data_rate_kbps: b.number(field_key(map, id, "videodatarate"@)),
                video_codec_id: b.integer(field_key(map, id, "videocodecid"@)),
                framerate: preferred(
                    b.number(field_key(map, id, "videoframerate"@)),
                    b.number(field_key(map, id, "framerate"@)),
                ),
            },
        )
    } else {
        None
    }
}

/// What is known of a track of audio.
pub open spec fn audio_track(b: Bag, id: u32) -> Option<TypedAudioTrackInfo> {
    let map = "audiotrackidinfomap"@;
    if has_track(b.entries, map, id) {
        Some(
            TypedAudioTrackInfo {
                track_id: id,
                audio_data_rate_kbps: b.number(field_key(map, id, "audiodatarate"@)),
                audio_sample_rate: b.number(field_key(map, id, "samplerate"@)),
                channels: b.integer(field_key(map, id, "channels"@)),
                audio_codec_id: b.integer(field_key(map, id, "audiocodecid"@)),
            },
        )
    } else {
        None
    }
}

/// The track that a key is of a property of.
pub open spec fn track_of(key: Seq<char>, map: Seq<char>) -> Option<u32> {
    let prefix = map + "."@;
    if starts(key, prefix) {
        let s = encode_utf8(key);
        let from = encode_utf8(prefix).len() as int;
        match spelled_number(s.subrange(from, stop_from(s, from))) {
            Some(n) => if of_track(key, map, n) {
                Some(n)
            } else {
                None
            },
            None => None,
        }
    } else {
        None
    }
}

/// The tracks with properties among the first `n` entries, each once, by their first property.
pub open spec fn track_ids(s: Seq<(Seq<char>, Leaf)>, map: Seq<char>, n: nat) -> Seq<u32>
    decreases n,
{
    if n == 0 || n > s.len() {
        Seq::empty()
    } else {
        let before = track_ids(s, map, (n - 1) as nat);
        match track_of(s[n - 1].0, map) {
            Some(id) => if before.contains(id) {
                before
            } else {
                before.push(id)
            },
            None => before,
        }
    }
}

fn make_track_key(map: &str, id: u32) -> (r: String)
    ensures
        r@ == track_key(map@, id),
{
    let mut k = map.to_string();
    k.append(".");
    push_decimal(&mut k, id as u64);
    k
}

fn make_field_key(map: &str, id: u32, name: &str) -> (r: String)
    ensures
        r@ == field_key(map@, id, name@),
{
    let mut k = make_track_key(map, id);
    k.append(".");
    k.append(name);
    k
}

fn is_of_track(key: &str, map: &str, id: u32) -> (r: bool)
    ensures
        r == of_track(key@, map@, id),
{
    let mut k = make_track_key(map, id);
    k.append(".");
    id > 0 && starts_with(key, k.as_str())
}

fn read_track(key: &str, map: &str) -> (r: Option<u32>)
    ensures
        r == track_of(key@, map@),
{
    let mut prefix = map.to_string();
    prefix.append(".");
    if !starts_with(key, prefix.as_str()) {
        return None;
    }
    let s = key.as_bytes();
    let from: usize = prefix.as_str().as_bytes().len();
    let to: usize = find_stop(s, from);
    match read_number(s, from, to) {
        Some(n) => if is_of_track(key, map, n) {
            Some(n)
        } else {
            None
        },
        None => None,
    }
}

fn find_track(entries: &[Entry], map: &str, id: u32) -> (r: bool)
    ensures
        r == has_track(entries_view(entries@), map@, id),
{
    let ghost s = entries_view(entries@);
    let mut i: usize = 0;
    while i < entries.len()
        invariant
            i <= entries@.len(),
            s == entries_view(entries@),
            forall|j: int| 0 <= j < i ==> !of_track((#[trigger] s[j]).0, map@, id),
        decreases entries@.len() - i,
    {
        assert(s[i as int] == entries@[i as int]@);
        if is_of_track(entries[i].key.as_str(), map, id) {
            return true;
        }
        i += 1;
    }
    false
}

fn has_id(ids: &Vec<u32>, id: u32) -> (r: bool)
    ensures
        r == ids@.contains(id),
{
    let mut i: usize = 0;
    while i < ids.len()
        invariant
            i <= ids@.len(),
            forall|j: int| 0 <= j < i ==> ids@[j] != id,
        decreases ids@.len() - i,
    {
        if ids[i] == id {
            return true;
        }
        i += 1;
    }
    false
}

fn list_tracks(entries: &[Entry], map: &str) -> (r: Vec<u32>)
    ensures
        r@ == track_ids(entries_view(entries@), map@, entries@.len()),
{
    let ghost s = entries_view(entries@);
    let mut ids: Vec<u32> = Vec::new();
    let mut i: usize = 0;
    while i < entries.len()
        invariant
            i <= entries@.len(),
            s == entries_view(entries@),
            ids@ == track_ids(s, map@, i as nat),
        decreases entries@.len() - i,
    {
        assert(s[i as int] == entries@[i as int]@);
        if let Some(id) = read_track(entries[i].key.as_str(), map) {
            if !has_id(&ids, id) {
                ids.push(id);
            }
        }
        i += 1;
    }
    ids
}

impl<'a> TypedMetadata<'a> {
    fn read_integer(&self, map: &str, id: u32, name: &str) -> (r: Option<u32>)
        ensures
            r == self@.integer(field_key(map@, id, name@)),
    {
        let k = make_field_key(map, id, name);
        metadata_lookup_u32(self.entries, self.readings, k.as_str())
    }

    fn read_double(&self, map: &str, id: u32, name: &str) -> (r: Option<Double>)
        ensures
            r == self@.number(field_key(map@, id, name@)),
    {
        let k = make_field_key(map, id, name);
        metadata_lookup_f64(self.entries, self.readings, k.as_str())
    }

    /// What is known of a track of video beside the default one.
    pub fn video_track_info(&self, track_id: u32) -> (r: Option<TypedVideoTrackInfo>)
        ensures
            r == video_track(self@, track_id),
    {
        let map = "videotrackidinfomap";
        if !find_track(self.entries, map, track_id) {
            return None;
        }
        Some(
            TypedVideoTrackInfo {
                track_id,
                width: self.read_integer(map, track_id, "width"),
                height: self.read_integer(map, track_id, "height"),
                video_data_rate_kbps: self.read_double(map, track_id, "videodatarate"),
                video_codec_id: self.read_integer(map, track_id, "videocodecid"),
                framerate: prefer(
                    self.read_double(map, track_id, "videoframerate"),
                    self.read_double(map, track_id, "framerate"),
                ),
            },
        )
    }

    /// What is known of a track of audio beside the default one.
    pub fn audio_track_info(&self, track_id: u32) -> (r: Option<TypedAudioTrackInfo>)
        ensures
            r == audio_track(self@, track_id),
    {
        let map = "audiotrackidinfomap";
        if !find_track(self.entries, map, track_id) {
            return None;
        }
        Some(
            TypedAudioTrackInfo {
                track_id,
                audio_data_rate_kbps: self.read_double(map, track_id, "audiodatarate"),
                audio_sample_rate: self.read_double(map, track_id, "samplerate"),
                channels: self.read_integer(map, track_id, "channels"),
                audio_codec_id: self.read_integer(map, track_id, "audiocodecid"),
            },
        )
    }

    /// What is known of each track of video beside the default one.
    pub fn video_track_info_map(&self) -> (r: Vec<TypedVideoTrackInfo>)
        ensures
            ({
                let ids = track_ids(self@.entries, "videotrackidinfomap"@, self@.entries.len());
                r@.len() == ids.len() && forall|i: int|
                    0 <= i < ids.len() ==> Some(#[trigger] r@[i]) == video_track(self@, ids[i])
            }),
    {
        let ids = list_tracks(self.entries, "videotrackidinfomap");
        let mut out: Vec<TypedVideoTrackInfo> = Vec::new();
        let mut i: usize = 0;
        while i < ids.len()
            invariant
                i <= ids@.len(),
                ids@ == track_ids(self@.entries, "videotrackidinfomap"@, self@.entries.len()),
                out@.len() == i,
                forall|j: int|
                    0 <= j < i ==> Some(#[trigger] out@[j]) == video_track(self@, ids@[j]),
            decreases ids@.len() - i,
        {
            proof {
                lemma_ids_have_tracks(
                    self@.entries,
                    "videotrackidinfomap"@,
                    self@.entries.len(),
                    i as int,
                );
            }
            if let Some(t) = self.video_track_info(ids[i]) {
                out.push(t);
            }
            i += 1;
        }
        out
    }

    /// What is known of each track of audio beside the default one.
    pub fn audio_track_info_map(&self) -> (r: Vec<TypedAudioTrackInfo>)
        ensures
            ({
                let ids = track_ids(self@.entries, "audiotrackidinfomap"@, self@.entries.len());
                r@.len() == ids.len() && forall|i: int|
                    0 <= i < ids.len() ==> Some(#[trigger] r@[i]) == audio_track(self@, ids[i])
            }),
    {
        let ids = list_tracks(self.entries, "audiotrackidinfomap");
        let mut out: Vec<TypedAudioTrackInfo> = Vec::new();
        let mut i: usize = 0;
        while i < ids.len()
            invariant
                i <= ids@.len(),
                ids@ == track_ids(self@.entries, "audiotrackidinfomap"@, self@.entries.len()),
                out@.len() == i,
                forall|j: int|
                    0 <= j < i ==> Some(#[trigger] out@[j]) == audio_track(self@, ids@[j]),
            decreases ids@.len() - i,
        {
            proof {
                lemma_ids_have_tracks(
                    self@.entries,
                    "audiotrackidinfomap"@,
                    self@.entries.len(),
                    i as int,
                );
            }
            if let Some(t) = self.audio_track_info(ids[i]) {
                out.push(t);
            }
            i += 1;
        }
        out
    }
}

/// A track that is listed has a property.
proof fn lemma_ids_have_tracks(s: Seq<(Seq<char>, Leaf)>, map: Seq<char>, n: nat, i: int)
    requires
        0 <= i < track_ids(s, map, n).len(),
    ensures
        has_track(s, map, track_ids(s, map, n)[i]),
    decreases n,
{
    if 0 < n <= s.len() {
        let before = track_ids(s, map, (n - 1) as nat);
        if i < before.len() {
            lemma_ids_have_tracks(s, map, (n - 1) as nat, i);
        } else {
            assert(of_track(s[n - 1].0, map, track_ids(s, map, n)[i]));
        }
    }
}

// ---- colours ----------------------------------------------------------------

/// The colours in metadata.
#[derive(Clone, Copy, Debug)]
pub struct TypedColorInfo<'a> {
    bag: TypedMetadata<'a>,
}

impl<'a> View for TypedColorInfo<'a> {
    type V = Bag;

    closed spec fn view(&self) -> Bag {
        self.bag@
    }
}

/// An integer of 8 bits.
pub open spec fn byte(n: Option<u32>) -> Option<u8> {
    match n {
        Some(v) => if v <= 255 {
            Some(v as u8)
        } else {
            None
        },
        None => None,
    }
}

fn to_byte(n: Option<u32>) -> (r: Option<u8>)
    ensures
        r == byte(n),
{
    match n {
        Some(v) => if v <= 255 {
            Some(v as u8)
        } else {
            None
        },
        None => None,
    }
}

/// There were colours, or they were taken back.
pub open spec fn has_colors(s: Seq<(Seq<char>, Leaf)>) -> bool {
    exists|i: int| 0 <= i < s.len() && under((#[trigger] s[i]).0, "colorinfo"@)
}

impl<'a> TypedMetadata<'a> {
    /// The colours of the picture, if there were any or they were taken back.
    pub fn color_info(&self) -> (r: Option<TypedColorInfo<'a>>)
        ensures
            match r {
                Some(c) => has_colors(self@.entries) && c@ == self@,
                None => !has_colors(self@.entries),
            },
    {
        let ghost s = self@.entries;
        let mut i: usize = 0;
        while i < self.entries.len()
            invariant
                i <= self.entries@.len(),
                s == self@.entries,
                s == entries_view(self.entries@),
                forall|j: int| 0 <= j < i ==> !under((#[trigger] s[j]).0, "colorinfo"@),
            decreases self.entries@.len() - i,
        {
            assert(s[i as int] == self.entries@[i as int]@);
            if is_under(self.entries[i].key.as_str(), "colorinfo") {
                return Some(TypedColorInfo { bag: *self });
            }
            i += 1;
        }
        None
    }
}

/// Bits of a sample that can be written.
pub open spec fn depth(n: Option<u8>) -> Option<u8> {
    match n {
        Some(b) => if 8 <= b && b <= 16 {
            n
        } else {
            None
        },
        None => None,
    }
}

/// A number between two others, given by their bits.
pub open spec fn between(n: Option<Double>, lo: u64, hi: u64) -> Option<Double> {
    match n {
        Some(d) => if d.rank() < (Double { bits: lo }).rank() || d.rank() > (Double { bits: hi }).rank() {
            None
        } else {
            n
        },
        None => None,
    }
}

fn keep_depth(n: Option<u8>) -> (r: Option<u8>)
    ensures
        r == depth(n),
{
    match n {
        Some(b) => if 8 <= b && b <= 16 {
            n
        } else {
            None
        },
        None => None,
    }
}

fn keep_between(n: Option<Double>, lo: u64, hi: u64) -> (r: Option<Double>)
    ensures
        r == between(n, lo, hi),
{
    match n {
        Some(d) => if d.less(Double { bits: lo }) || (Double { bits: hi }).less(d) {
            None
        } else {
            n
        },
        None => None,
    }
}

/// How samples stand for colours, as far as that is given and can be written.
pub open spec fn config_in(b: Bag) -> ColorConfig {
    ColorConfig {
        bit_depth: depth(byte(b.integer("colorinfo.colorConfig.bitDepth"@))),
        color_primaries: byte(b.integer("colorinfo.colorConfig.colorPrimaries"@)),
        transfer_characteristics: byte(b.integer("colorinfo.colorConfig.transferCharacteristics"@)),
        matrix_coefficients: byte(b.integer("colorinfo.colorConfig.matrixCoefficients"@)),
    }
}

/// How bright the content is, as far as that is given and can be written.
pub open spec fn cll_in(b: Bag) -> HdrCll {
    HdrCll {
        max_fall: between(b.number("colorinfo.hdrCll.maxFall"@), SMALLEST, BRIGHTEST),
        max_cll: between(b.number("colorinfo.hdrCll.maxCLL"@), SMALLEST, BRIGHTEST),
    }
}

/// The display that the content was mastered on, as far as that is given and can be written.
pub open spec fn mdcv_in(b: Bag) -> HdrMdcv {
    HdrMdcv {
        red_x: between(b.number("colorinfo.hdrMdcv.redX"@), SMALLEST, CHROMA_X_MAX),
        red_y: between(b.number("colorinfo.hdrMdcv.redY"@), SMALLEST, CHROMA_Y_MAX),
        green_x: between(b.number("colorinfo.hdrMdcv.greenX"@), SMALLEST, CHROMA_X_MAX),
        green_y: between(b.number("colorinfo.hdrMdcv.greenY"@), SMALLEST, CHROMA_Y_MAX),
        blue_x: between(b.number("colorinfo.hdrMdcv.blueX"@), SMALLEST, CHROMA_X_MAX),
        blue_y: between(b.number("colorinfo.hdrMdcv.blueY"@), SMALLEST, CHROMA_Y_MAX),
        white_point_x: between(b.number("colorinfo.hdrMdcv.whitePointX"@), SMALLEST, CHROMA_X_MAX),
        white_point_y: between(b.number("colorinfo.hdrMdcv.whitePointY"@), SMALLEST, CHROMA_Y_MAX),
        max_luminance: between(b.number("colorinfo.hdrMdcv.maxLuminance"@), LUMINANCE_SPLIT, BRIGHTEST),
        min_luminance: between(b.number("colorinfo.hdrMdcv.minLuminance"@), SMALLEST, LUMINANCE_SPLIT),
    }
}

/// A group in which something is given.
pub open spec fn given<T>(group: T, nothing: T) -> Option<T> {
    if group == nothing {
        None
    } else {
        Some(group)
    }
}

/// Nothing of how samples stand for colours.
pub open spec fn no_config() -> ColorConfig {
    ColorConfig {
        bit_depth: None,
        color_primaries: None,
        transfer_characteristics: None,
        matrix_coefficients: None,
    }
}

/// The colours that can be written: groups in which nothing is given are left out.
pub open spec fn colors_in(b: Bag) -> ColorInfo {
    ColorInfo {
        color_config: given(config_in(b), no_config()),
        hdr_cll: given(cll_in(b), HdrCll { max_fall: None, max_cll: None }),
        hdr_mdcv: given(mdcv_in(b), crate::color_info::no_mdcv()),
    }
}

impl<'a> TypedColorInfo<'a> {
    /// Bits of a sample.
    pub fn bit_depth(&self) -> (r: Option<u8>)
        ensures
            r == byte(self@.integer("colorinfo.colorConfig.bitDepth"@)),
    {
        to_byte(
            metadata_lookup_u32(self.bag.entries, self.bag.readings, "colorinfo.colorConfig.bitDepth"),
        )
    }

    /// The primaries.
    pub fn color_primaries(&self) -> (r: Option<u8>)
        ensures
            r == byte(self@.integer("colorinfo.colorConfig.colorPrimaries"@)),
    {
        to_byte(
            metadata_lookup_u32(self.bag.entries, self.bag.readings, "colorinfo.colorConfig.colorPrimaries"),
        )
    }

    /// The transfer characteristics.
    pub fn transfer_characteristics(&self) -> (r: Option<u8>)
        ensures
            r == byte(self@.integer("colorinfo.colorConfig.transferCharacteristics"@)),
    {
        to_byte(
            metadata_lookup_u32(self.bag.entries, self.bag.readings, "colorinfo.colorConfig.transferCharacteristics"),
        )
    }

    /// The matrix coefficients.
    pub fn matrix_coefficients(&self) -> (r: Option<u8>)
        ensures
            r == byte(self@.integer("colorinfo.colorConfig.matrixCoefficients"@)),
    {
        to_byte(
            metadata_lookup_u32(self.bag.entries, self.bag.readings, "colorinfo.colorConfig.matrixCoefficients"),
        )
    }

    /// The largest average of a frame.
    pub fn max_fall(&self) -> (r: Option<Double>)
        ensures
            r == self@.number("colorinfo.hdrCll.maxFall"@),
    {
        metadata_lookup_f64(self.bag.entries, self.bag.readings, "colorinfo.hdrCll.maxFall")
    }

    /// The brightest pixel.
    pub fn max_cll(&self) -> (r: Option<Double>)
        ensures
            r == self@.number("colorinfo.hdrCll.maxCLL"@),
    {
        metadata_lookup_f64(self.bag.entries, self.bag.readings, "colorinfo.hdrCll.maxCLL")
    }

    /// The red primary, x.
    pub fn red_x(&self) -> (r: Option<Double>)
        ensures
            r == self@.number("colorinfo.hdrMdcv.redX"@),
    {
        metadata_lookup_f64(self.bag.entries, self.bag.readings, "colorinfo.hdrMdcv.redX")
    }

    /// The red primary, y.
    pub fn red_y(&self) -> (r: Option<Double>)
        ensures
            r == self@.number("colorinfo.hdrMdcv.redY"@),
    {
        metadata_lookup_f64(self.bag.entries, self.bag.readings, "colorinfo.hdrMdcv.redY")
    }

    /// The green primary, x.
    pub fn green_x(&self) -> (r: Option<Double>)
        ensures
            r == self@.number("colorinfo.hdrMdcv.greenX"@),
    {
        metadata_lookup_f64(self.bag.entries, self.bag.readings, "colorinfo.hdrMdcv.greenX")
    }

    /// The green primary, y.
    pub fn green_y(&self) -> (r: Option<Double>)
        ensures
            r == self@.number("colorinfo.hdrMdcv.greenY"@),
    {
        metadata_lookup_f64(self.bag.entries, self.bag.readings, "colorinfo.hdrMdcv.greenY")
    }

    /// The blue primary, x.
    pub fn blue_x(&self) -> (r: Option<Double>)
        ensures
            r == self@.number("colorinfo.hdrMdcv.blueX"@),
    {
        metadata_lookup_f64(self.bag.entries, self.bag.readings, "colorinfo.hdrMdcv.blueX")
    }

    /// The blue primary, y.
    pub fn blue_y(&self) -> (r: Option<Double>)
        ensures
            r == self@.number("colorinfo.hdrMdcv.blueY"@),
    {
        metadata_lookup_f64(self.bag.entries, self.bag.readings, "colorinfo.hdrMdcv.blueY")
    }

    /// The white point, x.
    pub fn white_point_x(&self) -> (r: Option<Double>)
        ensures
            r == self@.number("colorinfo.hdrMdcv.whitePointX"@),
    {
        metadata_lookup_f64(self.bag.entries, self.bag.readings, "colorinfo.hdrMdcv.whitePointX")
    }

    /// The white point, y.
    pub fn white_point_y(&self) -> (r: Option<Double>)
        ensures
            r == self@.number("colorinfo.hdrMdcv.whitePointY"@),
    {
        metadata_lookup_f64(self.bag.entries, self.bag.readings, "colorinfo.hdrMdcv.whitePointY")
    }

    /// The peak luminance.
    pub fn max_luminance(&self) -> (r: Option<Double>)
        ensures
            r == self@.number("colorinfo.hdrMdcv.maxLuminance"@),
    {
        metadata_lookup_f64(self.bag.entries, self.bag.readings, "colorinfo.hdrMdcv.maxLuminance")
    }

    /// The lowest luminance.
    pub fn min_luminance(&self) -> (r: Option<Double>)
        ensures
            r == self@.number("colorinfo.hdrMdcv.minLuminance"@),
    {
        metadata_lookup_f64(self.bag.entries, self.bag.readings, "colorinfo.hdrMdcv.minLuminance")
    }

    /// Whether the colours were taken back.
    pub fn is_reset_sentinel(&self) -> (r: bool)
        ensures
            r == (lookup(self@.entries, "colorinfo"@, 0) == Some(Leaf::Text("undefined"@))),
    {
        match find(self.bag.entries, "colorinfo") {
            Some(EntryValue::Text(t)) => same_text(t.as_str(), "undefined"),
            _ => false,
        }
    }

    /// The colours as they can be written again. What is out of bounds is left out, and so is a
    /// group of which nothing is left.
    pub fn to_color_info(&self) -> (r: ColorInfo)
        ensures
            r == colors_in(self@),
    {
        let config = ColorConfig {
            bit_depth: keep_depth(self.bit_depth()),
            color_primaries: self.color_primaries(),
            transfer_characteristics: self.transfer_characteristics(),
            matrix_coefficients: self.matrix_coefficients(),
        };
        let cll = HdrCll {
            max_fall: keep_between(self.max_fall(), SMALLEST, BRIGHTEST),
            max_cll: keep_between(self.max_cll(), SMALLEST, BRIGHTEST),
        };
        let mdcv = HdrMdcv {
            red_x: keep_between(self.red_x(), SMALLEST, CHROMA_X_MAX),
            red_y: keep_between(self.red_y(), SMALLEST, CHROMA_Y_MAX),
            green_x: keep_between(self.green_x(), SMALLEST, CHROMA_X_MAX),
            green_y: keep_between(self.green_y(), SMALLEST, CHROMA_Y_MAX),
            blue_x: keep_between(self.blue_x(), SMALLEST, CHROMA_X_MAX),
            blue_y: keep_between(self.blue_y(), SMALLEST, CHROMA_Y_MAX),
            white_point_x: keep_between(self.white_point_x(), SMALLEST, CHROMA_X_MAX),
            white_point_y: keep_between(self.white_point_y(), SMALLEST, CHROMA_Y_MAX),
            max_luminance: keep_between(self.max_luminance(), LUMINANCE_SPLIT, BRIGHTEST),
            min_luminance: keep_between(self.min_luminance(), SMALLEST, LUMINANCE_SPLIT),
        };
        ColorInfo {
            color_config: if config == ColorConfig::default() {
                None
            } else {
                Some(config)
            },
            hdr_cll: if cll == HdrCll::default() {
                None
            } else {
                Some(cll)
            },
            hdr_mdcv: if mdcv == HdrMdcv::default() {
                None
            } else {
                Some(mdcv)
            },
        }
    }
}

} // verus!

//! What a file holds, and what its tags give.
use vstd::prelude::*;
use crate::demuxer::discover::{counted, seed_view, FirstTag, Scan, Seed};
use crate::demuxer::entries::{entries_view, push_entry, push_text, Entry, EntryValue, Leaf};
use crate::demuxer::facts::{text_view, Discovery, EncryptionHeadline, Headline, KeyframeIndex, Toc};
use crate::demuxer::harvest::{
    audio_noted, harvest_audio_config, harvest_video_metadata_frame, video_noted,
};
use crate::demuxer::packet::{
    audio_frame, build_audio_packet, build_encrypted_packet, build_video_packet, filtered_frame,
    outcome_view, video_frame, Frame, Packet,
};
use crate::demuxer::stream::{
    build_audio_stream, build_video_stream, picture, sound, AudioStream, Picture, Sound, VideoStream,
};
use crate::demuxer::tracks::{list_tag_tracks, renewed};
use crate::double::Double;
use crate::error::{Error, Fault};
use crate::multitrack::{packet_tracks_view, MultitrackPacketTrack, PacketTrack};
use crate::tag::{TagHeader, TagType};

verus! {

/// What a file holds, apart from how it is held in memory.
#[verifier::ext_equal]
pub struct Told {
    pub entries: Seq<(Seq<char>, Leaf)>,
    pub duration: Option<Double>,
    pub keyframes: Option<Toc>,
    pub encrypted: bool,
    pub audio: Option<Seed>,
    pub video: Option<Seed>,
    pub channel_count: Option<u8>,
    /// The tracks of the last tag that carried several.
    pub tracks: Seq<PacketTrack>,
}

impl Told {
    /// A table of keyframes is in order, and first tags have headers.
    pub open spec fn well_formed(self) -> bool {
        &&& self.keyframes matches Some(t) ==> t.well_formed()
        &&& self.audio matches Some(s) ==> s.body.len() > 0 && crate::ex_audio::header(
            s.body,
        ) is Ok
        &&& self.video matches Some(s) ==> s.body.len() > 0 && crate::ex_video::header(
            s.body,
        ) is Ok
    }

    /// The number of streams.
    pub open spec fn stream_count(self) -> nat {
        (if self.audio is Some {
            1nat
        } else {
            0
        }) + (if self.video is Some {
            1nat
        } else {
            0
        })
    }

    /// The index of the stream of audio: the first.
    pub open spec fn audio_index(self) -> Option<u32> {
        if self.audio is Some {
            Some(0)
        } else {
            None
        }
    }

    /// The index of the stream of video: behind the stream of audio, if there is one.
    pub open spec fn video_index(self) -> Option<u32> {
        match (self.video, self.audio) {
            (None, _) => None,
            (Some(_), Some(_)) => Some(1),
            (Some(_), None) => Some(0),
        }
    }
}

/// An entry of a number that may not be there.
pub open spec fn number_entry(key: Seq<char>, n: Option<Double>) -> Seq<(Seq<char>, Leaf)> {
    match n {
        Some(d) => seq![(key, Leaf::Number(d))],
        None => Seq::empty(),
    }
}

/// An entry of a text that may not be there.
pub open spec fn text_entry(key: Seq<char>, t: Option<Seq<char>>) -> Seq<(Seq<char>, Leaf)> {
    match t {
        Some(s) => seq![(key, Leaf::Text(s))],
        None => Seq::empty(),
    }
}

/// What the metadata says of encryption.
pub open spec fn encryption_entries(e: Option<Headline>) -> Seq<(Seq<char>, Leaf)> {
    match e {
        Some(h) => seq![("encryption"@, Leaf::Text("true"@))] + number_entry(
            "encryption.version"@,
            h.version,
        ) + text_entry("encryption.method"@, h.method) + text_entry(
            "encryption.algorithm"@,
            h.algorithm,
        ) + number_entry("encryption.key_length"@, h.key_length) + text_entry(
            "encryption.key_subtype"@,
            h.key_subtype,
        ),
        None => Seq::empty(),
    }
}

/// What a search found a file to hold.
pub open spec fn told_by(st: Scan) -> Told {
    Told {
        entries: st.facts.entries + encryption_entries(st.facts.encryption) + text_entry(
            "xmp"@,
            st.facts.xmp,
        ),
        duration: st.facts.duration,
        keyframes: st.facts.keyframes,
        encrypted: st.facts.encryption is Some,
        audio: st.audio,
        video: st.video,
        channel_count: st.channel_count,
        tracks: Seq::empty(),
    }
}

/// What a tag gives, and what the file is known to hold behind it.
#[verifier::opaque]
pub open spec fn handled(t: Told, h: TagHeader, body: Seq<u8>) -> (
    Result<Option<Frame>, Error>,
    Told,
) {
    if h.filter {
        (filtered_frame(h, body, t.audio_index(), t.video_index()), t)
    } else {
        match h.kind {
            Some(TagType::Audio) => match t.audio_index() {
                Some(i) => (
                    Ok(audio_frame(i, h.timestamp_ms, body)),
                    Told {
                        entries: audio_noted(t.entries, body),
                        channel_count: counted(t.channel_count, body),
                        tracks: renewed(t.tracks, body, false),
                        ..t
                    },
                ),
                None => (Ok(None), t),
            },
            Some(TagType::Video) => match t.video_index() {
                Some(i) => (
                    Ok(video_frame(i, h.timestamp_ms, body)),
                    Told {
                        entries: video_noted(t.entries, body),
                        tracks: renewed(t.tracks, body, true),
                        ..t
                    },
                ),
                None => (Ok(None), t),
            },
            _ => (Ok(None), t),
        }
    }
}

/// A tag leaves the streams as they are.
pub proof fn lemma_handled_keeps(t: Told, h: TagHeader, body: Seq<u8>)
    ensures
        handled(t, h, body).1 == (Told {
            entries: handled(t, h, body).1.entries,
            channel_count: handled(t, h, body).1.channel_count,
            tracks: handled(t, h, body).1.tracks,
            ..t
        }),
{
    reveal(handled);
}

/// A file that is read tag by tag: what it holds, and the state that its tags leave.
#[derive(Debug)]
pub struct Session {
    entries: Vec<Entry>,
    duration: Option<Double>,
    keyframes: Option<KeyframeIndex>,
    encrypted: bool,
    audio: Option<FirstTag>,
    video: Option<FirstTag>,
    channel_count: Option<u8>,
    tracks: Vec<MultitrackPacketTrack>,
}

impl View for Session {
    type V = Told;

    closed spec fn view(&self) -> Told {
        Told {
            entries: entries_view(self.entries@),
            duration: self.duration,
            keyframes: match self.keyframes {
                Some(k) => Some(k@),
                None => None,
            },
            encrypted: self.encrypted,
            audio: seed_view(self.audio),
            video: seed_view(self.video),
            channel_count: self.channel_count,
            tracks: packet_tracks_view(self.tracks@),
        }
    }
}

fn push_number_entry(out: &mut Vec<Entry>, key: &str, n: Option<Double>)
    ensures
        entries_view(final(out)@) == entries_view(old(out)@) + number_entry(key@, n),
{
    if let Some(d) = n {
        push_entry(out, key, EntryValue::Number(d));
    }
    assert(entries_view(out@) =~= entries_view(old(out)@) + number_entry(key@, n));
}

fn push_text_entry(out: &mut Vec<Entry>, key: &str, t: &Option<String>)
    ensures
        entries_view(final(out)@) == entries_view(old(out)@) + text_entry(
            key@,
            text_view(*t),
        ),
{
    if let Some(s) = t {
        push_text(out, key, s.as_str());
    }
    assert(entries_view(out@) =~= entries_view(old(out)@) + text_entry(key@, text_view(*t)));
}

fn push_encryption(out: &mut Vec<Entry>, h: &EncryptionHeadline)
    ensures
        entries_view(final(out)@) == entries_view(old(out)@) + encryption_entries(Some(h@)),
{
    push_text(out, "encryption", "true");
    push_number_entry(out, "encryption.version", h.version);
    push_text_entry(out, "encryption.method", &h.method);
    push_text_entry(out, "encryption.algorithm", &h.algorithm);
    push_number_entry(out, "encryption.key_length", h.key_length);
    push_text_entry(out, "encryption.key_subtype", &h.key_subtype);
    assert(entries_view(out@) =~= entries_view(old(out)@) + encryption_entries(Some(h@)));
}

impl Session {
    pub(crate) fn make(
        facts: Discovery,
        audio: Option<FirstTag>,
        video: Option<FirstTag>,
        channel_count: Option<u8>,
        Ghost(st): Ghost<Scan>,
    ) -> (r: Self)
        requires
            st.well_formed(),
            st.facts == facts@,
            st.audio == seed_view(audio),
            st.video == seed_view(video),
            st.channel_count == channel_count,
        ensures
            r@ == told_by(st),
            r@.well_formed(),
    {
        let Discovery { mut entries, duration, keyframes, encryption, xmp } = facts;
        if let Some(h) = &encryption {
            push_encryption(&mut entries, h);
        }
        let encrypted = encryption.is_some();
        assert(entries_view(entries@) =~= st.facts.entries + encryption_entries(
            st.facts.encryption,
        ));
        push_text_entry(&mut entries, "xmp", &xmp);
        let tracks: Vec<MultitrackPacketTrack> = Vec::new();
        let r = Session {
            entries,
            duration,
            keyframes,
            encrypted,
            audio,
            video,
            channel_count,
            tracks,
        };
        assert(r@ =~= told_by(st));
        r
    }

    /// What the file says of itself.
    pub fn metadata(&self) -> (r: &Vec<Entry>)
        ensures
            entries_view(r@) == self@.entries,
    {
        &self.entries
    }

    /// The length of the file in seconds.
    pub fn duration_seconds(&self) -> (r: Option<Double>)
        ensures
            r == self@.duration,
    {
        self.duration
    }

    /// Whether the file says that it is encrypted.
    pub fn is_encrypted(&self) -> (r: bool)
        ensures
            r == self@.encrypted,
    {
        self.encrypted
    }

    /// The table of keyframes.
    pub fn keyframe_index(&self) -> (r: Option<&KeyframeIndex>)
        ensures
            match (r, self@.keyframes) {
                (Some(k), Some(t)) => k@ == t,
                (None, None) => true,
                _ => false,
            },
    {
        self.keyframes.as_ref()
    }

    /// The tracks of the last tag that carried several, in order.
    pub fn last_multitrack_tracks(&self) -> (r: &Vec<MultitrackPacketTrack>)
        ensures
            packet_tracks_view(r@) == self@.tracks,
    {
        &self.tracks
    }

    fn note_tracks(&mut self, body: &[u8], is_video: bool)
        ensures
            final(self)@ == (Told {
                tracks: renewed(old(self)@.tracks, body@, is_video),
                ..old(self)@
            }),
    {
        if let Some(tracks) = list_tag_tracks(body, is_video) {
            self.tracks = tracks;
        }
        assert(self@ =~= (Told {
            tracks: renewed(old(self)@.tracks, body@, is_video),
            ..old(self)@
        }));
    }

    /// The number of streams.
    pub fn stream_count(&self) -> (r: u32)
        ensures
            r == self@.stream_count(),
    {
        let audio: u32 = if self.audio.is_some() {
            1
        } else {
            0
        };
        let video: u32 = if self.video.is_some() {
            1
        } else {
            0
        };
        audio + video
    }

    /// The index of the stream of audio.
    pub fn audio_stream_index(&self) -> (r: Option<u32>)
        ensures
            r == self@.audio_index(),
    {
        if self.audio.is_some() {
            Some(0)
        } else {
            None
        }
    }

    /// The index of the stream of video.
    pub fn video_stream_index(&self) -> (r: Option<u32>)
        ensures
            r == self@.video_index(),
    {
        if self.video.is_none() {
            None
        } else if self.audio.is_some() {
            Some(1)
        } else {
            Some(0)
        }
    }

    /// The metadata in front of the stream of audio.
    pub fn audio_metadata(&self) -> (r: Option<&Vec<Entry>>)
        ensures
            match (r, self@.audio) {
                (Some(v), Some(s)) => entries_view(v@) == s.entries,
                (None, None) => true,
                _ => false,
            },
    {
        match &self.audio {
            Some(t) => Some(&t.entries),
            None => None,
        }
    }

    /// The metadata in front of the stream of video.
    pub fn video_metadata(&self) -> (r: Option<&Vec<Entry>>)
        ensures
            match (r, self@.video) {
                (Some(v), Some(s)) => entries_view(v@) == s.entries,
                (None, None) => true,
                _ => false,
            },
    {
        match &self.video {
            Some(t) => Some(&t.entries),
            None => None,
        }
    }

    /// Describes the stream of audio. `readings` has, for each entry of [`Self::audio_metadata`]
    /// that is a text, the number that it reads as.
    pub fn audio_stream(&self, readings: &[Option<Double>]) -> (r: Option<AudioStream>)
        requires
            self@.well_formed(),
        ensures
            match (r, self@.audio) {
                (Some(d), Some(s)) => Ok::<Sound, Fault>(d@) == sound(
                    s.body,
                    s.entries,
                    readings@,
                    self@.channel_count,
                ),
                (None, None) => true,
                _ => false,
            },
    {
        match &self.audio {
            Some(t) => match build_audio_stream(
                t.body.as_slice(),
                t.entries.as_slice(),
                readings,
                self.channel_count,
            ) {
                Ok(d) => Some(d),
                Err(_) => {
                    assert(false);
                    None
                },
            },
            None => None,
        }
    }

    /// Describes the stream of video. `readings` has, for each entry of [`Self::video_metadata`]
    /// that is a text, the number that it reads as.
    pub fn video_stream(&self, readings: &[Option<Double>]) -> (r: Option<VideoStream>)
        requires
            self@.well_formed(),
        ensures
            match (r, self@.video) {
                (Some(d), Some(s)) => Ok::<Picture, Fault>(d@) == picture(
                    s.body,
                    s.entries,
                    readings@,
                ),
                (None, None) => true,
                _ => false,
            },
    {
        match &self.video {
            Some(t) => match build_video_stream(t.body.as_slice(), t.entries.as_slice(), readings) {
                Ok(d) => Some(d),
                Err(_) => {
                    assert(false);
                    None
                },
            },
            None => None,
        }
    }

    /// Takes in a tag, and hands out the packet that it gives, if any.
    pub fn take_tag(&mut self, h: &TagHeader, body: &[u8]) -> (r: Result<Option<Packet>, Error>)
        requires
            old(self)@.well_formed(),
        ensures
            (outcome_view(r), final(self)@) == handled(old(self)@, *h, body@),
            final(self)@.well_formed(),
    {
        reveal(handled);
        let ghost before = self@;
        let audio = self.audio_stream_index();
        let video = self.video_stream_index();
        if h.filter {
            return build_encrypted_packet(h, body, audio, video);
        }
        match h.kind {
            Some(TagType::Audio) => match audio {
                Some(i) => {
                    let n = harvest_audio_config(&mut self.entries, body);
                    if n.is_some() {
                        self.channel_count = n;
                    }
                    self.note_tracks(body, false);
                    assert(self@ =~= handled(before, *h, body@).1);
                    Ok(build_audio_packet(i, h, body))
                },
                None => Ok(None),
            },
            Some(TagType::Video) => match video {
                Some(i) => {
                    harvest_video_metadata_frame(&mut self.entries, body);
                    self.note_tracks(body, true);
                    assert(self@ =~= handled(before, *h, body@).1);
                    Ok(build_video_packet(i, h, body))
                },
                None => Ok(None),
            },
            _ => Ok(None),
        }
    }
}

} // verus!

//! Looking for what a file holds.
use vstd::prelude::*;
use crate::demuxer::entries::{clone_entries, entries_view, Entry, Leaf};
use crate::demuxer::facts::{script, Discovery, Facts};
use crate::demuxer::harvest::{
    audio_noted, harvest_audio_config, harvest_video_metadata_frame, speakers_in, video_noted,
};
use crate::demuxer::session::{told_by, Session};
use crate::error::{Error, Fault};
use crate::ex_audio::ExAudioTagHeader;
use crate::ex_video::ExVideoTagHeader;
use crate::tag::{TagHeader, TagType};

verus! {

/// The number of tags that are looked at for streams.
pub const MAX_DISCOVERY_TAGS: u32 = 256;

/// The first tag of a stream, and what metadata there was before it.
#[derive(Debug, PartialEq, Eq)]
pub struct FirstTag {
    pub body: Vec<u8>,
    pub entries: Vec<Entry>,
}

/// What a first tag is, apart from how it is held in memory.
#[verifier::ext_equal]
pub struct Seed {
    pub body: Seq<u8>,
    pub entries: Seq<(Seq<char>, Leaf)>,
}

impl View for FirstTag {
    type V = Seed;

    open spec fn view(&self) -> Seed {
        Seed { body: self.body@, entries: entries_view(self.entries@) }
    }
}

/// The first tag of a stream that may not be there.
pub open spec fn seed_view(t: Option<FirstTag>) -> Option<Seed> {
    match t {
        Some(s) => Some(s@),
        None => None,
    }
}

/// What the tags up to some place said.
#[verifier::ext_equal]
pub struct Scan {
    pub facts: Facts,
    /// There was a script tag.
    pub script: bool,
    pub audio: Option<Seed>,
    pub video: Option<Seed>,
    /// Channels of the last configuration of speakers.
    pub channel_count: Option<u8>,
}

impl Scan {
    /// There was no tag.
    pub open spec fn none() -> Scan {
        Scan {
            facts: Facts::none(),
            script: false,
            audio: None,
            video: None,
            channel_count: None,
        }
    }

    /// A table of keyframes is in order, and first tags have headers.
    pub open spec fn well_formed(self) -> bool {
        &&& self.facts.well_formed()
        &&& self.audio matches Some(s) ==> s.body.len() > 0 && crate::ex_audio::header(
            s.body,
        ) is Ok
        &&& self.video matches Some(s) ==> s.body.len() > 0 && crate::ex_video::header(
            s.body,
        ) is Ok
    }
}

/// The number of channels behind an audio tag.
pub open spec fn counted(n: Option<u8>, body: Seq<u8>) -> Option<u8> {
    match speakers_in(body) {
        Some(c) => Some(c.channel_count),
        None => n,
    }
}

/// What an audio tag adds. The first that is not empty starts the stream.
pub open spec fn see_audio(st: Scan, h: TagHeader, body: Seq<u8>) -> Result<Scan, Error> {
    let first = st.audio is None && body.len() > 0;
    match crate::ex_audio::header(body) {
        Err(f) if first => Err(Error::InvalidData(f)),
        _ => Ok(
            Scan {
                facts: if h.filter {
                    st.facts
                } else {
                    Facts { entries: audio_noted(st.facts.entries, body), ..st.facts }
                },
                audio: if first {
                    Some(Seed { body, entries: st.facts.entries })
                } else {
                    st.audio
                },
                channel_count: if h.filter {
                    st.channel_count
                } else {
                    counted(st.channel_count, body)
                },
                ..st
            },
        ),
    }
}

/// What a video tag adds. The first that is not empty starts the stream.
pub open spec fn see_video(st: Scan, h: TagHeader, body: Seq<u8>) -> Result<Scan, Error> {
    let first = st.video is None && body.len() > 0;
    match crate::ex_video::header(body) {
        Err(f) if first => Err(Error::InvalidData(f)),
        _ => Ok(
            Scan {
                facts: if h.filter {
                    st.facts
                } else {
                    Facts { entries: video_noted(st.facts.entries, body), ..st.facts }
                },
                video: if first {
                    Some(Seed { body, entries: st.facts.entries })
                } else {
                    st.video
                },
                ..st
            },
        ),
    }
}

/// What a tag adds.
#[verifier::opaque]
pub open spec fn see(st: Scan, kind: TagType, h: TagHeader, body: Seq<u8>) -> Result<Scan, Error> {
    match kind {
        TagType::ScriptData => Ok(
            Scan { facts: script(st.facts, body), script: true, ..st },
        ),
        TagType::Audio => see_audio(st, h, body),
        TagType::Video => see_video(st, h, body),
    }
}

/// Both streams are found.
pub open spec fn complete(st: Scan) -> bool {
    st.audio is Some && st.video is Some
}

/// How far a search has come.
pub struct Search {
    pub scan: Scan,
    /// The number of tags that are still to be looked at.
    pub left: nat,
}

/// A search for what a file holds, tag by tag.
#[derive(Debug)]
pub struct Opening {
    facts: Discovery,
    script: bool,
    audio: Option<FirstTag>,
    video: Option<FirstTag>,
    channel_count: Option<u8>,
    left: u32,
}

impl Opening {
    spec fn scan(&self) -> Scan {
        Scan {
            facts: self.facts@,
            script: self.script,
            audio: seed_view(self.audio),
            video: seed_view(self.video),
            channel_count: self.channel_count,
        }
    }

    fn take_audio(&mut self, h: &TagHeader, body: Vec<u8>) -> (r: Result<(), Error>)
        requires
            old(self).scan().well_formed(),
        ensures
            final(self).left == old(self).left,
            match (r, see_audio(old(self).scan(), *h, body@)) {
                (Ok(_), Ok(x)) => final(self).scan() == x && x.well_formed(),
                (Err(e), Err(x)) => e == x,
                _ => false,
            },
    {
        let first = self.audio.is_none() && body.len() > 0;
        let ghost before = self.scan();
        let mut seed: Option<FirstTag> = None;
        if first {
            if let Err(e) = ExAudioTagHeader::parse(body.as_slice()) {
                return Err(e);
            }
            let copy = body.clone();
            assert(copy@ =~= body@);
            seed = Some(FirstTag { body: copy, entries: clone_entries(&self.facts.entries) });
            assert(seed_view(seed) == Some(Seed { body: body@, entries: before.facts.entries }));
        }
        if !h.filter {
            let n = harvest_audio_config(&mut self.facts.entries, body.as_slice());
            if n.is_some() {
                self.channel_count = n;
            }
        }
        if first {
            self.audio = seed;
        }
        assert(self.scan().facts.entries == (if h.filter {
            before.facts.entries
        } else {
            audio_noted(before.facts.entries, body@)
        }));
        assert(Ok::<Scan, Error>(self.scan()) =~= see_audio(before, *h, body@));
        Ok(())
    }

    fn take_video(&mut self, h: &TagHeader, body: Vec<u8>) -> (r: Result<(), Error>)
        requires
            old(self).scan().well_formed(),
        ensures
            final(self).left == old(self).left,
            match (r, see_video(old(self).scan(), *h, body@)) {
                (Ok(_), Ok(x)) => final(self).scan() == x && x.well_formed(),
                (Err(e), Err(x)) => e == x,
                _ => false,
            },
    {
        let first = self.video.is_none() && body.len() > 0;
        let ghost before = self.scan();
        let mut seed: Option<FirstTag> = None;
        if first {
            if let Err(e) = ExVideoTagHeader::parse(body.as_slice()) {
                return Err(e);
            }
            let copy = body.clone();
            assert(copy@ =~= body@);
            seed = Some(FirstTag { body: copy, entries: clone_entries(&self.facts.entries) });
            assert(seed_view(seed) == Some(Seed { body: body@, entries: before.facts.entries }));
        }
        if !h.filter {
            harvest_video_metadata_frame(&mut self.facts.entries, body.as_slice());
        }
        if first {
            self.video = seed;
        }
        assert(self.scan().facts.entries == (if h.filter {
            before.facts.entries
        } else {
            video_noted(before.facts.entries, body@)
        }));
        assert(Ok::<Scan, Error>(self.scan()) =~= see_video(before, *h, body@));
        Ok(())
    }

    fn take_known(&mut self, kind: TagType, h: &TagHeader, body: Vec<u8>) -> (r: Result<(), Error>)
        requires
            old(self).scan().well_formed(),
        ensures
            final(self).left == old(self).left,
            match (r, see(old(self).scan(), kind, *h, body@)) {
                (Ok(_), Ok(x)) => final(self).scan() == x && x.well_formed(),
                (Err(e), Err(x)) => e == x,
                _ => false,
            },
    {
        reveal(see);
        match kind {
            TagType::ScriptData => {
                self.facts.parse_script_body(body.as_slice());
                self.script = true;
                assert(self.scan() =~= (Scan {
                    facts: script(old(self).scan().facts, body@),
                    script: true,
                    ..old(self).scan()
                }));
                Ok(())
            },
            TagType::Audio => self.take_audio(h, body),
            TagType::Video => self.take_video(h, body),
        }
    }
}

impl View for Opening {
    type V = Search;

    closed spec fn view(&self) -> Search {
        Search { scan: self.scan(), left: self.left as nat }
    }
}

impl Opening {
    /// Nothing was looked at.
    pub fn new() -> (r: Self)
        ensures
            r@.scan == Scan::none(),
            r@.left == MAX_DISCOVERY_TAGS,
            r@.scan.well_formed(),
    {
        let r = Opening {
            facts: Discovery::new(),
            script: false,
            audio: None,
            video: None,
            channel_count: None,
            left: MAX_DISCOVERY_TAGS,
        };
        assert(r.scan() =~= Scan::none());
        r
    }

    /// Whether another tag is to be looked at.
    pub fn wants_more(&self) -> (r: bool)
        ensures
            r == (self@.left > 0 && !complete(self@.scan)),
    {
        self.left > 0 && !(self.audio.is_some() && self.video.is_some())
    }

    /// Looks at a tag. Of a tag of an unknown kind, only the number counts.
    pub fn take_tag(&mut self, h: &TagHeader, body: Vec<u8>) -> (r: Result<(), Error>)
        requires
            old(self)@.scan.well_formed(),
            old(self)@.left > 0,
        ensures
            match h.kind {
                None => r is Ok && final(self)@.scan == old(self)@.scan,
                Some(kind) => match (r, see(old(self)@.scan, kind, *h, body@)) {
                    (Ok(_), Ok(x)) => final(self)@.scan == x,
                    (Err(e), Err(x)) => e == x,
                    _ => false,
                },
            },
            r is Ok ==> final(self)@.scan.well_formed() && final(self)@.left == old(self)@.left - 1,
    {
        if let Some(kind) = h.kind {
            if let Err(e) = self.take_known(kind, h, body) {
                return Err(e);
            }
        }
        let ghost seen = self.scan();
        self.left = self.left - 1;
        assert(self.scan() =~= seen);
        Ok(())
    }

    /// What was found: there must be a stream or a script.
    pub fn finish(self) -> (r: Result<Session, Error>)
        requires
            self@.scan.well_formed(),
        ensures
            match r {
                Ok(s) => found(self@.scan) && s@ == told_by(self@.scan) && s@.well_formed(),
                Err(e) => !found(self@.scan) && e == Error::InvalidData(Fault::NoStreams),
            },
    {
        let Opening { facts, script, audio, video, channel_count, left } = self;
        if audio.is_none() && video.is_none() && !script {
            return Err(Error::InvalidData(Fault::NoStreams));
        }
        let s = Session::make(facts, audio, video, channel_count, Ghost(self.scan()));
        Ok(s)
    }
}

/// There is a stream or a script.
pub open spec fn found(st: Scan) -> bool {
    st.audio is Some || st.video is Some || st.script
}

} // verus!

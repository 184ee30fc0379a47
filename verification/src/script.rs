//! Script tags: file metadata, cue points and XMP packets.
//!
//! The body of a script tag is a name and a value, both in AMF0.
use vstd::prelude::*;
use vstd::string::*;
use crate::amf0::decode::value;
use crate::amf0::encode::{emit_ecma_array_start, emit_string};
use crate::amf0::laws::law_read_named;
use crate::amf0::{write_ecma_array_start, write_string, AmfTree};
use crate::double::Double;
use crate::error::{Error, Fault};
use crate::tag::{emit_tag, tagged, write_tag, TagType};
use crate::wire::{lemma_wrote_and, wrote, Emit};

pub mod meta;
pub mod track_info;

use meta::{clone_pairs, emit_meta, emit_properties, law_written_as_tree, lemma_properties_push,
    properties, tree, write_framed, write_meta_value, Meta};
pub use meta::MetaValue;
use track_info::{track_map, MediaKind};
pub use track_info::{TrackInfo, TrackInfoMap};

verus! {

/// The properties of a file, in order.
#[derive(Debug, PartialEq)]
pub struct MetadataBag {
    entries: Vec<(String, MetaValue)>,
}

impl View for MetadataBag {
    type V = Seq<(Seq<char>, Meta)>;

    closed spec fn view(&self) -> Seq<(Seq<char>, Meta)> {
        properties(self.entries@)
    }
}

impl Default for MetadataBag {
    fn default() -> (r: Self)
        ensures
            r@ == Seq::<(Seq<char>, Meta)>::empty(),
    {
        let r = MetadataBag { entries: Vec::new() };
        assert(r@ =~= Seq::empty());
        r
    }
}

impl Clone for MetadataBag {
    fn clone(&self) -> (r: Self)
        ensures
            r@ == self@,
    {
        MetadataBag { entries: clone_pairs(&self.entries) }
    }
}

impl MetadataBag {
    /// No properties.
    pub fn new() -> (r: Self)
        ensures
            r@ == Seq::<(Seq<char>, Meta)>::empty(),
    {
        MetadataBag::default()
    }

    fn with(self, key: &str, value: MetaValue) -> (r: Self)
        ensures
            r@ == self@.push((key@, value@)),
    {
        let mut bag = self;
        let k = key.to_string();
        proof {
            lemma_properties_push(bag.entries@, k, value);
        }
        bag.entries.push((k, value));
        bag
    }

    /// Adds a number.
    pub fn number(self, key: &str, n: Double) -> (r: Self)
        ensures
            r@ == self@.push((key@, Meta::Number(n))),
    {
        self.with(key, MetaValue::Number(n))
    }

    /// Adds a boolean.
    pub fn boolean(self, key: &str, b: bool) -> (r: Self)
        ensures
            r@ == self@.push((key@, Meta::Boolean(b))),
    {
        self.with(key, MetaValue::Boolean(b))
    }

    /// Adds a string.
    pub fn string(self, key: &str, s: &str) -> (r: Self)
        ensures
            r@ == self@.push((key@, Meta::String(s@))),
    {
        self.with(key, MetaValue::String(s.to_string()))
    }

    /// Adds a date: milliseconds since the epoch, and minutes east of UTC.
    pub fn date(self, key: &str, time_ms: Double, tz: i16) -> (r: Self)
        ensures
            r@ == self@.push((key@, Meta::Date { time_ms, tz })),
    {
        self.with(key, MetaValue::Date { time_ms, tz })
    }

    /// Adds a value of any kind, such as an object.
    pub fn object(self, key: &str, value: MetaValue) -> (r: Self)
        ensures
            r@ == self@.push((key@, value@)),
    {
        self.with(key, value)
    }

    /// Adds a null value.
    pub fn null(self, key: &str) -> (r: Self)
        ensures
            r@ == self@.push((key@, Meta::Null)),
    {
        self.with(key, MetaValue::Null)
    }

    /// Adds an undefined value.
    pub fn undefined(self, key: &str) -> (r: Self)
        ensures
            r@ == self@.push((key@, Meta::Undefined)),
    {
        self.with(key, MetaValue::Undefined)
    }

    /// Adds the text of an XML document.
    pub fn xml(self, key: &str, s: &str) -> (r: Self)
        ensures
            r@ == self@.push((key@, Meta::Xml(s@))),
    {
        self.with(key, MetaValue::Xml(s.to_string()))
    }

    /// Adds an array.
    pub fn strict_array(self, key: &str, items: Vec<MetaValue>) -> (r: Self)
        ensures
            r@ == self@.push((key@, Meta::StrictArray(meta::metas(items@)))),
    {
        self.with(key, MetaValue::StrictArray(items))
    }

    /// Adds the table of key frames: where their tags stand, and when they are shown.
    pub fn keyframes(self, file_positions: Vec<u64>, times_seconds: Vec<Double>) -> (r: Self)
        ensures
            r@ == self@.push(
                (
                    "keyframes"@,
                    Meta::Keyframes {
                        file_positions: file_positions@,
                        times_seconds: times_seconds@,
                    },
                ),
            ),
    {
        self.with("keyframes", MetaValue::Keyframes { file_positions, times_seconds })
    }

    /// Adds what is known of the video tracks beside the default one.
    pub fn video_track_info_map(self, map: &TrackInfoMap) -> (r: Self)
        ensures
            r@ == self@.push(("videoTrackIdInfoMap"@, track_map(map@, MediaKind::Video))),
    {
        self.with("videoTrackIdInfoMap", map.to_meta_value(MediaKind::Video))
    }

    /// Adds what is known of the audio tracks beside the default one.
    pub fn audio_track_info_map(self, map: &TrackInfoMap) -> (r: Self)
        ensures
            r@ == self@.push(("audioTrackIdInfoMap"@, track_map(map@, MediaKind::Audio))),
    {
        self.with("audioTrackIdInfoMap", map.to_meta_value(MediaKind::Audio))
    }

    /// The number of properties.
    pub fn len(&self) -> (r: usize)
        ensures
            r == self@.len(),
    {
        self.entries.len()
    }

    /// Whether there are no properties.
    pub fn is_empty(&self) -> (r: bool)
        ensures
            r == (self@.len() == 0),
    {
        self.entries.len() == 0
    }

    /// The properties, in order.
    pub fn entries(&self) -> (r: &[(String, MetaValue)])
        ensures
            properties(r@) == self@,
    {
        self.entries.as_slice()
    }
}

/// The properties of an object, in order.
#[derive(Debug, PartialEq)]
pub struct ObjectBuilder {
    entries: Vec<(String, MetaValue)>,
}

impl View for ObjectBuilder {
    type V = Seq<(Seq<char>, Meta)>;

    closed spec fn view(&self) -> Seq<(Seq<char>, Meta)> {
        properties(self.entries@)
    }
}

impl Default for ObjectBuilder {
    fn default() -> (r: Self)
        ensures
            r@ == Seq::<(Seq<char>, Meta)>::empty(),
    {
        let r = ObjectBuilder { entries: Vec::new() };
        assert(r@ =~= Seq::empty());
        r
    }
}

impl Clone for ObjectBuilder {
    fn clone(&self) -> (r: Self)
        ensures
            r@ == self@,
    {
        ObjectBuilder { entries: clone_pairs(&self.entries) }
    }
}

impl ObjectBuilder {
    /// No properties.
    pub fn new() -> (r: Self)
        ensures
            r@ == Seq::<(Seq<char>, Meta)>::empty(),
    {
        ObjectBuilder::default()
    }

    fn with(self, key: &str, value: MetaValue) -> (r: Self)
        ensures
            r@ == self@.push((key@, value@)),
    {
        let mut bag = self;
        let k = key.to_string();
        proof {
            lemma_properties_push(bag.entries@, k, value);
        }
        bag.entries.push((k, value));
        bag
    }

    /// Adds a number.
    pub fn number(self, key: &str, n: Double) -> (r: Self)
        ensures
            r@ == self@.push((key@, Meta::Number(n))),
    {
        self.with(key, MetaValue::Number(n))
    }

    /// Adds a boolean.
    pub fn boolean(self, key: &str, b: bool) -> (r: Self)
        ensures
            r@ == self@.push((key@, Meta::Boolean(b))),
    {
        self.with(key, MetaValue::Boolean(b))
    }

    /// Adds a string.
    pub fn string(self, key: &str, s: &str) -> (r: Self)
        ensures
            r@ == self@.push((key@, Meta::String(s@))),
    {
        self.with(key, MetaValue::String(s.to_string()))
    }

    /// Adds a date: milliseconds since the epoch, and minutes east of UTC.
    pub fn date(self, key: &str, time_ms: Double, tz: i16) -> (r: Self)
        ensures
            r@ == self@.push((key@, Meta::Date { time_ms, tz })),
    {
        self.with(key, MetaValue::Date { time_ms, tz })
    }

    /// Adds a value of any kind, such as an object.
    pub fn object(self, key: &str, value: MetaValue) -> (r: Self)
        ensures
            r@ == self@.push((key@, value@)),
    {
        self.with(key, value)
    }

    /// Adds a null value.
    pub fn null(self, key: &str) -> (r: Self)
        ensures
            r@ == self@.push((key@, Meta::Null)),
    {
        self.with(key, MetaValue::Null)
    }

    /// Adds an undefined value.
    pub fn undefined(self, key: &str) -> (r: Self)
        ensures
            r@ == self@.push((key@, Meta::Undefined)),
    {
        self.with(key, MetaValue::Undefined)
    }

    /// Adds the text of an XML document.
    pub fn xml(self, key: &str, s: &str) -> (r: Self)
        ensures
            r@ == self@.push((key@, Meta::Xml(s@))),
    {
        self.with(key, MetaValue::Xml(s.to_string()))
    }

    /// The object.
    pub fn build(self) -> (r: MetaValue)
        ensures
            r@ == Meta::Object(self@),
    {
        MetaValue::Object(self.entries)
    }
}

// ---- bodies ---------------------------------------------------------------

/// The body of a script tag: a name and a value.
pub open spec fn emit_script(name: Seq<char>, v: Meta) -> Emit {
    emit_string(name).and(emit_meta(v))
}

/// A script tag with a body; nothing where the body cannot be written.
pub open spec fn emit_script_tag(timestamp_ms: u32, body: Emit) -> Emit {
    match body.fault {
        Some(f) => Emit::stop(f),
        None => emit_tag(TagType::ScriptData, timestamp_ms, 0, body.bytes),
    }
}

fn write_script_tag(
    out: &mut Vec<u8>,
    timestamp_ms: u32,
    body: Vec<u8>,
    checked: Result<(), Error>,
    Ghost(e): Ghost<Emit>,
) -> (r: Result<u32, Error>)
    requires
        wrote(Seq::empty(), body@, checked, e),
    ensures
        tagged(old(out)@, final(out)@, r, emit_script_tag(timestamp_ms, e)),
{
    assert(body@ =~= e.bytes);
    if let Err(err) = checked {
        assert(out@ =~= old(out)@ + Seq::<u8>::empty());
        return Err(err);
    }
    write_tag(out, TagType::ScriptData, timestamp_ms, 0, body.as_slice())
}

fn write_script(out: &mut Vec<u8>, name: &str, v: &MetaValue) -> (r: Result<(), Error>)
    ensures
        wrote(old(out)@, final(out)@, r, emit_script(name@, v@)),
{
    write_string(out, name)?;
    let ghost b = out@;
    let r = write_meta_value(out, v);
    proof {
        lemma_wrote_and(old(out)@, b, out@, Ok(()), r, emit_string(name@), emit_meta(v@));
    }
    r
}

/// A body that was written reads back as the name and the value, and ends with the value.
pub proof fn law_read_write(name: Seq<char>, v: Meta)
    requires
        emit_script(name, v).fault is None,
    ensures
        ({
            let data = emit_script(name, v).bytes;
            let mid = emit_string(name).bytes.len() as int;
            &&& value(data, 0) == Ok::<(AmfTree, int), Fault>((AmfTree::String(name), mid))
            &&& value(data, mid) == Ok::<(AmfTree, int), Fault>((tree(v), data.len() as int))
        }),
{
    law_written_as_tree(v);
    law_read_named(name, tree(v), emit_meta(v).bytes, Seq::empty());
    let data = emit_script(name, v).bytes;
    assert(data + Seq::<u8>::empty() =~= data);
}

// ---- metadata -------------------------------------------------------------

/// Appends the body of a metadata tag.
///
/// Where a property has no encoding, the bytes up to the fault stay in `out`.
pub fn write_on_metadata_body(out: &mut Vec<u8>, bag: &MetadataBag) -> (r: Result<(), Error>)
    ensures
        wrote(old(out)@, final(out)@, r, emit_script("onMetaData"@, Meta::EcmaArray(bag@))),
{
    write_string(out, "onMetaData")?;
    let ghost name = emit_string("onMetaData"@);
    let count: u32 = (bag.entries.len() as u64 % 0x1_0000_0000) as u32;
    let ghost b = out@;
    let r = write_ecma_array_start(out, count);
    let ghost open = emit_ecma_array_start(count);
    proof {
        lemma_wrote_and(old(out)@, b, out@, Ok(()), r, name, open);
        let p = emit_properties(bag@);
        let end = crate::amf0::encode::emit_object_end();
        assert(name.and(open).and(p).and(end) =~= name.and(open.and(p).and(end)));
    }
    r?;
    write_framed(out, &bag.entries, Ghost(old(out)@), Ghost(name.and(open)))
}

/// Appends a metadata tag at time zero. Where a property has no encoding, nothing is written.
pub fn write_on_metadata(out: &mut Vec<u8>, bag: &MetadataBag) -> (r: Result<u32, Error>)
    ensures
        tagged(
            old(out)@,
            final(out)@,
            r,
            emit_script_tag(0, emit_script("onMetaData"@, Meta::EcmaArray(bag@))),
        ),
{
    let mut body: Vec<u8> = Vec::new();
    let checked = write_on_metadata_body(&mut body, bag);
    write_script_tag(
        out,
        0,
        body,
        checked,
        Ghost(emit_script("onMetaData"@, Meta::EcmaArray(bag@))),
    )
}

// ---- cue points -----------------------------------------------------------

/// What a cue point is for.
#[derive(Clone, Copy, Debug, PartialEq, Eq, Structural)]
pub enum CuePointType {
    /// It is announced when playback passes it.
    Event,
    /// It is also a place to seek to.
    Navigation,
}

impl CuePointType {
    /// The word that stands for the type.
    pub open spec fn word(self) -> Seq<char> {
        match self {
            CuePointType::Event => "event"@,
            CuePointType::Navigation => "navigation"@,
        }
    }

    /// The word that stands for the type.
    pub fn as_str(self) -> (r: &'static str)
        ensures
            r@ == self.word(),
    {
        match self {
            CuePointType::Event => "event",
            CuePointType::Navigation => "navigation",
        }
    }
}

/// A cue point.
#[derive(Debug, PartialEq)]
pub struct CuePointParams {
    pub name: String,
    /// When it is passed, in seconds.
    pub time_seconds: Double,
    pub kind: CuePointType,
    /// Whatever else goes with it, in order.
    pub parameters: Vec<(String, MetaValue)>,
}

/// What a cue point is, apart from how it is held in memory.
pub struct CuePoint {
    pub name: Seq<char>,
    pub time_seconds: Double,
    pub kind: CuePointType,
    pub parameters: Seq<(Seq<char>, Meta)>,
}

impl View for CuePointParams {
    type V = CuePoint;

    open spec fn view(&self) -> CuePoint {
        CuePoint {
            name: self.name@,
            time_seconds: self.time_seconds,
            kind: self.kind,
            parameters: properties(self.parameters@),
        }
    }
}

impl Clone for CuePointParams {
    fn clone(&self) -> (r: Self)
        ensures
            r@ == self@,
    {
        CuePointParams {
            name: self.name.clone(),
            time_seconds: self.time_seconds,
            kind: self.kind,
            parameters: clone_pairs(&self.parameters),
        }
    }
}

impl CuePointParams {
    /// A cue point without parameters.
    pub fn new(name: &str, time_seconds: Double, kind: CuePointType) -> (r: Self)
        ensures
            r@ == (CuePoint { name: name@, time_seconds, kind, parameters: Seq::empty() }),
    {
        let parameters: Vec<(String, MetaValue)> = Vec::new();
        assert(properties(parameters@) =~= Seq::empty());
        CuePointParams { name: name.to_string(), time_seconds, kind, parameters }
    }

    /// Adds a parameter that is a string.
    pub fn parameter(self, name: &str, value: &str) -> (r: Self)
        ensures
            r@ == (CuePoint {
                parameters: self@.parameters.push((name@, Meta::String(value@))),
                ..self@
            }),
    {
        self.parameter_typed(name, MetaValue::String(value.to_string()))
    }

    /// Adds a parameter of any kind.
    pub fn parameter_typed(self, name: &str, value: MetaValue) -> (r: Self)
        ensures
            r@ == (CuePoint { parameters: self@.parameters.push((name@, value@)), ..self@ }),
    {
        let mut p = self;
        let k = name.to_string();
        proof {
            lemma_properties_push(p.parameters@, k, value);
        }
        p.parameters.push((k, value));
        p
    }
}

/// The object that stands for a cue point.
pub open spec fn cue_object(c: CuePoint) -> Meta {
    Meta::Object(
        seq![
            ("name"@, Meta::String(c.name)),
            ("time"@, Meta::Number(c.time_seconds)),
            ("type"@, Meta::String(c.kind.word())),
            ("parameters"@, Meta::Object(c.parameters)),
        ],
    )
}

/// The body of a cue point tag; nothing where the time is not finite.
pub open spec fn emit_cue_point(c: CuePoint) -> Emit {
    if c.time_seconds.finite() {
        emit_script("onCuePoint"@, cue_object(c))
    } else {
        Emit::stop(Fault::CuePointTimeNotFinite)
    }
}

/// Appends the body of a cue point tag.
///
/// Where a parameter has no encoding, the bytes up to the fault stay in `out`.
pub fn write_on_cue_point_body(out: &mut Vec<u8>, params: &CuePointParams) -> (r: Result<(), Error>)
    ensures
        wrote(old(out)@, final(out)@, r, emit_cue_point(params@)),
{
    if !params.time_seconds.is_finite() {
        assert(out@ =~= old(out)@ + Seq::<u8>::empty());
        return Err(Error::InvalidData(Fault::CuePointTimeNotFinite));
    }
    let object = ObjectBuilder::new().string("name", params.name.as_str()).number(
        "time",
        params.time_seconds,
    ).string("type", params.kind.as_str()).object(
        "parameters",
        MetaValue::Object(clone_pairs(&params.parameters)),
    ).build();
    assert(object@ == cue_object(params@)) by {
        assert(object@->Object_0 =~= cue_object(params@)->Object_0);
    }
    write_script(out, "onCuePoint", &object)
}

/// Appends a cue point tag. Where the cue point has no encoding, nothing is written.
pub fn write_on_cue_point(out: &mut Vec<u8>, timestamp_ms: u32, params: &CuePointParams) -> (r: Result<
    u32,
    Error,
>)
    ensures
        tagged(old(out)@, final(out)@, r, emit_script_tag(timestamp_ms, emit_cue_point(params@))),
{
    let mut body: Vec<u8> = Vec::new();
    let checked = write_on_cue_point_body(&mut body, params);
    write_script_tag(out, timestamp_ms, body, checked, Ghost(emit_cue_point(params@)))
}

// ---- XMP ------------------------------------------------------------------

/// The object that carries an XMP packet.
pub open spec fn xmp_object(live_xml: Seq<char>) -> Meta {
    Meta::Object(seq![("liveXML"@, Meta::String(live_xml))])
}

/// Appends the body of an XMP tag.
///
/// Where the packet is too long for a string, the bytes up to it stay in `out`.
pub fn write_on_xmp_data_body(out: &mut Vec<u8>, live_xml: &str) -> (r: Result<(), Error>)
    ensures
        wrote(old(out)@, final(out)@, r, emit_script("onXMPData"@, xmp_object(live_xml@))),
{
    let object = ObjectBuilder::new().string("liveXML", live_xml).build();
    assert(object@ == xmp_object(live_xml@)) by {
        assert(object@->Object_0 =~= xmp_object(live_xml@)->Object_0);
    }
    write_script(out, "onXMPData", &object)
}

/// Appends an XMP tag. Where the packet is too long for a string, nothing is written.
pub fn write_on_xmp_data(out: &mut Vec<u8>, timestamp_ms: u32, live_xml: &str) -> (r: Result<
    u32,
    Error,
>)
    ensures
        tagged(
            old(out)@,
            final(out)@,
            r,
            emit_script_tag(timestamp_ms, emit_script("onXMPData"@, xmp_object(live_xml@))),
        ),
{
    let mut body: Vec<u8> = Vec::new();
    let checked = write_on_xmp_data_body(&mut body, live_xml);
    write_script_tag(
        out,
        timestamp_ms,
        body,
        checked,
        Ghost(emit_script("onXMPData"@, xmp_object(live_xml@))),
    )
}

} // verus!

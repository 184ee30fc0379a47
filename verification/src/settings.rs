//! What is written about a file, its tracks and its colours, told by the values in it.
use vstd::prelude::*;
use crate::amf0::encode::{emit_boolean, emit_date, emit_ecma_array_start, emit_name, emit_null,
    emit_number, emit_object_end, emit_object_start, emit_strict_array_number,
    emit_strict_array_start, emit_string, emit_undefined, emit_xml};
use crate::color_info::{cll_properties, color_fault, color_object, config_properties, emit_color,
    emit_reset, mdcv_properties, ColorConfig, ColorInfo, HdrCll, HdrMdcv};
use crate::demuxer::entries::Leaf;
use crate::demuxer::facts::starts;
use crate::demuxer::harvest::under;
use crate::demuxer::keys::lemma_numbered;
use crate::demuxer::stream::{lookup_bool, lookup_f64, lookup_u32};
use crate::double::{of_int, Double};
use crate::error::{ColorField, Fault};
use crate::script::meta::{emit_meta, emit_metas, emit_properties, keyframes_fault, number, Meta};
use crate::script::track_info::{track_map, track_properties, MediaKind, TrackInfo};
use crate::script::{cue_object, emit_cue_point, emit_script, emit_script_tag, xmp_object, CuePoint};
use crate::tag::{emit_tag, TagType};
use crate::text::decimal;
use crate::typed_meta::{audio_track, colors_in, has_colors, has_track, lookup, track_ids, track_key,
    video_track, Bag};
use crate::wire::Emit;

verus! {

// ---- values -----------------------------------------------------------------

/// What is written for each kind of value that holds no others. A date must be finite.
#[verifier::spinoff_prover]
#[verifier::rlimit(40)]
pub proof fn law_values_are_written(n: Double, b: bool, s: Seq<char>, tz: i16)
    ensures
        emit_meta(Meta::Number(n)) == emit_number(n),
        emit_meta(Meta::Boolean(b)) == emit_boolean(b),
        emit_meta(Meta::String(s)) == emit_string(s),
        emit_meta(Meta::Xml(s)) == emit_xml(s),
        emit_meta(Meta::Null) == emit_null(),
        emit_meta(Meta::Undefined) == emit_undefined(),
        n.finite() ==> emit_meta(Meta::Date { time_ms: n, tz }) == emit_date(n, tz),
        !n.finite() ==> emit_meta(Meta::Date { time_ms: n, tz }) == Emit::stop(
            Fault::MetaDateNotFinite,
        ),
{
}

/// What is written for each kind of value that holds others.
#[verifier::spinoff_prover]
#[verifier::rlimit(40)]
pub proof fn law_holders_are_written(p: Seq<(Seq<char>, Meta)>, a: Seq<Meta>)
    ensures
        emit_meta(Meta::Object(p)) == emit_object_start().and(emit_properties(p)).and(
            emit_object_end(),
        ),
        p.len() <= 0xFFFF_FFFF ==> emit_meta(Meta::EcmaArray(p)) == emit_ecma_array_start(
            p.len() as u32,
        ).and(emit_properties(p)).and(emit_object_end()),
        a.len() <= 0xFFFF_FFFF ==> emit_meta(Meta::StrictArray(a)) == emit_strict_array_start(
            a.len() as u32,
        ).and(emit_metas(a)),
        a.len() > 0xFFFF_FFFF ==> emit_meta(Meta::StrictArray(a)) == Emit::stop(
            Fault::Amf0ArrayTooLong,
        ),
{
    assert(p.len() <= 0xFFFF_FFFF ==> p.len() % 0x1_0000_0000 == p.len());
}

/// Values and properties are written one behind the other, in order; a property is its name and its
/// value.
pub proof fn law_values_in_order(v: Meta, a: Seq<Meta>, key: Seq<char>, p: Seq<(Seq<char>, Meta)>)
    ensures
        emit_metas(Seq::empty()) == Emit::put(Seq::empty()),
        emit_metas(seq![v] + a) == emit_meta(v).and(emit_metas(a)),
        emit_properties(Seq::empty()) == Emit::put(Seq::empty()),
        emit_properties(seq![(key, v)] + p) == emit_name(key).and(emit_meta(v)).and(
            emit_properties(p),
        ),
{
    assert((seq![v] + a).drop_first() =~= a);
    assert((seq![(key, v)] + p).drop_first() =~= p);
}

/// A table of keyframes is an object of two arrays, `filepositions` and `times`.
pub proof fn law_table_is_written(positions: Seq<u64>, times: Seq<Double>)
    ensures
        ({
            let e = emit_meta(
                Meta::Keyframes { file_positions: positions, times_seconds: times },
            );
            &&& positions.len() == 0 ==> e == Emit::stop(Fault::KeyframesEmpty)
            &&& positions.len() > 0 && positions.len() != times.len() ==> e == Emit::stop(
                Fault::KeyframesLengthMismatch,
            )
            &&& positions.len() > 0 && positions.len() == times.len() && (exists|i: int|
                0 <= i < positions.len() && #[trigger] positions[i] > 0x20_0000_0000_0000) ==> e
                == Emit::stop(Fault::KeyframesPositionTooLarge)
            &&& keyframes_fault(positions, times) is None ==> e == emit_object_start().and(
                emit_name("filepositions"@),
            ).and(
                emit_strict_array_number(
                    Seq::new(positions.len(), |i: int| of_int(positions[i] as nat)),
                ),
            ).and(emit_name("times"@)).and(emit_strict_array_number(times)).and(emit_object_end())
        }),
{
    assert(crate::script::meta::numbers(positions) =~= Seq::new(
        positions.len(),
        |i: int| of_int(positions[i] as nat),
    ));
}

// ---- scripts ----------------------------------------------------------------

/// A script is its name and its value, in a tag of its own; one that is refused is not written at all.
pub proof fn law_scripts_are_written(
    name: Seq<char>,
    v: Meta,
    time: u32,
    e: Emit,
    c: CuePoint,
    xml: Seq<char>,
)
    ensures
        emit_script(name, v) == emit_string(name).and(emit_meta(v)),
        e.fault matches Some(f) ==> emit_script_tag(time, e) == Emit::stop(f),
        e.fault is None ==> emit_script_tag(time, e) == emit_tag(TagType::ScriptData, time, 0, e.bytes),
        !c.time_seconds.finite() ==> emit_cue_point(c) == Emit::stop(Fault::CuePointTimeNotFinite),
        c.time_seconds.finite() ==> emit_cue_point(c) == emit_string("onCuePoint"@).and(
            emit_meta(
                Meta::Object(
                    seq![
                        ("name"@, Meta::String(c.name)),
                        ("time"@, Meta::Number(c.time_seconds)),
                        (
                            "type"@,
                            Meta::String(
                                if c.kind is Event {
                                    "event"@
                                } else {
                                    "navigation"@
                                },
                            ),
                        ),
                        ("parameters"@, Meta::Object(c.parameters)),
                    ],
                ),
            ),
        ),
        xmp_object(xml) == Meta::Object(seq![("liveXML"@, Meta::String(xml))]),
{
    if c.time_seconds.finite() {
        assert(cue_object(c) == Meta::Object(
            seq![
                ("name"@, Meta::String(c.name)),
                ("time"@, Meta::Number(c.time_seconds)),
                (
                    "type"@,
                    Meta::String(
                        if c.kind is Event {
                            "event"@
                        } else {
                            "navigation"@
                        },
                    ),
                ),
                ("parameters"@, Meta::Object(c.parameters)),
            ],
        ));
    }
}

// ---- tracks -----------------------------------------------------------------

/// One property of a number that is there, and none of one that is not.
pub open spec fn one(name: Seq<char>, v: Option<Double>) -> Seq<(Seq<char>, Meta)> {
    if v is Some {
        seq![(name, Meta::Number(v->0))]
    } else {
        Seq::empty()
    }
}

/// A whole number as it is written.
pub open spec fn written(v: Option<u32>) -> Option<Double> {
    if v is Some {
        Some(of_int(v->0 as nat))
    } else {
        None
    }
}

/// The properties of a track, in order, and the object of all tracks, each under its number.
pub proof fn law_tracks_are_described(t: TrackInfo, s: Seq<(u32, TrackInfo)>, kind: MediaKind)
    ensures
        track_properties(t, MediaKind::Video) == one("width"@, written(t.width)) + one(
            "height"@,
            written(t.height),
        ) + one("videodatarate"@, t.video_data_rate_kbps) + one("framerate"@, t.framerate) + one(
            "videocodecid"@,
            written(t.video_codec_id),
        ),
        track_properties(t, MediaKind::Audio) == one("audiodatarate"@, t.audio_data_rate_kbps) + one(
            "channels"@,
            written(t.channels),
        ) + one("samplerate"@, t.audio_sample_rate) + one(
            "audiocodecid"@,
            written(t.audio_codec_id),
        ),
        track_map(s, kind) matches Meta::Object(p) && p.len() == s.len() && forall|i: int|
            0 <= i < s.len() ==> #[trigger] p[i] == (
                decimal(s[i].0 as nat),
                Meta::Object(track_properties(s[i].1, kind)),
            ),
{
}

/// What is read of a track: the numbers under its properties, each under the number of the track in the
/// map of its kind. There is a track where there is any entry under its number; track 0 is none.
pub proof fn law_tracks_are_read(b: Bag, id: u32)
    ensures
        ({
            let v = "videotrackidinfomap"@ + "."@ + decimal(id as nat) + "."@;
            let (s, r) = (b.entries, b.readings);
            &&& video_track(b, id) is Some <==> has_track(s, "videotrackidinfomap"@, id)
            &&& video_track(b, id) matches Some(t) ==> {
                &&& t.track_id == id
                &&& t.width == lookup_u32(s, r, v + "width"@, 0)
                &&& t.height == lookup_u32(s, r, v + "height"@, 0)
                &&& t.video_data_rate_kbps == lookup_f64(s, r, v + "videodatarate"@, 0)
                &&& t.video_codec_id == lookup_u32(s, r, v + "videocodecid"@, 0)
                &&& t.framerate == (if lookup_f64(s, r, v + "videoframerate"@, 0) is Some {
                    lookup_f64(s, r, v + "videoframerate"@, 0)
                } else {
                    lookup_f64(s, r, v + "framerate"@, 0)
                })
            }
        }),
        ({
            let a = "audiotrackidinfomap"@ + "."@ + decimal(id as nat) + "."@;
            let (s, r) = (b.entries, b.readings);
            &&& audio_track(b, id) is Some <==> has_track(s, "audiotrackidinfomap"@, id)
            &&& audio_track(b, id) matches Some(t) ==> {
                &&& t.track_id == id
                &&& t.audio_data_rate_kbps == lookup_f64(s, r, a + "audiodatarate"@, 0)
                &&& t.audio_sample_rate == lookup_f64(s, r, a + "samplerate"@, 0)
                &&& t.channels == lookup_u32(s, r, a + "channels"@, 0)
                &&& t.audio_codec_id == lookup_u32(s, r, a + "audiocodecid"@, 0)
            }
        }),
        !has_track(b.entries, "videotrackidinfomap"@, 0),
        !has_track(b.entries, "audiotrackidinfomap"@, 0),
{
}

/// Tracks are listed in the order in which they are first mentioned; a key mentions the track whose
/// number stands between the name of the map and a full stop.
pub proof fn law_tracks_in_order(s: Seq<(Seq<char>, Leaf)>, map: Seq<char>, n: nat, id: u32)
    requires
        n < s.len(),
    ensures
        track_ids(s, map, 0).len() == 0,
        id > 0 && starts(s[n as int].0, map + "."@ + decimal(id as nat) + "."@) ==> track_ids(
            s,
            map,
            n + 1,
        ) == (if track_ids(s, map, n).contains(id) {
            track_ids(s, map, n)
        } else {
            track_ids(s, map, n).push(id)
        }),
        !starts(s[n as int].0, map + "."@) ==> track_ids(s, map, n + 1) == track_ids(s, map, n),
{
    let key = s[n as int].0;
    assert(track_key(map, id) =~= map + "."@ + decimal(id as nat));
    if starts(key, map + "."@ + decimal(id as nat) + "."@) {
        lemma_numbered(key, map + "."@, id);
    }
}

/// Colours are known where any key is that of the colours or under it.
pub proof fn law_when_colors_are_known(s: Seq<(Seq<char>, Leaf)>)
    ensures
        has_colors(s) <==> exists|i: int|
            0 <= i < s.len() && under((#[trigger] s[i]).0, "colorinfo"@),
{
}

/// The value under a key is the first that stands there, and a truth value is that where it is one.
pub proof fn law_values_are_looked_up(s: Seq<(Seq<char>, Leaf)>, key: Seq<char>, i: int)
    ensures
        0 <= i < s.len() && s[i].0 == key && (forall|j: int|
            0 <= j < i ==> (#[trigger] s[j]).0 != key) ==> lookup(s, key, 0) == Some(s[i].1)
            && lookup_bool(s, key, 0) == (if s[i].1 == Leaf::Text("true"@) {
            Some(true)
        } else if s[i].1 == Leaf::Text("false"@) {
            Some(false)
        } else {
            None
        }),
        (forall|j: int| 0 <= j < s.len() ==> (#[trigger] s[j]).0 != key) ==> lookup(s, key, 0) is None
            && lookup_bool(s, key, 0) is None,
{
    lemma_looked_up(s, key, 0, i);
}

proof fn lemma_looked_up(s: Seq<(Seq<char>, Leaf)>, key: Seq<char>, from: int, i: int)
    requires
        0 <= from,
    ensures
        from <= i < s.len() && s[i].0 == key && (forall|j: int|
            from <= j < i ==> (#[trigger] s[j]).0 != key) ==> lookup(s, key, from) == Some(s[i].1)
            && lookup_bool(s, key, from) == (if s[i].1 == Leaf::Text("true"@) {
            Some(true)
        } else if s[i].1 == Leaf::Text("false"@) {
            Some(false)
        } else {
            None
        }),
        (forall|j: int| from <= j < s.len() ==> (#[trigger] s[j]).0 != key) ==> lookup(
            s,
            key,
            from,
        ) is None && lookup_bool(s, key, from) is None,
    decreases s.len() - from,
{
    if from < s.len() && s[from].0 != key {
        lemma_looked_up(s, key, from + 1, i);
    }
}

// ---- colours ----------------------------------------------------------------

/// A number with its field and the bits of its bounds.
pub type Gauge = (ColorField, Option<Double>, u64, u64);

/// The numbers of the light levels: from a ten-thousandth to ten thousand.
pub open spec fn cll_gauges(c: HdrCll) -> Seq<Gauge> {
    seq![
        (ColorField::MaxFall, c.max_fall, 0x3f1a36e2eb1c432du64, 0x40c3880000000000u64),
        (ColorField::MaxCll, c.max_cll, 0x3f1a36e2eb1c432du64, 0x40c3880000000000u64),
    ]
}

/// The numbers of the mastering display: places up to 0.74 and 0.84, and luminances that part at five.
pub open spec fn mdcv_gauges(m: HdrMdcv) -> Seq<Gauge> {
    seq![
        (ColorField::RedX, m.red_x, 0x3f1a36e2eb1c432du64, 0x3fe7ae147ae147aeu64),
        (ColorField::RedY, m.red_y, 0x3f1a36e2eb1c432du64, 0x3feae147ae147ae1u64),
        (ColorField::GreenX, m.green_x, 0x3f1a36e2eb1c432du64, 0x3fe7ae147ae147aeu64),
        (ColorField::GreenY, m.green_y, 0x3f1a36e2eb1c432du64, 0x3feae147ae147ae1u64),
        (ColorField::BlueX, m.blue_x, 0x3f1a36e2eb1c432du64, 0x3fe7ae147ae147aeu64),
        (ColorField::BlueY, m.blue_y, 0x3f1a36e2eb1c432du64, 0x3feae147ae147ae1u64),
        (ColorField::WhitePointX, m.white_point_x, 0x3f1a36e2eb1c432du64, 0x3fe7ae147ae147aeu64),
        (ColorField::WhitePointY, m.white_point_y, 0x3f1a36e2eb1c432du64, 0x3feae147ae147ae1u64),
        (ColorField::MaxLuminance, m.max_luminance, 0x4014000000000000u64, 0x40c3880000000000u64),
        (ColorField::MinLuminance, m.min_luminance, 0x3f1a36e2eb1c432du64, 0x4014000000000000u64),
    ]
}

/// A number is not there, or finite and between its bounds.
pub open spec fn sits(g: Gauge) -> bool {
    g.1 matches Some(d) ==> d.finite() && g.2 <= d.rank() <= g.3
}

/// What is said of a number that does not sit.
pub open spec fn complaint(g: Gauge) -> Fault {
    if g.1->0.finite() {
        Fault::ColorOutOfRange(g.0)
    } else {
        Fault::ColorNotFinite(g.0)
    }
}

/// The first number that does not sit is at `i`.
pub open spec fn first_wrong(s: Seq<Gauge>, i: int) -> bool {
    0 <= i < s.len() && !sits(s[i]) && forall|j: int| 0 <= j < i ==> sits(#[trigger] s[j])
}

/// The light levels and the numbers of the mastering display are checked in order.
pub proof fn law_light_is_checked(c: HdrCll, i: int)
    ensures
        (forall|j: int| 0 <= j < 2 ==> sits(#[trigger] cll_gauges(c)[j]))
            ==> crate::color_info::cll_fault(c) is None,
        first_wrong(cll_gauges(c), i) ==> crate::color_info::cll_fault(c) == Some(
            complaint(cll_gauges(c)[i]),
        ),
{
    let s = cll_gauges(c);
    assert(s.len() == 2);
    assert(s[0].0 is MaxFall && s[1].0 is MaxCll);
}

/// The numbers of the mastering display are checked in order.
#[verifier::spinoff_prover]
#[verifier::rlimit(50)]
pub proof fn law_display_is_checked(m: HdrMdcv, i: int)
    ensures
        (forall|j: int| 0 <= j < 10 ==> sits(#[trigger] mdcv_gauges(m)[j]))
            ==> crate::color_info::mdcv_fault(m) is None,
        first_wrong(mdcv_gauges(m), i) ==> crate::color_info::mdcv_fault(m) == Some(
            complaint(mdcv_gauges(m)[i]),
        ),
{
    let s = mdcv_gauges(m);
    assert(s.len() == 10);
    assert(s[0].1 == m.red_x && s[1].1 == m.red_y && s[2].1 == m.green_x && s[3].1 == m.green_y
        && s[4].1 == m.blue_x && s[5].1 == m.blue_y && s[6].1 == m.white_point_x && s[7].1
        == m.white_point_y && s[8].1 == m.max_luminance && s[9].1 == m.min_luminance);
}

/// Colours are refused for a depth that is not from 8 to 16 bits, then for their light levels, and then
/// for their mastering display; else they are written as `colorInfo` with their groups.
pub proof fn law_colors_are_written(ci: ColorInfo)
    ensures
        ({
            let deep = ci.color_config matches Some(c) && (c.bit_depth matches Some(b) && !(8 <= b
                <= 16));
            let light = match ci.hdr_cll {
                Some(c) => crate::color_info::cll_fault(c),
                None => None,
            };
            let display = match ci.hdr_mdcv {
                Some(m) => crate::color_info::mdcv_fault(m),
                None => None,
            };
            &&& deep ==> color_fault(ci) == Some(Fault::ColorBitDepth)
            &&& !deep && light is Some ==> color_fault(ci) == light
            &&& !deep && light is None ==> color_fault(ci) == display
        }),
        color_fault(ci) matches Some(f) ==> emit_color(ci) == Emit::stop(f),
        color_fault(ci) is None ==> emit_color(ci) == emit_string("colorInfo"@).and(
            emit_meta(color_object(ci)),
        ),
        emit_reset() == emit_string("colorInfo"@).and(emit_undefined()),
{
}

/// A byte as it is written.
pub open spec fn written_byte(v: Option<u8>) -> Option<Double> {
    if v is Some {
        Some(of_int(v->0 as nat))
    } else {
        None
    }
}

/// The numbers of each group of colours, in order, as far as they are there.
#[verifier::spinoff_prover]
#[verifier::rlimit(40)]
pub proof fn law_color_numbers(c: ColorConfig, l: HdrCll, m: HdrMdcv)
    ensures
        config_properties(c) == one("bitDepth"@, written_byte(c.bit_depth)) + one(
            "colorPrimaries"@,
            written_byte(c.color_primaries),
        ) + one("transferCharacteristics"@, written_byte(c.transfer_characteristics)) + one(
            "matrixCoefficients"@,
            written_byte(c.matrix_coefficients),
        ),
        cll_properties(l) == one("maxFall"@, l.max_fall) + one("maxCLL"@, l.max_cll),
        mdcv_properties(m) == one("redX"@, m.red_x) + one("redY"@, m.red_y) + one(
            "greenX"@,
            m.green_x,
        ) + one("greenY"@, m.green_y) + one("blueX"@, m.blue_x) + one("blueY"@, m.blue_y) + one(
            "whitePointX"@,
            m.white_point_x,
        ) + one("whitePointY"@, m.white_point_y) + one("maxLuminance"@, m.max_luminance) + one(
            "minLuminance"@,
            m.min_luminance,
        ),
{
    lemma_number_is_one();
}

proof fn lemma_number_is_one()
    ensures
        forall|k: Seq<char>, v: Option<Double>| #[trigger] number(k, v) == one(k, v),
{
}

/// The object of colours: a group for each that is there, in order.
#[verifier::spinoff_prover]
#[verifier::rlimit(40)]
pub proof fn law_color_object(ci: ColorInfo)
    ensures
        color_object(ci) matches Meta::Object(p) && {
            let a = if ci.color_config is Some {
                1int
            } else {
                0
            };
            let b = a + if ci.hdr_cll is Some {
                1int
            } else {
                0
            };
            let n = b + if ci.hdr_mdcv is Some {
                1int
            } else {
                0
            };
            &&& p.len() == n
            &&& ci.color_config matches Some(c) ==> p[0] == (
                "colorConfig"@,
                Meta::Object(config_properties(c)),
            )
            &&& ci.hdr_cll matches Some(c) ==> p[a] == ("hdrCll"@, Meta::Object(cll_properties(c)))
            &&& ci.hdr_mdcv matches Some(m) ==> p[b] == ("hdrMdcv"@, Meta::Object(mdcv_properties(m)))
        },
{
}

/// A byte that is read: a whole number up to 255.
pub open spec fn read_byte(n: Option<u32>) -> Option<u8> {
    if n is Some && n->0 <= 255 {
        Some(n->0 as u8)
    } else {
        None
    }
}

/// A number that is read, where it is between its bounds.
pub open spec fn read_within(n: Option<Double>, lo: u64, hi: u64) -> Option<Double> {
    if n is Some && lo <= n->0.rank() <= hi {
        n
    } else {
        None
    }
}

/// What is read of colours: each number under its key, where it is in its range. A group of which
/// nothing is known is not there.
#[verifier::spinoff_prover]
#[verifier::rlimit(40)]
pub proof fn law_colors_are_read(b: Bag)
    ensures
        ({
            let (s, r) = (b.entries, b.readings);
            let depth = read_byte(lookup_u32(s, r, "colorinfo.colorConfig.bitDepth"@, 0));
            let config = ColorConfig {
                bit_depth: if depth is Some && 8 <= depth->0 <= 16 {
                    depth
                } else {
                    None
                },
                color_primaries: read_byte(
                    lookup_u32(s, r, "colorinfo.colorConfig.colorPrimaries"@, 0),
                ),
                transfer_characteristics: read_byte(
                    lookup_u32(s, r, "colorinfo.colorConfig.transferCharacteristics"@, 0),
                ),
                matrix_coefficients: read_byte(
                    lookup_u32(s, r, "colorinfo.colorConfig.matrixCoefficients"@, 0),
                ),
            };
            colors_in(b).color_config == (if config.bit_depth is None && config.color_primaries is None
                && config.transfer_characteristics is None && config.matrix_coefficients is None {
                None
            } else {
                Some(config)
            })
        }),
        ({
            let (s, r) = (b.entries, b.readings);
            let light = HdrCll {
                max_fall: read_within(
                    lookup_f64(s, r, "colorinfo.hdrCll.maxFall"@, 0),
                    0x3f1a36e2eb1c432d,
                    0x40c3880000000000,
                ),
                max_cll: read_within(
                    lookup_f64(s, r, "colorinfo.hdrCll.maxCLL"@, 0),
                    0x3f1a36e2eb1c432d,
                    0x40c3880000000000,
                ),
            };
            colors_in(b).hdr_cll == (if light.max_fall is None && light.max_cll is None {
                None
            } else {
                Some(light)
            })
        }),
{
}

/// What is read of the mastering display.
#[verifier::spinoff_prover]
#[verifier::rlimit(40)]
pub proof fn law_display_is_read(b: Bag)
    ensures
        ({
            let (s, r) = (b.entries, b.readings);
            let lo = 0x3f1a36e2eb1c432du64;
            let x = 0x3fe7ae147ae147aeu64;
            let y = 0x3feae147ae147ae1u64;
            let m = HdrMdcv {
                red_x: read_within(lookup_f64(s, r, "colorinfo.hdrMdcv.redX"@, 0), lo, x),
                red_y: read_within(lookup_f64(s, r, "colorinfo.hdrMdcv.redY"@, 0), lo, y),
                green_x: read_within(lookup_f64(s, r, "colorinfo.hdrMdcv.greenX"@, 0), lo, x),
                green_y: read_within(lookup_f64(s, r, "colorinfo.hdrMdcv.greenY"@, 0), lo, y),
                blue_x: read_within(lookup_f64(s, r, "colorinfo.hdrMdcv.blueX"@, 0), lo, x),
                blue_y: read_within(lookup_f64(s, r, "colorinfo.hdrMdcv.blueY"@, 0), lo, y),
                white_point_x: read_within(
                    lookup_f64(s, r, "colorinfo.hdrMdcv.whitePointX"@, 0),
                    lo,
                    x,
                ),
                white_point_y: read_within(
                    lookup_f64(s, r, "colorinfo.hdrMdcv.whitePointY"@, 0),
                    lo,
                    y,
                ),
                max_luminance: read_within(
                    lookup_f64(s, r, "colorinfo.hdrMdcv.maxLuminance"@, 0),
                    0x4014000000000000,
                    0x40c3880000000000,
                ),
                min_luminance: read_within(
                    lookup_f64(s, r, "colorinfo.hdrMdcv.minLuminance"@, 0),
                    lo,
                    0x4014000000000000,
                ),
            };
            colors_in(b).hdr_mdcv == (if m.red_x is None && m.red_y is None && m.green_x is None
                && m.green_y is None && m.blue_x is None && m.blue_y is None && m.white_point_x is None
                && m.white_point_y is None && m.max_luminance is None && m.min_luminance is None {
                None
            } else {
                Some(m)
            })
        }),
{
}

} // verus!

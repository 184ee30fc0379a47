//! What a file says of encryption, cue points, colours, speakers, tracks and rates, told by its values.
use vstd::prelude::*;
use vstd::utf8::*;
use crate::amf0::decode::value;
use crate::amf0::{field, member, AmfTree};
use crate::demuxer::bytes::{has_tag, kind_code, law_tag_by_bytes, payload_size, tag_behind, tag_time,
    wanted};
use crate::demuxer::discover::counted;
use crate::demuxer::entries::{flat, Leaf};
use crate::demuxer::facts::{ascending, digits, headline, keyframes, last_array, next_cue, position,
    spelled_number, starts, stop_from};
use crate::demuxer::harvest::{audio_noted, joined, layout, mark, named_values, noted, noted_all,
    speakers_in, under, video_noted, without};
use crate::demuxer::keys::lemma_numbered;
use crate::demuxer::packet::{audio_part, video_part};
use crate::demuxer::seek::find;
use crate::demuxer::session::Told;
use crate::demuxer::stream::{gcd, lowest, ntsc};
use crate::demuxer::tracks::{renewed, tag_tracks};
use crate::double::{of_int, Double};
use crate::error::Error;
use crate::multichannel::{config, names, Channels};
use crate::multitrack::{split, PacketTrack};
use crate::text::{decimal, lower};

verus! {

// ---- encryption -------------------------------------------------------------

/// The member of a name is the first that has it, of an object, an associative array or an object of a
/// class. Nothing else has members.
pub proof fn law_members_are_found(
    v: AmfTree,
    s: Seq<(Seq<char>, AmfTree)>,
    key: Seq<char>,
    class_name: Seq<char>,
    i: int,
)
    ensures
        0 <= i < s.len() && s[i].0 == key && (forall|j: int|
            0 <= j < i ==> (#[trigger] s[j]).0 != key) ==> member(AmfTree::Object(s), key) == Some(
            s[i].1,
        ),
        (forall|j: int| 0 <= j < s.len() ==> (#[trigger] s[j]).0 != key) ==> member(
            AmfTree::Object(s),
            key,
        ) is None,
        member(AmfTree::EcmaArray(s), key) == member(AmfTree::Object(s), key),
        member(AmfTree::TypedObject { class_name, body: s }, key) == member(AmfTree::Object(s), key),
        !(v is Object || v is EcmaArray || v is TypedObject) ==> member(v, key) is None,
{
    lemma_field(s, key, 0, i);
}

proof fn lemma_field(s: Seq<(Seq<char>, AmfTree)>, key: Seq<char>, from: int, i: int)
    requires
        0 <= from,
    ensures
        from <= i < s.len() && s[i].0 == key && (forall|j: int|
            from <= j < i ==> (#[trigger] s[j]).0 != key) ==> field(s, key, from) == Some(s[i].1),
        (forall|j: int| from <= j < s.len() ==> (#[trigger] s[j]).0 != key) ==> field(
            s,
            key,
            from,
        ) is None,
    decreases s.len() - from,
{
    if from < s.len() && s[from].0 != key {
        lemma_field(s, key, from + 1, i);
    }
}

/// The member of a member.
pub open spec fn step_in(v: Option<AmfTree>, key: Seq<char>) -> Option<AmfTree> {
    if v is Some {
        member(v->0, key)
    } else {
        None
    }
}

/// A header says that a file is encrypted where it has a member `Encryption`; its version is a number,
/// its method a string, and the rest stands in its `Params`.
pub proof fn law_encryption_is_read(v: AmfTree)
    ensures
        headline(v) is Some <==> member(v, "Encryption"@) is Some,
        headline(v) matches Some(h) ==> {
            let e = member(v, "Encryption"@);
            let p = step_in(e, "Params"@);
            &&& h.version == (match step_in(e, "Version"@) {
                Some(AmfTree::Number(n)) => Some(n),
                _ => None,
            })
            &&& h.method == (match step_in(e, "Method"@) {
                Some(AmfTree::String(t)) => Some(t),
                _ => None,
            })
            &&& h.algorithm == (match step_in(p, "EncryptionAlgorithm"@) {
                Some(AmfTree::String(t)) => Some(t),
                _ => None,
            })
            &&& h.key_length == (match step_in(step_in(p, "EncryptionParams"@), "KeyLength"@) {
                Some(AmfTree::Number(n)) => Some(n),
                _ => None,
            })
            &&& h.key_subtype == (match step_in(step_in(p, "KeyInfo"@), "SubType"@) {
                Some(AmfTree::String(t)) => Some(t),
                _ => None,
            })
        },
{
}

// ---- cue points -------------------------------------------------------------

/// The number of the next cue point is above that of every cue point before. A key of cue point `n`
/// brings it to `n + 1`, and other keys leave it.
pub proof fn law_cue_points_are_numbered(s: Seq<(Seq<char>, Leaf)>, e: (Seq<char>, Leaf), n: u32)
    ensures
        next_cue(Seq::empty()) == 0,
        !starts(e.0, "cuepoint."@) ==> next_cue(s.push(e)) == next_cue(s),
        starts(e.0, "cuepoint."@ + decimal(n as nat) + "."@) ==> next_cue(s.push(e)) == (if next_cue(s)
            > n {
            next_cue(s)
        } else {
            (n + 1) as nat
        }),
        next_cue(s) <= next_cue(s.push(e)),
{
    assert(s.push(e).drop_last() =~= s);
    if starts(e.0, "cuepoint."@ + decimal(n as nat) + "."@) {
        lemma_numbered(e.0, "cuepoint."@, n);
    }
}

/// A key of cue points numbers the cue point by what stands between `cuepoint.` and the next full stop,
/// or the end; where that is no number, it counts as one of number zero.
pub proof fn law_cue_keys_are_numbered(s: Seq<(Seq<char>, Leaf)>, e: (Seq<char>, Leaf), z: int)
    requires
        starts(e.0, "cuepoint."@),
        ({
            let k = encode_utf8(e.0);
            let from = encode_utf8("cuepoint."@).len() as int;
            from <= z <= k.len() && (z < k.len() ==> k[z] == 46) && forall|i: int|
                from <= i < z ==> #[trigger] k[i] != 46
        }),
    ensures
        ({
            let k = encode_utf8(e.0);
            let from = encode_utf8("cuepoint."@).len() as int;
            let n = match spelled_number(k.subrange(from, z)) {
                Some(n) => n as int,
                None => 0,
            };
            next_cue(s.push(e)) == (if next_cue(s) > n {
                next_cue(s) as int
            } else {
                n + 1
            })
        }),
{
    let k = encode_utf8(e.0);
    let from = encode_utf8("cuepoint."@).len() as int;
    assert(s.push(e).drop_last() =~= s);
    lemma_stop_at(k, from, z);
}

proof fn lemma_stop_at(k: Seq<u8>, from: int, z: int)
    requires
        0 <= from <= z <= k.len(),
        z < k.len() ==> k[z] == 46,
        forall|i: int| from <= i < z ==> #[trigger] k[i] != 46,
    ensures
        stop_from(k, from) == z,
    decreases z - from,
{
    if from < z {
        assert(k[from] != 46);
        lemma_stop_at(k, from + 1, z);
    }
}

/// A number is spelled by decimal digits alone, with a plus sign before them or none, and is one of 32
/// bits.
pub proof fn law_numbers_are_spelled(s: Seq<u8>, b: u8)
    ensures
        digits(Seq::empty()) == Some(0nat),
        digits(s.push(b)) == (if digits(s) is Some && 0x30 <= b <= 0x39 {
            Some((10 * digits(s)->0 + (b - 0x30)) as nat)
        } else {
            None
        }),
        s.len() == 0 ==> spelled_number(s) is None,
        s.len() > 0 && s[0] != 0x2B ==> spelled_number(s) == (if digits(s) is Some && digits(s)->0
            <= 0xFFFF_FFFF {
            Some(digits(s)->0 as u32)
        } else {
            None
        }),
        s.len() > 1 && s[0] == 0x2B ==> spelled_number(s) == (if digits(s.skip(1)) is Some && digits(
            s.skip(1),
        )->0 <= 0xFFFF_FFFF {
            Some(digits(s.skip(1))->0 as u32)
        } else {
            None
        }),
        s.len() == 1 && s[0] == 0x2B ==> spelled_number(s) is None,
{
    assert(s.push(b).drop_last() =~= s);
}

// ---- what tags say ----------------------------------------------------------

/// A key is under a prefix where it is the prefix, or has it before a full stop or a bracket.
pub proof fn law_keys_are_under(key: Seq<char>, prefix: Seq<char>)
    ensures
        under(key, prefix) <==> ({
            let k = encode_utf8(key);
            let p = encode_utf8(prefix);
            p.len() <= k.len() && k.take(p.len() as int) == p && (k.len() == p.len() || k[
                p.len() as int
            ] == 46 || k[p.len() as int] == 91)
        }),
{
    let k = encode_utf8(key);
    let p = encode_utf8(prefix);
    if p.len() <= k.len() {
        assert(k.take(p.len() as int) =~= k.subrange(0, p.len() as int));
    }
}

/// What is said anew of a name takes the place of all that stood under it, and stands last; the name is
/// in lower case. What stood under other names stays, in order.
pub proof fn law_what_is_said_anew(
    s: Seq<(Seq<char>, Leaf)>,
    e: (Seq<char>, Leaf),
    prefix: Seq<char>,
    name: Seq<char>,
    v: AmfTree,
)
    ensures
        without(Seq::empty(), prefix).len() == 0,
        without(s.push(e), prefix) == (if under(e.0, prefix) {
            without(s, prefix)
        } else {
            without(s, prefix).push(e)
        }),
        noted(s, name, v) == without(s, lower(name)) + mark(v, lower(name)),
        lower(name) != "colorinfo"@ || flat(v, lower(name)).len() > 0 ==> mark(v, lower(name)) == flat(
            v,
            lower(name),
        ),
        lower(name) == "colorinfo"@ && flat(v, lower(name)).len() == 0 ==> mark(v, lower(name)) == seq![
            ("colorinfo"@, Leaf::Text(""@)),
        ],
{
    assert(s.push(e).drop_last() =~= s);
}

/// The names and values of a metadata packet stand one behind the other, up to anything that is not a
/// string and a value, and are noted in order.
pub proof fn law_named_values_in_order(
    data: Seq<u8>,
    pos: int,
    s: Seq<(Seq<char>, Leaf)>,
    p: Seq<(Seq<char>, AmfTree)>,
    name: Seq<char>,
    v: AmfTree,
)
    ensures
        match value(data, pos) {
            Ok((AmfTree::String(n), q)) => match value(data, q) {
                Ok((w, r)) => named_values(data, pos) == seq![(n, w)] + named_values(data, r),
                Err(_) => named_values(data, pos).len() == 0,
            },
            _ => named_values(data, pos).len() == 0,
        },
        noted_all(s, Seq::empty()) == s,
        noted_all(s, seq![(name, v)] + p) == noted_all(noted(s, name, v), p),
{
    assert((seq![(name, v)] + p).drop_first() =~= p);
}

/// Only metadata packets of video and channel configurations of audio are noted. A configuration takes
/// the place of the one before, and its number of channels is that of the stream.
pub proof fn law_which_packets_are_noted(s: Seq<(Seq<char>, Leaf)>, body: Seq<u8>, n: Option<u8>)
    ensures
        match crate::ex_video::header(body) {
            Ok(Some(h)) => {
                let (kind, time, data) = video_part(h, body);
                video_noted(s, body) == (if kind is Metadata {
                    noted_all(s, named_values(data, 0))
                } else {
                    s
                })
            },
            _ => video_noted(s, body) == s,
        },
        match crate::ex_audio::header(body) {
            Ok(Some(h)) => {
                let (kind, data) = audio_part(h, body);
                if kind is MultichannelConfig && config(data) is Ok {
                    let c = config(data)->Ok_0;
                    &&& speakers_in(body) == Some(c)
                    &&& audio_noted(s, body) == without(s, "multichannelconfig"@) + layout(c)
                    &&& counted(n, body) == Some(c.channel_count)
                } else {
                    speakers_in(body) is None && audio_noted(s, body) == s && counted(n, body) == n
                }
            },
            _ => speakers_in(body) is None && audio_noted(s, body) == s && counted(n, body) == n,
        },
{
}

/// The entries of a channel configuration.
pub proof fn law_speakers_are_described(c: Channels)
    ensures
        ({
            let e = layout(c);
            let a = if c.channel_flags is Some {
                4int
            } else {
                2
            };
            &&& e.len() == a + if c.mapping is Some {
                1int
            } else {
                0
            }
            &&& e[0] == ("multichannelconfig.order"@, Leaf::Text(c.order.name()))
            &&& e[1] == (
                "multichannelconfig.channelcount"@,
                Leaf::Number(of_int(c.channel_count as nat)),
            )
            &&& c.channel_flags matches Some(f) ==> e[2] == (
                "multichannelconfig.flags"@,
                Leaf::Number(of_int(f as nat)),
            ) && e[3] == (
                "multichannelconfig.layout"@,
                Leaf::Text(joined(names(f as nat, 0))),
            )
            &&& c.mapping matches Some(m) ==> e[a] == (
                "multichannelconfig.mapping"@,
                Leaf::Text(joined(Seq::new(m.len(), |i: int| m[i].name()))),
            )
        }),
{
    if let Some(m) = c.mapping {
        assert(crate::demuxer::harvest::speaker_names(m) =~= Seq::new(
            m.len(),
            |i: int| m[i].name(),
        ));
    }
}

/// Names are joined with commas between them.
pub proof fn law_names_are_joined(s: Seq<Seq<char>>, t: Seq<char>)
    ensures
        joined(Seq::empty()).len() == 0,
        joined(seq![t]) == t,
        s.len() > 0 ==> joined(s.push(t)) == joined(s) + ","@ + t,
{
    assert(s.push(t).drop_last() =~= s);
}

// ---- tracks -----------------------------------------------------------------

/// The tracks of the last packet that had any: those of its body, each with its number, its codec, the
/// name of that, and its bytes. A body that cannot be taken apart has none; other packets leave the
/// list.
pub proof fn law_tracks_are_kept(last: Seq<PacketTrack>, body: Seq<u8>)
    ensures
        match crate::ex_audio::header(body) {
            Ok(Some(h)) => match h.multitrack {
                Some(m) => {
                    let data = body.skip(h.bytes_consumed);
                    let shared = if h.fourcc is Some {
                        h.fourcc->0
                    } else {
                        0
                    };
                    match split(m, shared, data) {
                        Err(_) => renewed(last, body, false).len() == 0,
                        Ok(t) => {
                            let list = renewed(last, body, false);
                            list.len() == t.len() && forall|i: int|
                                0 <= i < t.len() ==> #[trigger] list[i] == (PacketTrack {
                                    track_id: t[i].track_id,
                                    fourcc: t[i].fourcc,
                                    codec_name: crate::ex_audio::codec_name(t[i].fourcc),
                                    payload: data.subrange(t[i].start, t[i].end),
                                })
                        },
                    }
                },
                None => renewed(last, body, false) == last && tag_tracks(body, false) is None,
            },
            _ => renewed(last, body, false) == last && tag_tracks(body, false) is None,
        },
        match crate::ex_video::header(body) {
            Ok(Some(h)) => match h.multitrack {
                Some(m) => {
                    let data = body.skip(h.bytes_consumed);
                    let shared = if h.fourcc is Some {
                        h.fourcc->0
                    } else {
                        0
                    };
                    match split(m, shared, data) {
                        Err(_) => renewed(last, body, true).len() == 0,
                        Ok(t) => {
                            let list = renewed(last, body, true);
                            list.len() == t.len() && forall|i: int|
                                0 <= i < t.len() ==> #[trigger] list[i] == (PacketTrack {
                                    track_id: t[i].track_id,
                                    fourcc: t[i].fourcc,
                                    codec_name: crate::ex_video::codec_name(t[i].fourcc),
                                    payload: data.subrange(t[i].start, t[i].end),
                                })
                        },
                    }
                },
                None => renewed(last, body, true) == last && tag_tracks(body, true) is None,
            },
            _ => renewed(last, body, true) == last && tag_tracks(body, true) is None,
        },
{
}

// ---- keyframes --------------------------------------------------------------

/// An array of finite numbers.
pub open spec fn finite_array(a: Seq<AmfTree>) -> bool {
    forall|i: int| 0 <= i < a.len() ==> (#[trigger] a[i] matches AmfTree::Number(n) && n.finite())
}

/// An array of places in a file: numbers from 0 to two to the 64th.
pub open spec fn place_array(a: Seq<AmfTree>) -> bool {
    forall|i: int|
        0 <= i < a.len() ==> (#[trigger] a[i] matches AmfTree::Number(n) && n.finite() && 0 <= n.rank()
            <= 0x43F0_0000_0000_0000)
}

/// The last array of a name is at `i`.
pub open spec fn is_last_array(s: Seq<(Seq<char>, AmfTree)>, name: Seq<char>, i: int) -> bool {
    &&& 0 <= i < s.len() && s[i].0 == name && s[i].1 is StrictArray
    &&& forall|j: int| i < j < s.len() ==> !((#[trigger] s[j]).0 == name && s[j].1 is StrictArray)
}

/// Every array holds finite numbers alone, and those of places hold places.
pub open spec fn arrays_are_sound(s: Seq<(Seq<char>, AmfTree)>) -> bool {
    forall|i: int|
        0 <= i < s.len() ==> ((#[trigger] s[i]).1 matches AmfTree::StrictArray(a) ==> finite_array(a)
            && (s[i].0 == "filepositions"@ ==> place_array(a)))
}

/// The arrays are as long as each other, not empty, and the times do not fall.
pub open spec fn arrays_agree(a: Seq<AmfTree>, b: Seq<AmfTree>) -> bool {
    &&& a.len() == b.len() && a.len() > 0
    &&& forall|i: int, j: int|
        0 <= i < j < b.len() ==> (#[trigger] b[i])->Number_0.rank() <= (#[trigger] b[j])->Number_0.rank()
}

proof fn lemma_last_array(s: Seq<(Seq<char>, AmfTree)>, name: Seq<char>, i: int)
    ensures
        is_last_array(s, name, i) ==> last_array(s, name) == Some(s[i].1->StrictArray_0),
        (forall|j: int| 0 <= j < s.len() ==> !((#[trigger] s[j]).0 == name && s[j].1 is StrictArray))
            ==> last_array(s, name) is None,
    decreases s.len(),
{
    if s.len() > 0 {
        let t = s.drop_last();
        if is_last_array(s, name, i) && i < s.len() - 1 {
            assert(!(s[s.len() - 1].0 == name && s[s.len() - 1].1 is StrictArray));
            assert(t[i] == s[i]);
            assert forall|j: int| i < j < t.len() implies !((#[trigger] t[j]).0 == name
                && t[j].1 is StrictArray) by {
                assert(t[j] == s[j]);
            }
        }
        if forall|j: int| 0 <= j < s.len() ==> !((#[trigger] s[j]).0 == name && s[j].1 is StrictArray) {
            assert forall|j: int| 0 <= j < t.len() implies !((#[trigger] t[j]).0 == name
                && t[j].1 is StrictArray) by {
                assert(t[j] == s[j]);
            }
        }
        lemma_last_array(t, name, i);
    }
}

/// A table of keyframes is read just where every array in it is sound and the last `filepositions` and
/// the last `times` agree. Its places are those numbers without their fractions.
pub proof fn law_table_in_full(s: Seq<(Seq<char>, AmfTree)>, p: int, t: int, v: AmfTree)
    ensures
        !arrays_are_sound(s) ==> keyframes(AmfTree::Object(s)) is None,
        (forall|j: int|
            0 <= j < s.len() ==> !((#[trigger] s[j]).0 == "filepositions"@ && s[j].1 is StrictArray))
            ==> keyframes(AmfTree::Object(s)) is None,
        (forall|j: int| 0 <= j < s.len() ==> !((#[trigger] s[j]).0 == "times"@ && s[j].1 is StrictArray))
            ==> keyframes(AmfTree::Object(s)) is None,
        is_last_array(s, "filepositions"@, p) && is_last_array(s, "times"@, t) && arrays_are_sound(s)
            ==> {
            let a = s[p].1->StrictArray_0;
            let b = s[t].1->StrictArray_0;
            &&& keyframes(AmfTree::Object(s)) is Some <==> arrays_agree(a, b)
            &&& keyframes(AmfTree::Object(s)) matches Some(toc) ==> toc.positions.len() == a.len()
                && toc.times.len() == a.len() && (forall|i: int|
                0 <= i < a.len() ==> #[trigger] toc.positions[i] == (if a[i]->Number_0.trunc()
                    <= 0xFFFF_FFFF_FFFF_FFFF {
                    a[i]->Number_0.trunc()
                } else {
                    0xFFFF_FFFF_FFFF_FFFF
                })) && (forall|i: int|
                0 <= i < a.len() ==> #[trigger] toc.times[i] == b[i]->Number_0)
        },
        keyframes(AmfTree::EcmaArray(s)) == keyframes(AmfTree::Object(s)),
        !(v is Object || v is EcmaArray) ==> keyframes(v) is None,
{
    lemma_last_array(s, "filepositions"@, p);
    lemma_last_array(s, "times"@, t);
    lemma_arrays_are_sound(s);
    if is_last_array(s, "filepositions"@, p) && is_last_array(s, "times"@, t) && arrays_are_sound(s) {
        let a = s[p].1->StrictArray_0;
        let b = s[t].1->StrictArray_0;
        assert(finite_array(a) && place_array(a) && finite_array(b));
        let n = crate::demuxer::facts::numbers(b);
        assert forall|i: int| 0 <= i < b.len() implies #[trigger] n[i] == b[i]->Number_0 by {}
        if arrays_agree(a, b) {
            assert(ascending(n));
        } else if a.len() == b.len() && a.len() > 0 && ascending(n) {
            assert forall|i: int, j: int| 0 <= i < j < b.len() implies (#[trigger] b[i])->Number_0.rank()
                <= (#[trigger] b[j])->Number_0.rank() by {
                assert(n[i].rank() <= n[j].rank());
            }
        }
        assert forall|i: int| 0 <= i < a.len() implies position(
            #[trigger] a[i]->Number_0,
        ) is Some by {
            assert(a[i] is Number);
        }
    }
}

proof fn lemma_arrays_are_sound(s: Seq<(Seq<char>, AmfTree)>)
    ensures
        arrays_are_sound(s) <==> (forall|i: int|
            0 <= i < s.len() ==> crate::demuxer::facts::sound((#[trigger] s[i]).0, s[i].1)),
{
    assert forall|i: int| 0 <= i < s.len() implies (crate::demuxer::facts::sound(
        (#[trigger] s[i]).0,
        s[i].1,
    ) <==> (s[i].1 matches AmfTree::StrictArray(a) ==> finite_array(a) && (s[i].0
        == "filepositions"@ ==> place_array(a)))) by {
        if let AmfTree::StrictArray(a) = s[i].1 {
            assert(finite_array(a) <==> crate::demuxer::facts::all_finite(a));
            assert(place_array(a) <==> crate::demuxer::facts::all_positions(a));
        }
    }
}

// ---- streams ----------------------------------------------------------------

/// The stream of audio is the first, and that of video the one behind it.
pub proof fn law_streams_are_numbered(t: Told)
    ensures
        t.audio is Some && t.video is Some ==> t.stream_count() == 2 && t.audio_index() == Some(0u32)
            && t.video_index() == Some(1u32),
        t.audio is Some && t.video is None ==> t.stream_count() == 1 && t.audio_index() == Some(0u32)
            && t.video_index() is None,
        t.audio is None && t.video is Some ==> t.stream_count() == 1 && t.audio_index() is None
            && t.video_index() == Some(0u32),
        t.audio is None && t.video is None ==> t.stream_count() == 0 && t.audio_index() is None
            && t.video_index() is None,
{
}

/// The numbers of frames in a second that stand for so many in 1.001 seconds.
pub proof fn law_odd_rates(r: Double)
    ensures
        ntsc(r) == (if r.bits < 0x4037_F894_F69C_A9F0 {
            None
        } else if r.bits <= 0x4037_FB24_52C5_9FB2 {
            Some((24000u32, 1001u32))
        } else if r.bits < 0x403D_F70C_34C1_A8AD {
            None
        } else if r.bits <= 0x403D_F99B_90EA_9E6F {
            Some((30000u32, 1001u32))
        } else if r.bits < 0x4047_F938_EF34_D6A2 {
            None
        } else if r.bits <= 0x4047_FA80_9D49_5182 {
            Some((48000u32, 1001u32))
        } else if r.bits < 0x404D_F7B0_0BCB_E61E {
            None
        } else if r.bits <= 0x404D_F8F7_B9E0_60FE {
            Some((60000u32, 1001u32))
        } else if r.bits < 0x405D_F801_F751_04D6 {
            None
        } else if r.bits <= 0x405D_F8A5_CE5B_4246 {
            Some((120000u32, 1001u32))
        } else {
            None
        }),
{
}

proof fn lemma_gcd(a: nat, b: nat)
    requires
        a > 0 || b > 0,
    ensures
        gcd(a, b) > 0,
        a % gcd(a, b) == 0,
        b % gcd(a, b) == 0,
    decreases b,
{
    if b > 0 {
        lemma_gcd(b, a % b);
        let g = gcd(a, b);
        let q = a / b;
        let r = a % b;
        vstd::arithmetic::div_mod::lemma_fundamental_div_mod(a as int, b as int);
        vstd::arithmetic::div_mod::lemma_fundamental_div_mod(b as int, g as int);
        vstd::arithmetic::div_mod::lemma_fundamental_div_mod(r as int, g as int);
        let x = b / g;
        let y = r / g;
        assert(a == g * (x * q + y)) by (nonlinear_arith)
            requires
                a == b * q + r,
                b == g * x,
                r == g * y,
        ;
        vstd::arithmetic::div_mod::lemma_mod_multiples_basic((x * q + y) as int, g as int);
        assert(g * (x * q + y) == (x * q + y) * g) by (nonlinear_arith);
    } else {
        vstd::arithmetic::div_mod::lemma_mod_self_0(a as int);
        vstd::arithmetic::div_mod::lemma_small_mod(0, a);
    }
}

proof fn lemma_gcd_is_common(a: nat, b: nat, d: nat)
    requires
        d > 0,
        a % d == 0,
        b % d == 0,
        a > 0 || b > 0,
    ensures
        gcd(a, b) % d == 0,
    decreases b,
{
    if b > 0 {
        let q = a / b;
        let r = a % b;
        vstd::arithmetic::div_mod::lemma_fundamental_div_mod(a as int, b as int);
        vstd::arithmetic::div_mod::lemma_fundamental_div_mod(a as int, d as int);
        vstd::arithmetic::div_mod::lemma_fundamental_div_mod(b as int, d as int);
        let x = a / d;
        let y = b / d;
        assert(r == (x - y * q) * d) by (nonlinear_arith)
            requires
                a == b * q + r,
                a == d * x,
                b == d * y,
        ;
        vstd::arithmetic::div_mod::lemma_mod_multiples_basic(x - y * q, d as int);
        lemma_gcd_is_common(b, r, d);
    }
}

/// A fraction in lowest terms is the same fraction, by the greatest number that divides both terms.
pub proof fn law_lowest_terms(num: int, den: int, d: nat)
    requires
        num > 0,
        den > 0,
    ensures
        ({
            let (n, m) = lowest(num, den);
            let g = gcd(num as nat, den as nat);
            &&& g > 0 && n * g == num && m * g == den
            &&& d > 0 && num as nat % d == 0 && den as nat % d == 0 ==> g % d == 0
        }),
{
    let g = gcd(num as nat, den as nat);
    lemma_gcd(num as nat, den as nat);
    vstd::arithmetic::div_mod::lemma_fundamental_div_mod(num, g as int);
    vstd::arithmetic::div_mod::lemma_fundamental_div_mod(den, g as int);
    assert(num / (g as int) * g == g * (num / (g as int))) by (nonlinear_arith);
    assert(den / (g as int) * g == g * (den / (g as int))) by (nonlinear_arith);
    if d > 0 && num as nat % d == 0 && den as nat % d == 0 {
        lemma_gcd_is_common(num as nat, den as nat, d);
    }
}

// ---- seeking ----------------------------------------------------------------

/// A search for a time goes from tag to tag: it ends at one that is wanted, at the end of the file, or
/// where a header, or the first byte of a video tag that must be looked at, is not there.
pub proof fn law_find_by_bytes(input: Seq<u8>, p: int, ms: int, video: bool)
    requires
        0 <= p,
    ensures
        p >= input.len() ==> find(input, p, ms, video) == Ok::<Option<(int, u32)>, Error>(None),
        p < input.len() && !has_tag(input, p) ==> find(input, p, ms, video) == Err::<
            Option<(int, u32)>,
            Error,
        >(Error::UnexpectedEof),
        has_tag(input, p) ==> {
            let looked = video && kind_code(input, p) == 9 && payload_size(input, p) > 0;
            &&& looked && p + 11 >= input.len() ==> find(input, p, ms, video) == Err::<
                Option<(int, u32)>,
                Error,
            >(Error::UnexpectedEof)
            &&& wanted(input, p, ms, video) ==> find(input, p, ms, video) == Ok::<
                Option<(int, u32)>,
                Error,
            >(Some((p, tag_time(input, p) as u32)))
            &&& !wanted(input, p, ms, video) && (looked ==> p + 11 < input.len()) ==> find(
                input,
                p,
                ms,
                video,
            ) == find(input, tag_behind(input, p), ms, video)
        },
{
    law_tag_by_bytes(input, p);
}

} // verus!

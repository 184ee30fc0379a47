//! What opening a file finds, told by its bytes and by the tags that were written.
use vstd::prelude::*;
use crate::amf0::AmfTree;
use crate::demuxer::bytes::{has_tag, kind_code, law_tag_by_bytes, payload_size, tag_behind};
use crate::demuxer::described::{first_finite, first_whole, finite_under, law_audio_data_rate,
    law_video_data_rate, law_video_size, number_in, whole_under};
use crate::demuxer::discover::{counted, found, see, Scan, Seed, MAX_DISCOVERY_TAGS};
use crate::demuxer::entries::{flat, Leaf};
use crate::demuxer::facts::{script, Facts};
use crate::demuxer::harvest::{audio_noted, video_noted};
use crate::demuxer::keys::{grown, lemma_flat_keys};
use crate::demuxer::laws::{all_fit, file, law_open_written, see_units, Unit};
use crate::demuxer::packet::Frame;
use crate::demuxer::said::{added, flat_name, is_table, law_metadata_in_any_object,
    law_metadata_is_taken_in};
use crate::demuxer::session::{handled, told_by};
use crate::demuxer::stream::{picture, sound};
use crate::demuxer::written::law_script_comes_back;
use crate::demuxer::{next, opened, scan, tag_at, Reader};
use crate::double::{of_int, Double};
use crate::error::{Error, Fault};
use crate::script::emit_script;
use crate::script::meta::{tree, trees, Meta};
use crate::tag::{TagHeader, TagType, UI24_MAX};

verus! {

// ---- single tags ------------------------------------------------------------

/// What a tag adds to what is found. A script says something and is remembered. The first audio tag
/// that is not empty is that of the stream of audio, with the entries that there were before it; later
/// ones leave the stream as it is. A first tag whose header cannot be read is an error. Audio and
/// video tags that are not filtered are noted.
pub proof fn law_what_tags_add(st: Scan, h: TagHeader, body: Seq<u8>)
    ensures
        see(st, TagType::ScriptData, h, body) == Ok::<Scan, Error>(
            Scan { facts: script(st.facts, body), script: true, ..st },
        ),
        st.audio is None && body.len() > 0 && crate::ex_audio::header(body) is Err ==> see(
            st,
            TagType::Audio,
            h,
            body,
        ) == Err::<Scan, Error>(
            Error::InvalidData(crate::ex_audio::header(body)->Err_0),
        ),
        st.audio is Some || body.len() == 0 || crate::ex_audio::header(body) is Ok ==> (see(
            st,
            TagType::Audio,
            h,
            body,
        ) matches Ok(n) && {
            &&& n.script == st.script && n.video == st.video
            &&& st.audio is Some ==> n.audio == st.audio
            &&& st.audio is None && body.len() == 0 ==> n.audio is None
            &&& st.audio is None && body.len() > 0 ==> n.audio == Some(
                Seed { body, entries: st.facts.entries },
            )
            &&& h.filter ==> n.facts == st.facts && n.channel_count == st.channel_count
            &&& !h.filter ==> n.facts == (Facts {
                entries: audio_noted(st.facts.entries, body),
                ..st.facts
            }) && n.channel_count == counted(st.channel_count, body)
        }),
        st.video is None && body.len() > 0 && crate::ex_video::header(body) is Err ==> see(
            st,
            TagType::Video,
            h,
            body,
        ) == Err::<Scan, Error>(
            Error::InvalidData(crate::ex_video::header(body)->Err_0),
        ),
        st.video is Some || body.len() == 0 || crate::ex_video::header(body) is Ok ==> (see(
            st,
            TagType::Video,
            h,
            body,
        ) matches Ok(n) && {
            &&& n.script == st.script && n.audio == st.audio && n.channel_count == st.channel_count
            &&& st.video is Some ==> n.video == st.video
            &&& st.video is None && body.len() == 0 ==> n.video is None
            &&& st.video is None && body.len() > 0 ==> n.video == Some(
                Seed { body, entries: st.facts.entries },
            )
            &&& h.filter ==> n.facts == st.facts
            &&& !h.filter ==> n.facts == (Facts {
                entries: video_noted(st.facts.entries, body),
                ..st.facts
            })
        }),
{
    reveal(see);
}

/// A number under a key, where there is one.
pub open spec fn number_under(key: Seq<char>, n: Option<Double>) -> Seq<(Seq<char>, Leaf)> {
    if n is Some {
        seq![(key, Leaf::Number(n->0))]
    } else {
        Seq::empty()
    }
}

/// A text under a key, where there is one.
pub open spec fn text_under(key: Seq<char>, s: Option<Seq<char>>) -> Seq<(Seq<char>, Leaf)> {
    if s is Some {
        seq![(key, Leaf::Text(s->0))]
    } else {
        Seq::empty()
    }
}

/// What a file is found to hold: what its tags said, with the encryption and the XMP packet among the
/// entries behind them.
pub proof fn law_what_is_found(st: Scan)
    ensures
        found(st) <==> st.audio is Some || st.video is Some || st.script,
        ({
            let t = told_by(st);
            &&& t.duration == st.facts.duration && t.keyframes == st.facts.keyframes
            &&& t.audio == st.audio && t.video == st.video && t.channel_count == st.channel_count
            &&& t.encrypted <==> st.facts.encryption is Some
            &&& t.tracks.len() == 0
            &&& st.facts.encryption is None && st.facts.xmp is None ==> t.entries =~= st.facts.entries
            &&& st.facts.encryption is None ==> (st.facts.xmp matches Some(x) ==> t.entries
                =~= st.facts.entries.push(("xmp"@, Leaf::Text(x))))
            &&& st.facts.encryption matches Some(e) ==> t.entries =~= st.facts.entries + seq![
                ("encryption"@, Leaf::Text("true"@)),
            ] + number_under("encryption.version"@, e.version) + text_under(
                "encryption.method"@,
                e.method,
            ) + text_under("encryption.algorithm"@, e.algorithm) + number_under(
                "encryption.key_length"@,
                e.key_length,
            ) + text_under("encryption.key_subtype"@, e.key_subtype) + text_under(
                "xmp"@,
                st.facts.xmp,
            )
        }),
{
    let t = told_by(st);
    let f = st.facts.entries;
    if let Some(e) = st.facts.encryption {
        let a = seq![("encryption"@, Leaf::Text("true"@))];
        let b = crate::demuxer::session::number_entry("encryption.version"@, e.version);
        let c = crate::demuxer::session::text_entry("encryption.method"@, e.method);
        let d = crate::demuxer::session::text_entry("encryption.algorithm"@, e.algorithm);
        let g = crate::demuxer::session::number_entry("encryption.key_length"@, e.key_length);
        let k = crate::demuxer::session::text_entry("encryption.key_subtype"@, e.key_subtype);
        let x = crate::demuxer::session::text_entry("xmp"@, st.facts.xmp);
        assert(t.entries == f + (a + b + c + d + g + k) + x);
        assert(t.entries =~= f + a + b + c + d + g + k + x);
    }
}

// ---- whole files ------------------------------------------------------------

/// A search looks at one tag after another, as their sizes lead, until both streams are found, 256 tags
/// were looked at, or the file ends. Tags of an unknown kind are passed over. A file that ends inside a
/// header, or inside a tag of a known kind, is cut short.
pub proof fn law_search_by_bytes(input: Seq<u8>, p: int, left: nat, st: Scan)
    requires
        0 <= p,
    ensures
        MAX_DISCOVERY_TAGS == 256,
        left == 0 || (st.audio is Some && st.video is Some) || p >= input.len() ==> scan(
            input,
            p,
            left,
            st,
        ) == Ok::<Scan, Error>(st),
        left > 0 && !(st.audio is Some && st.video is Some) && p < input.len() ==> {
            let kind = kind_code(input, p);
            let body = input.subrange(p + 11, p + 11 + payload_size(input, p));
            &&& !has_tag(input, p) ==> scan(input, p, left, st) == Err::<Scan, Error>(
                Error::UnexpectedEof,
            )
            &&& has_tag(input, p) && kind != 8 && kind != 9 && kind != 18 ==> scan(
                input,
                p,
                left,
                st,
            ) == scan(input, tag_behind(input, p), (left - 1) as nat, st)
            &&& has_tag(input, p) && (kind == 8 || kind == 9 || kind == 18) ==> ({
                let k = if kind == 8 {
                    TagType::Audio
                } else if kind == 9 {
                    TagType::Video
                } else {
                    TagType::ScriptData
                };
                let h = tag_at(input, p)->Ok_0;
                scan(input, p, left, st) == (if tag_behind(input, p) > input.len() {
                    Err(Error::UnexpectedEof)
                } else {
                    match see(st, k, h, body) {
                        Err(e) => Err(e),
                        Ok(n) => scan(input, tag_behind(input, p), (left - 1) as nat, n),
                    }
                })
            })
        },
{
    law_tag_by_bytes(input, p);
}

/// A file opens where it has a header, and the first tag starts at byte 13; it must hold a stream or a
/// script.
pub proof fn law_opening(input: Seq<u8>)
    ensures
        crate::header::header(input) matches Err(e) ==> opened(input) == Err::<Reader, Error>(e),
        crate::header::header(input) is Ok && input.len() < 13 ==> opened(input) == Err::<
            Reader,
            Error,
        >(Error::UnexpectedEof),
        crate::header::header(input) is Ok && input.len() >= 13 ==> opened(input) == (match scan(
            input,
            13,
            256,
            Scan::none(),
        ) {
            Err(e) => Err(e),
            Ok(st) => if st.audio is Some || st.video is Some || st.script {
                Ok(Reader { input, pos: 13, told: told_by(st) })
            } else {
                Err(Error::InvalidData(Fault::NoStreams))
            },
        }),
        ({
            let none = Scan::none();
            none.audio is None && none.video is None && !none.script && none.channel_count is None
                && none.facts.entries.len() == 0 && none.facts.duration is None
                && none.facts.keyframes is None && none.facts.encryption is None
                && none.facts.xmp is None
        }),
{
}

/// The header of a file by its bytes: `FLV`, version 1, bits 2 and 0 for audio and video, and where the
/// tags start, 9.
pub proof fn law_header_by_bytes(data: Seq<u8>)
    ensures
        data.len() < 9 ==> crate::header::header(data) == Err::<crate::header::FlvHeader, Error>(
            Error::UnexpectedEof,
        ),
        data.len() >= 9 ==> {
            let named = data[0] == 0x46 && data[1] == 0x4C && data[2] == 0x56;
            let start = data[5] == 0 && data[6] == 0 && data[7] == 0 && data[8] == 9;
            &&& crate::header::header(data) is Ok <==> named && data[3] == 1 && start
            &&& !named ==> crate::header::header(data) == Err::<crate::header::FlvHeader, Error>(
                Error::InvalidData(Fault::HeaderSignature),
            )
            &&& named && data[3] != 1 ==> crate::header::header(data) == Err::<
                crate::header::FlvHeader,
                Error,
            >(Error::InvalidData(Fault::HeaderVersion))
            &&& named && data[3] == 1 && !start ==> crate::header::header(data) == Err::<
                crate::header::FlvHeader,
                Error,
            >(Error::InvalidData(Fault::HeaderDataOffset))
            &&& crate::header::header(data) matches Ok(h) ==> h.version == 1 && h.data_offset == 9 && (
            h.has_audio <==> data[4] as int / 4 % 2 == 1) && (h.has_video <==> data[4] as int % 2
                == 1)
        },
{
    if data.len() >= 9 {
        let s = crate::header::FLV_SIGNATURE@;
        assert(s.len() == 3 && s[0] == 0x46 && s[1] == 0x4C && s[2] == 0x56);
        assert(data.take(3) =~= s <==> data[0] == s[0] && data[1] == s[1] && data[2] == s[2]);
    }
}

/// The next packet is the first that a tag from the place of the file on gives; the file stands behind
/// that tag then. At the end there is none, and a file that ends inside a tag is cut short and has
/// ended.
pub proof fn law_next_by_bytes(r: Reader)
    requires
        0 <= r.pos,
    ensures
        r.pos >= r.input.len() ==> next(r) == (Err::<Frame, Error>(Error::Eof), r),
        r.pos < r.input.len() && (!has_tag(r.input, r.pos) || tag_behind(r.input, r.pos)
            > r.input.len()) ==> next(r) == (
            Err::<Frame, Error>(Error::UnexpectedEof),
            Reader { pos: r.input.len() as int, ..r },
        ),
        has_tag(r.input, r.pos) && tag_behind(r.input, r.pos) <= r.input.len() ==> {
            let body = r.input.subrange(r.pos + 11, r.pos + 11 + payload_size(r.input, r.pos));
            let h = tag_at(r.input, r.pos)->Ok_0;
            let (out, told) = handled(r.told, h, body);
            let n = Reader { pos: tag_behind(r.input, r.pos), told, ..r };
            next(r) == (match out {
                Ok(Some(f)) => (Ok(f), n),
                Ok(None) => next(n),
                Err(e) => (Err(e), n),
            })
        },
{
    law_tag_by_bytes(r.input, r.pos);
}

// ---- metadata and streams ---------------------------------------------------

/// A key that is not that of a member or an item.
pub open spec fn plain_key(key: Seq<char>) -> bool {
    forall|i: int| 0 <= i < key.len() ==> #[trigger] key[i] != '.' && key[i] != '['
}

proof fn lemma_other_names(s: Seq<(Seq<char>, AmfTree)>, key: Seq<char>)
    requires
        plain_key(key),
        key != "videotrackidinfomap"@,
        key != "audiotrackidinfomap"@,
        forall|i: int| 0 <= i < s.len() ==> (#[trigger] s[i]).0 != key,
    ensures
        forall|k: int| 0 <= k < added(s).len() ==> (#[trigger] added(s)[k]).0 != key,
    decreases s.len(),
{
    if s.len() > 0 {
        let rest = s.drop_first();
        assert forall|i: int| 0 <= i < rest.len() implies (#[trigger] rest[i]).0 != key by {
            assert(rest[i] == s[i + 1]);
        }
        lemma_other_names(rest, key);
        let name = flat_name(s[0].0, s[0].1);
        let head = if is_table(s[0].0, s[0].1) {
            Seq::empty()
        } else {
            flat(s[0].1, name)
        };
        lemma_flat_keys(s[0].1, name);
        assert(s[0].0 != key);
        assert forall|k: int| 0 <= k < added(s).len() implies (#[trigger] added(s)[k]).0 != key by {
            if k < head.len() {
                assert(added(s)[k] == head[k]);
                assert(grown(head[k].0, name));
                if head[k].0 == key {
                    let n = name.len() as int;
                    if key.len() == n {
                        assert(key.take(n) =~= key);
                    } else {
                        assert(key[n] != '.' && key[n] != '[');
                    }
                }
            } else {
                assert(added(s)[k] == added(rest)[k - head.len()]);
            }
        }
    }
}

/// A number that is the only property of its name in the metadata is the only entry under it.
pub proof fn law_number_is_the_only_one(s: Seq<(Seq<char>, AmfTree)>, i: int, n: Double) -> (k: int)
    requires
        0 <= i < s.len(),
        s[i].1 == AmfTree::Number(n),
        plain_key(s[i].0),
        s[i].0 != "videotrackidinfomap"@,
        s[i].0 != "audiotrackidinfomap"@,
        forall|j: int| 0 <= j < s.len() && j != i ==> (#[trigger] s[j]).0 != s[i].0,
    ensures
        0 <= k < added(s).len(),
        added(s)[k] == (s[i].0, Leaf::Number(n)),
        forall|j: int| 0 <= j < added(s).len() && j != k ==> (#[trigger] added(s)[j]).0 != s[i].0,
    decreases s.len(),
{
    let key = s[i].0;
    let rest = s.drop_first();
    let name = flat_name(s[0].0, s[0].1);
    let head = if is_table(s[0].0, s[0].1) {
        Seq::empty()
    } else {
        flat(s[0].1, name)
    };
    if i == 0 {
        assert forall|j: int| 0 <= j < rest.len() implies (#[trigger] rest[j]).0 != key by {
            assert(rest[j] == s[j + 1]);
        }
        lemma_other_names(rest, key);
        assert(head == seq![(key, Leaf::Number(n))]);
        assert(added(s) =~= seq![(key, Leaf::Number(n))] + added(rest));
        assert forall|j: int| 0 <= j < added(s).len() && j != 0 implies (#[trigger] added(s)[j]).0
            != key by {
            assert(added(s)[j] == added(rest)[j - 1]);
        }
        0
    } else {
        assert(rest[i - 1] == s[i]);
        assert forall|j: int| 0 <= j < rest.len() && j != i - 1 implies (#[trigger] rest[j]).0
            != rest[i - 1].0 by {
            assert(rest[j] == s[j + 1]);
        }
        let k = law_number_is_the_only_one(rest, i - 1, n);
        let one = seq![s[0]];
        assert(s[0].0 != key);
        lemma_other_names(one, key);
        assert(one.drop_first() =~= Seq::empty());
        assert(added(one.drop_first()) == Seq::<(Seq<char>, Leaf)>::empty());
        assert(added(one) =~= head);
        assert(added(s)[head.len() + k] == added(rest)[k]);
        assert forall|j: int|
            0 <= j < added(s).len() && j != head.len() + k implies (#[trigger] added(s)[j]).0
            != key by {
            if j < head.len() {
                assert(added(s)[j] == added(one)[j]);
            } else {
                assert(added(s)[j] == added(rest)[j - head.len()]);
            }
        }
        head.len() + k
    }
}

proof fn lemma_metadata_seen(h: TagHeader, bag: Seq<(Seq<char>, Meta)>)
    requires
        emit_script("onMetaData"@, Meta::EcmaArray(bag)).fault is None,
    ensures
        see(
            Scan::none(),
            TagType::ScriptData,
            h,
            emit_script("onMetaData"@, Meta::EcmaArray(bag)).bytes,
        ) matches Ok(st) && st.facts.entries == added(trees(bag)) && st.audio is None
            && st.video is None,
{
    let body = emit_script("onMetaData"@, Meta::EcmaArray(bag)).bytes;
    let none = Scan::none();
    law_script_comes_back(none.facts, "onMetaData"@, Meta::EcmaArray(bag));
    law_metadata_in_any_object(none.facts, trees(bag), Seq::empty());
    law_metadata_is_taken_in(none.facts, trees(bag));
    assert(tree(Meta::EcmaArray(bag)) == AmfTree::EcmaArray(trees(bag)));
    law_what_tags_add(none, h, body);
    assert(none.facts.entries + added(trees(bag)) =~= added(trees(bag)));
}

/// A stream that is found stays as it was found.
proof fn lemma_found_stays(units: Seq<Unit>, left: nat, st: Scan)
    ensures
        see_units(units, left, st) matches Ok(end) ==> (st.audio is Some ==> end.audio == st.audio) && (
        st.video is Some ==> end.video == st.video),
    decreases left,
{
    if left > 0 && units.len() > 0 {
        let u = units[0];
        law_what_tags_add(st, u.header(), u.body);
        if let Ok(n) = see(st, u.kind, u.header(), u.body) {
            lemma_found_stays(units.drop_first(), (left - 1) as nat, n);
        }
    }
}

proof fn lemma_two_seen(a: Unit, b: Unit, rest: Seq<Unit>, st: Scan, end: Scan)
    requires
        see(Scan::none(), a.kind, a.header(), a.body) == Ok::<Scan, Error>(st),
        st.audio is None && st.video is None,
        see(st, b.kind, b.header(), b.body) == Ok::<Scan, Error>(end),
    ensures
        see_units(seq![a, b] + rest, 256, Scan::none()) == see_units(rest, 254, end),
{
    let units = seq![a, b] + rest;
    let more = units.drop_first();
    assert(units[0] == a);
    assert(more =~= seq![b] + rest);
    assert(more[0] == b);
    assert(more.drop_first() =~= rest);
    assert(see_units(more, 255, st) == see_units(rest, 254, end));
}

/// A file that starts with metadata and a tag of a stream, whatever follows, has the stream described by
/// the metadata, where it can be opened: the entries are those of its properties. It can be opened where
/// nothing follows.
#[verifier::spinoff_prover]
#[verifier::rlimit(40)]
pub proof fn law_metadata_precedes_a_stream(
    has_audio: bool,
    has_video: bool,
    bag: Seq<(Seq<char>, Meta)>,
    unit: Unit,
    rest: Seq<Unit>,
)
    requires
        emit_script("onMetaData"@, Meta::EcmaArray(bag)).fault is None,
        emit_script("onMetaData"@, Meta::EcmaArray(bag)).bytes.len() <= UI24_MAX,
        0 < unit.body.len() <= UI24_MAX,
        all_fit(rest),
        unit.kind is Audio && crate::ex_audio::header(unit.body) is Ok || unit.kind is Video
            && crate::ex_video::header(unit.body) is Ok,
    ensures
        ({
            let body = emit_script("onMetaData"@, Meta::EcmaArray(bag)).bytes;
            let first = Unit { kind: TagType::ScriptData, timestamp_ms: 0, body };
            let seed = Seed { body: unit.body, entries: added(trees(bag)) };
            let out = opened(file(has_audio, has_video, seq![first, unit] + rest));
            &&& rest.len() == 0 ==> out is Ok
            &&& out matches Ok(r) ==> (unit.kind is Audio ==> r.told.audio == Some(seed)) && (
            unit.kind is Video ==> r.told.video == Some(seed))
        }),
{
    let body = emit_script("onMetaData"@, Meta::EcmaArray(bag)).bytes;
    let first = Unit { kind: TagType::ScriptData, timestamp_ms: 0, body };
    let units = seq![first, unit] + rest;
    assert(all_fit(units)) by {
        assert(units[0] == first && units[1] == unit);
        assert forall|i: int| 2 <= i < units.len() implies units[i] == rest[i - 2] by {}
    }
    law_open_written(has_audio, has_video, units);
    lemma_metadata_seen(first.header(), bag);
    let st = see(Scan::none(), first.kind, first.header(), first.body)->Ok_0;
    law_what_tags_add(st, unit.header(), unit.body);
    let end = see(st, unit.kind, unit.header(), unit.body)->Ok_0;
    lemma_two_seen(first, unit, rest, st, end);
    lemma_found_stays(rest, 254, end);
    if let Ok(last) = see_units(rest, 254, end) {
        assert(told_by(last).audio == last.audio && told_by(last).video == last.video);
    }
    if rest.len() == 0 {
        assert(see_units(rest, 254, end) == Ok::<Scan, Error>(end));
        assert(found(end));
    }
}

/// The data rate of audio that was written in the metadata before the first audio tag is that of the
/// stream of audio of the file, whatever else the metadata holds and whatever follows.
#[verifier::spinoff_prover]
#[verifier::rlimit(40)]
pub proof fn law_written_audio_rate(
    has_audio: bool,
    has_video: bool,
    bag: Seq<(Seq<char>, Meta)>,
    i: int,
    n: Double,
    unit: Unit,
    rest: Seq<Unit>,
    readings: Seq<Option<Double>>,
)
    requires
        all_fit(rest),
        emit_script("onMetaData"@, Meta::EcmaArray(bag)).fault is None,
        emit_script("onMetaData"@, Meta::EcmaArray(bag)).bytes.len() <= UI24_MAX,
        0 < unit.body.len() <= UI24_MAX,
        unit.kind is Audio && crate::ex_audio::header(unit.body) is Ok,
        0 <= i < bag.len(),
        bag[i] == ("audiodatarate"@, Meta::Number(n)),
        forall|j: int| 0 <= j < bag.len() && j != i ==> (#[trigger] bag[j]).0 != "audiodatarate"@,
        n.finite(),
        n.rank() >= 0,
    ensures
        ({
            let body = emit_script("onMetaData"@, Meta::EcmaArray(bag)).bytes;
            let first = Unit { kind: TagType::ScriptData, timestamp_ms: 0, body };
            opened(file(has_audio, has_video, seq![first, unit] + rest)) matches Ok(r) ==> (
            r.told.audio matches Some(seed) && (sound(
                seed.body,
                seed.entries,
                readings,
                r.told.channel_count,
            ) matches Ok(d) && d.data_rate_kbps == Some(n)))
        }),
{
    law_metadata_precedes_a_stream(has_audio, has_video, bag, unit, rest);
    let s = trees(bag);
    assert(s[i] == ("audiodatarate"@, AmfTree::Number(n)));
    assert forall|j: int| 0 <= j < s.len() && j != i implies (#[trigger] s[j]).0 != s[i].0 by {
        assert(s[j].0 == bag[j].0);
    }
    lemma_plain_keys();
    let k = law_number_is_the_only_one(s, i, n);
    let e = added(s);
    assert(number_in(e, readings, k) == Some(n));
    assert(first_finite(e, readings, "audiodatarate"@, k));
    let body = emit_script("onMetaData"@, Meta::EcmaArray(bag)).bytes;
    let first = Unit { kind: TagType::ScriptData, timestamp_ms: 0, body };
    let r = opened(file(has_audio, has_video, seq![first, unit] + rest))->Ok_0;
    law_audio_data_rate(unit.body, e, readings, r.told.channel_count);
}

proof fn lemma_only_number(
    e: Seq<(Seq<char>, Leaf)>,
    readings: Seq<Option<Double>>,
    key: Seq<char>,
    k: int,
    n: Double,
)
    requires
        0 <= k < e.len(),
        e[k] == (key, Leaf::Number(n)),
        forall|j: int| 0 <= j < e.len() && j != k ==> (#[trigger] e[j]).0 != key,
        n.within(of_int(0xFFFF_FFFF)),
    ensures
        number_in(e, readings, k) == Some(n),
        first_finite(e, readings, key, k),
        first_whole(e, readings, key, k),
{
    assert forall|j: int| 0 <= j < k implies !#[trigger] finite_under(e, readings, key, j) by {
        assert(e[j].0 != key);
    }
    assert forall|j: int| 0 <= j < k implies !#[trigger] whole_under(e, readings, key, j) by {
        assert(e[j].0 != key);
    }
}

proof fn lemma_video_described(
    body: Seq<u8>,
    e: Seq<(Seq<char>, Leaf)>,
    readings: Seq<Option<Double>>,
    key: Seq<char>,
    k: int,
    n: Double,
)
    requires
        body.len() > 0,
        crate::ex_video::header(body) is Ok,
        first_finite(e, readings, key, k),
        first_whole(e, readings, key, k),
        number_in(e, readings, k) == Some(n),
        n.rank() >= 0,
    ensures
        picture(body, e, readings) matches Ok(d) && (key == "videodatarate"@ ==> d.data_rate_kbps
            == Some(n)) && (key == "width"@ ==> d.width == Some(n.trunc() as u32)) && (key
            == "height"@ ==> d.height == Some(n.trunc() as u32)),
{
    law_video_data_rate(body, e, readings);
    law_video_size(body, e, readings);
}

/// The data rate of video, and the size of the picture, that were written in the metadata before the
/// first video tag are those of the stream of video of the file, whatever else the metadata holds and
/// whatever follows.
#[verifier::spinoff_prover]
#[verifier::rlimit(40)]
pub proof fn law_written_video_numbers(
    has_audio: bool,
    has_video: bool,
    bag: Seq<(Seq<char>, Meta)>,
    i: int,
    n: Double,
    unit: Unit,
    rest: Seq<Unit>,
    readings: Seq<Option<Double>>,
)
    requires
        all_fit(rest),
        emit_script("onMetaData"@, Meta::EcmaArray(bag)).fault is None,
        emit_script("onMetaData"@, Meta::EcmaArray(bag)).bytes.len() <= UI24_MAX,
        0 < unit.body.len() <= UI24_MAX,
        unit.kind is Video && crate::ex_video::header(unit.body) is Ok,
        0 <= i < bag.len(),
        bag[i].1 == Meta::Number(n),
        bag[i].0 == "videodatarate"@ || bag[i].0 == "width"@ || bag[i].0 == "height"@,
        forall|j: int| 0 <= j < bag.len() && j != i ==> (#[trigger] bag[j]).0 != bag[i].0,
        n.finite(),
        n.rank() >= 0,
        n.within(of_int(0xFFFF_FFFF)),
    ensures
        ({
            let body = emit_script("onMetaData"@, Meta::EcmaArray(bag)).bytes;
            let first = Unit { kind: TagType::ScriptData, timestamp_ms: 0, body };
            opened(file(has_audio, has_video, seq![first, unit] + rest)) matches Ok(r) ==> (
            r.told.video matches Some(seed) && (picture(seed.body, seed.entries, readings) matches Ok(
                d,
            ) && (bag[i].0 == "videodatarate"@ ==> d.data_rate_kbps == Some(n)) && (bag[i].0
                == "width"@ ==> d.width == Some(n.trunc() as u32)) && (bag[i].0 == "height"@
                ==> d.height == Some(n.trunc() as u32))))
        }),
{
    law_metadata_precedes_a_stream(has_audio, has_video, bag, unit, rest);
    let s = trees(bag);
    assert(s[i] == (bag[i].0, AmfTree::Number(n)));
    assert forall|j: int| 0 <= j < s.len() && j != i implies (#[trigger] s[j]).0 != s[i].0 by {
        assert(s[j].0 == bag[j].0);
    }
    let e = added(s);
    assert(plain_key(s[i].0) && s[i].0 != "videotrackidinfomap"@ && s[i].0
        != "audiotrackidinfomap"@) by {
        lemma_plain_keys();
    }
    let k = law_number_is_the_only_one(s, i, n);
    lemma_only_number(e, readings, bag[i].0, k, n);
    lemma_video_described(unit.body, e, readings, bag[i].0, k, n);
}

proof fn lemma_plain_keys()
    ensures
        plain_key("audiodatarate"@),
        plain_key("videodatarate"@),
        plain_key("width"@),
        plain_key("height"@),
        forall|k: Seq<char>|
            k == "audiodatarate"@ || k == "videodatarate"@ || k == "width"@ || k == "height"@
                ==> #[trigger] k.len() != "videotrackidinfomap"@.len() && k.len()
                != "audiotrackidinfomap"@.len(),
{
    reveal_strlit("audiodatarate");
    reveal_strlit("videodatarate");
    reveal_strlit("width");
    reveal_strlit("height");
    reveal_strlit("videotrackidinfomap");
    reveal_strlit("audiotrackidinfomap");
}

} // verus!

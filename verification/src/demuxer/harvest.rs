//! What media tags say beside their frames: the colours of a picture, and the speakers of a
//! sound.
use vstd::prelude::*;
use vstd::string::*;
use vstd::utf8::*;
use crate::amf0::decode::{lemma_value_advances, value};
use crate::amf0::{parse_amf0_value, AmfTree, AmfValue};
use crate::demuxer::entries::{
    entries_view, flat, flatten_amf_value, push_entry, push_text, Entry, EntryValue, Leaf,
};
use crate::demuxer::facts::{starts, starts_with};
use crate::demuxer::packet::{audio_part, read_audio_part, read_video_part, video_part};
use crate::double::{of_int, Double};
use crate::ex_audio::{ExAudioPacketType, ExAudioTagHeader};
use crate::ex_video::{ExPacketType, ExVideoTagHeader};
use crate::multichannel::{
    config, mask_channel_labels, names, AudioChannel, Channels, MultichannelConfig,
};
use crate::text::{lower, lowercase, same_text, texts_view};

verus! {

// ---- replacing what stands under a key --------------------------------------

/// A key is `prefix`, or of a member or an item of what stands there.
pub open spec fn under(key: Seq<char>, prefix: Seq<char>) -> bool {
    let k = encode_utf8(key);
    let n = encode_utf8(prefix).len();
    starts(key, prefix) && (k.len() == n || k[n as int] == 0x2E || k[n as int] == 0x5B)
}

/// The entries that do not stand under `prefix`.
pub open spec fn without(s: Seq<(Seq<char>, Leaf)>, prefix: Seq<char>) -> Seq<(Seq<char>, Leaf)>
    decreases s.len(),
{
    if s.len() == 0 {
        Seq::empty()
    } else if under(s.last().0, prefix) {
        without(s.drop_last(), prefix)
    } else {
        without(s.drop_last(), prefix).push(s.last())
    }
}

pub(crate) fn is_under(key: &str, prefix: &str) -> (r: bool)
    ensures
        r == under(key@, prefix@),
{
    if !starts_with(key, prefix) {
        return false;
    }
    let k = key.as_bytes();
    let n: usize = prefix.as_bytes().len();
    k.len() == n || k[n] == 0x2E || k[n] == 0x5B
}

fn drop_under(entries: &mut Vec<Entry>, prefix: &str)
    ensures
        entries_view(final(entries)@) == without(entries_view(old(entries)@), prefix@),
{
    let ghost s = entries_view(entries@);
    let mut kept: Vec<Entry> = Vec::new();
    let mut i: usize = 0;
    assert(s.take(0) =~= Seq::<(Seq<char>, Leaf)>::empty());
    assert(entries_view(kept@) =~= Seq::<(Seq<char>, Leaf)>::empty());
    while i < entries.len()
        invariant
            i <= entries@.len(),
            s == entries_view(entries@),
            entries_view(kept@) == without(s.take(i as int), prefix@),
        decreases entries@.len() - i,
    {
        proof {
            assert(s.take(i + 1).drop_last() =~= s.take(i as int));
            assert(s.take(i + 1).last() == entries@[i as int]@);
        }
        if !is_under(entries[i].key.as_str(), prefix) {
            let ghost before = kept@;
            let e = entries[i].clone();
            kept.push(e);
            assert(entries_view(kept@) =~= entries_view(before).push(e@));
        }
        i += 1;
    }
    assert(s.take(s.len() as int) =~= s);
    *entries = kept;
}

// ---- colours ----------------------------------------------------------------

/// The pairs of a name and a value from `pos` on, up to what is no such pair.
pub open spec fn named_values(data: Seq<u8>, pos: int) -> Seq<(Seq<char>, AmfTree)>
    decreases data.len() - pos,
{
    match value(data, pos) {
        Ok((AmfTree::String(name), p)) => match value(data, p) {
            Ok((v, q)) => {
                proof {
                    lemma_value_advances(data, pos);
                    lemma_value_advances(data, p);
                }
                seq![(name, v)] + named_values(data, q)
            },
            Err(f) => Seq::empty(),
        },
        _ => Seq::empty(),
    }
}

/// What is noted of a value: the value laid flat. Colours of which nothing is left then leave an
/// empty text under their name, so that it is known that they were sent.
pub open spec fn mark(v: AmfTree, key: Seq<char>) -> Seq<(Seq<char>, Leaf)> {
    if key == "colorinfo"@ && flat(v, key).len() == 0 {
        seq![(key, Leaf::Text(""@))]
    } else {
        flat(v, key)
    }
}

/// A value takes the place of what stood under its name, in lower case.
pub open spec fn noted(s: Seq<(Seq<char>, Leaf)>, name: Seq<char>, v: AmfTree) -> Seq<
    (Seq<char>, Leaf),
> {
    without(s, lower(name)) + mark(v, lower(name))
}

/// Each value in turn takes the place of what stood under its name.
pub open spec fn noted_all(s: Seq<(Seq<char>, Leaf)>, pairs: Seq<(Seq<char>, AmfTree)>) -> Seq<
    (Seq<char>, Leaf),
>
    decreases pairs.len(),
{
    if pairs.len() == 0 {
        s
    } else {
        noted_all(noted(s, pairs[0].0, pairs[0].1), pairs.drop_first())
    }
}

/// The entries behind a video tag: a metadata packet has its values noted.
pub open spec fn video_noted(s: Seq<(Seq<char>, Leaf)>, body: Seq<u8>) -> Seq<(Seq<char>, Leaf)> {
    match crate::ex_video::header(body) {
        Ok(Some(h)) => if video_part(h, body).0 is Metadata {
            noted_all(s, named_values(video_part(h, body).2, 0))
        } else {
            s
        },
        _ => s,
    }
}

fn note_value(entries: &mut Vec<Entry>, key: &str, v: &AmfValue)
    ensures
        entries_view(final(entries)@) == entries_view(old(entries)@) + mark(v@, key@),
{
    let before: usize = entries.len();
    flatten_amf_value(v, key, entries);
    assert(entries_view(entries@).len() == before + flat(v@, key@).len());
    if entries.len() == before && same_text(key, "colorinfo") {
        push_text(entries, key, "");
        assert(entries_view(entries@) =~= entries_view(old(entries)@) + mark(v@, key@));
    }
}

fn note_values(entries: &mut Vec<Entry>, data: &[u8])
    ensures
        entries_view(final(entries)@) == noted_all(
            entries_view(old(entries)@),
            named_values(data@, 0),
        ),
{
    let ghost goal = noted_all(entries_view(entries@), named_values(data@, 0));
    let mut pos: usize = 0;
    loop
        invariant
            pos <= data@.len(),
            goal == noted_all(entries_view(entries@), named_values(data@, pos as int)),
        ensures
            goal == entries_view(entries@),
        decreases data@.len() - pos,
    {
        let ghost pairs = named_values(data@, pos as int);
        let (name, p): (String, usize) = match parse_amf0_value(data, pos) {
            Ok((AmfValue::String(name), p)) => (name, p),
            _ => {
                assert(noted_all(entries_view(entries@), Seq::empty()) == entries_view(entries@));
                break;
            },
        };
        match parse_amf0_value(data, p) {
            Ok((v, q)) => {
                proof {
                    let rest = named_values(data@, q as int);
                    assert(pairs == seq![(name@, v@)] + rest);
                    assert(pairs.drop_first() =~= rest);
                }
                let key = lowercase(name.as_str());
                drop_under(entries, key.as_str());
                note_value(entries, key.as_str(), &v);
                pos = q;
            },
            Err(_) => {
                assert(noted_all(entries_view(entries@), Seq::empty()) == entries_view(entries@));
                break;
            },
        }
    }
}

/// Takes in what a video tag says beside its frames.
pub fn harvest_video_metadata_frame(entries: &mut Vec<Entry>, body: &[u8])
    ensures
        entries_view(final(entries)@) == video_noted(entries_view(old(entries)@), body@),
{
    if let Ok(Some(h)) = ExVideoTagHeader::parse(body) {
        let (kind, offset, data) = read_video_part(&h, body);
        if let ExPacketType::Metadata = kind {
            note_values(entries, data.as_slice());
        }
    }
}

// ---- speakers ---------------------------------------------------------------

/// Texts with commas between them.
pub open spec fn joined(s: Seq<Seq<char>>) -> Seq<char>
    decreases s.len(),
{
    if s.len() == 0 {
        Seq::empty()
    } else if s.len() == 1 {
        s[0]
    } else {
        joined(s.drop_last()) + ","@ + s.last()
    }
}

/// The names of speakers.
pub open spec fn speaker_names(s: Seq<AudioChannel>) -> Seq<Seq<char>> {
    Seq::new(s.len(), |i: int| s[i].name())
}

/// What is noted of a configuration of speakers.
pub open spec fn layout(c: Channels) -> Seq<(Seq<char>, Leaf)> {
    seq![
        ("multichannelconfig.order"@, Leaf::Text(c.order.name())),
        ("multichannelconfig.channelcount"@, Leaf::Number(of_int(c.channel_count as nat))),
    ] + (match c.channel_flags {
        Some(f) => seq![
            ("multichannelconfig.flags"@, Leaf::Number(of_int(f as nat))),
            ("multichannelconfig.layout"@, Leaf::Text(joined(names(f as nat, 0)))),
        ],
        None => Seq::empty(),
    }) + (match c.mapping {
        Some(m) => seq![
            ("multichannelconfig.mapping"@, Leaf::Text(joined(speaker_names(m)))),
        ],
        None => Seq::empty(),
    })
}

/// The configuration of speakers in an audio tag.
pub open spec fn speakers_in(body: Seq<u8>) -> Option<Channels> {
    match crate::ex_audio::header(body) {
        Ok(Some(h)) => if audio_part(h, body).0 is MultichannelConfig {
            match config(audio_part(h, body).1) {
                Ok(c) => Some(c),
                Err(f) => None,
            }
        } else {
            None
        },
        _ => None,
    }
}

/// The entries behind an audio tag: a configuration takes the place of the one before.
pub open spec fn audio_noted(s: Seq<(Seq<char>, Leaf)>, body: Seq<u8>) -> Seq<(Seq<char>, Leaf)> {
    match speakers_in(body) {
        Some(c) => without(s, "multichannelconfig"@) + layout(c),
        None => s,
    }
}

fn join(s: &Vec<String>) -> (r: String)
    ensures
        r@ == joined(texts_view(s@)),
{
    let ghost t = texts_view(s@);
    let mut out = String::new();
    let mut i: usize = 0;
    assert(out@ =~= Seq::<char>::empty());
    assert(t.take(0) =~= Seq::<Seq<char>>::empty());
    while i < s.len()
        invariant
            i <= s@.len(),
            t == texts_view(s@),
            out@ == joined(t.take(i as int)),
        decreases s@.len() - i,
    {
        proof {
            assert(t.take(i + 1).drop_last() =~= t.take(i as int));
            assert(t.take(i + 1).last() == s@[i as int]@);
        }
        if i > 0 {
            out.append(",");
        }
        out.append(s[i].as_str());
        assert(i == 0 ==> out@ =~= s@[0]@);
        i += 1;
    }
    assert(t.take(t.len() as int) =~= t);
    out
}

fn mapping_labels(m: &Vec<AudioChannel>) -> (r: Vec<String>)
    ensures
        texts_view(r@) == speaker_names(m@),
{
    let mut out: Vec<String> = Vec::new();
    let mut i: usize = 0;
    while i < m.len()
        invariant
            i <= m@.len(),
            out@.len() == i,
            forall|j: int| 0 <= j < i ==> (#[trigger] out@[j])@ == m@[j].name(),
        decreases m@.len() - i,
    {
        out.push(m[i].label());
        i += 1;
    }
    assert(texts_view(out@) =~= speaker_names(m@));
    out
}

fn push_layout(entries: &mut Vec<Entry>, c: &MultichannelConfig)
    ensures
        entries_view(final(entries)@) == entries_view(old(entries)@) + layout(c@),
{
    push_text(entries, "multichannelconfig.order", c.order.label().as_str());
    push_entry(
        entries,
        "multichannelconfig.channelcount",
        EntryValue::Number(Double::from_u32(c.channel_count as u32)),
    );
    if let Some(f) = c.channel_flags {
        push_entry(entries, "multichannelconfig.flags", EntryValue::Number(Double::from_u32(f)));
        let labels = mask_channel_labels(f);
        push_text(entries, "multichannelconfig.layout", join(&labels).as_str());
    }
    if let Some(m) = &c.mapping {
        let labels = mapping_labels(m);
        push_text(entries, "multichannelconfig.mapping", join(&labels).as_str());
    }
    assert(entries_view(entries@) =~= entries_view(old(entries)@) + layout(c@));
}

/// Takes in what an audio tag says beside its frames, and hands out the number of channels that
/// a configuration of speakers has.
pub fn harvest_audio_config(entries: &mut Vec<Entry>, body: &[u8]) -> (r: Option<u8>)
    ensures
        entries_view(final(entries)@) == audio_noted(entries_view(old(entries)@), body@),
        r == (match speakers_in(body@) {
            Some(c) => Some(c.channel_count),
            None => None::<u8>,
        }),
{
    if let Ok(Some(h)) = ExAudioTagHeader::parse(body) {
        let (kind, data) = read_audio_part(&h, body);
        if let ExAudioPacketType::MultichannelConfig = kind {
            if let Ok(c) = MultichannelConfig::parse(data.as_slice()) {
                drop_under(entries, "multichannelconfig");
                push_layout(entries, &c);
                return Some(c.channel_count);
            }
        }
    }
    None
}

} // verus!

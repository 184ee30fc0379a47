//! What script tags say, told by the values in them.
use vstd::prelude::*;
use crate::amf0::decode::value;
use crate::amf0::AmfTree;
use crate::amf3::Amf3Tree;
use crate::demuxer::entries::{flat, flat3, flat3_items, flat3_members, flat3_pairs, flat_items,
    flat_pairs, Leaf};
use crate::demuxer::facts::{call, headline, keyframes, last_array, live_xml, next_cue, properties,
    property, script, Facts, Toc};
use crate::double::{of_int, Double};
use crate::text::decimal;

verus! {

// ---- values laid flat -------------------------------------------------------

/// A value that holds no others is one entry under its key.
pub proof fn law_scalars_are_one_entry(
    key: Seq<char>,
    n: Double,
    s: Seq<char>,
    tz: i16,
    index: u16,
)
    ensures
        flat(AmfTree::Number(n), key) == seq![(key, Leaf::Number(n))],
        flat(AmfTree::Boolean(true), key) == seq![(key, Leaf::Text("true"@))],
        flat(AmfTree::Boolean(false), key) == seq![(key, Leaf::Text("false"@))],
        flat(AmfTree::String(s), key) == seq![(key, Leaf::Text(s))],
        flat(AmfTree::Xml(s), key) == seq![(key, Leaf::Text(s))],
        flat(AmfTree::Null, key) == seq![(key, Leaf::Text("null"@))],
        flat(AmfTree::Undefined, key) == seq![(key, Leaf::Text("undefined"@))],
        flat(AmfTree::Unsupported, key) == seq![(key, Leaf::Text("unsupported"@))],
        flat(AmfTree::Date { time_ms: n, tz }, key) == seq![(key, Leaf::Date { time_ms: n, tz })],
        flat(AmfTree::Reference(index), key) == seq![
            (key, Leaf::Text("ref:"@ + decimal(index as nat))),
        ],
{
}

/// The entries of named values: those of each under its name behind a full stop, in order.
pub proof fn law_members_are_flat(s: Seq<(Seq<char>, AmfTree)>, class_name: Seq<char>, key: Seq<char>)
    ensures
        flat(AmfTree::Object(s), key) == flat_pairs(s, key),
        flat(AmfTree::EcmaArray(s), key) == flat_pairs(s, key),
        flat(AmfTree::TypedObject { class_name, body: s }, key) == flat_pairs(s, key),
        s.len() == 0 ==> flat_pairs(s, key).len() == 0,
        s.len() > 0 ==> flat_pairs(s, key) == flat(s[0].1, key + "."@ + s[0].0) + flat_pairs(
            s.drop_first(),
            key,
        ),
{
}

/// The entries of values by number: those of each under its number in square brackets, counted from
/// zero, in order.
pub proof fn law_items_are_flat(a: Seq<AmfTree>, key: Seq<char>, from: nat)
    ensures
        flat(AmfTree::StrictArray(a), key) == flat_items(a, key, 0),
        a.len() == 0 ==> flat_items(a, key, from).len() == 0,
        a.len() > 0 ==> flat_items(a, key, from) == flat(
            a[0],
            key + "["@ + decimal(from) + "]"@,
        ) + flat_items(a.drop_first(), key, from + 1),
{
}

/// The entries of AMF3 values: as those of AMF0; of bytes, their number; of an array, its named values
/// and then those by number; of an object, its declared members and then the others.
pub proof fn law_amf3_is_flat(
    key: Seq<char>,
    n: Double,
    s: Seq<char>,
    i: i32,
    bytes: Seq<u8>,
    pairs: Seq<(Seq<char>, Amf3Tree)>,
    items: Seq<Amf3Tree>,
    names: Seq<Seq<char>>,
    from: nat,
)
    ensures
        forall|w: Amf3Tree| flat(AmfTree::AvmPlus(w), key) == #[trigger] flat3(w, key),
        flat3(Amf3Tree::Undefined, key) == seq![(key, Leaf::Text("undefined"@))],
        flat3(Amf3Tree::Null, key) == seq![(key, Leaf::Text("null"@))],
        flat3(Amf3Tree::Boolean(true), key) == seq![(key, Leaf::Text("true"@))],
        flat3(Amf3Tree::Boolean(false), key) == seq![(key, Leaf::Text("false"@))],
        i >= 0 ==> flat3(Amf3Tree::Integer(i), key) == seq![
            (key, Leaf::Number(of_int(i as nat))),
        ],
        i < 0 ==> flat3(Amf3Tree::Integer(i), key) == seq![
            (
                key,
                Leaf::Number(
                    Double { bits: (of_int((-i) as nat).bits + 0x8000_0000_0000_0000) as u64 },
                ),
            ),
        ],
        flat3(Amf3Tree::Double(n), key) == seq![(key, Leaf::Number(n))],
        flat3(Amf3Tree::String(s), key) == seq![(key, Leaf::Text(s))],
        flat3(Amf3Tree::Xml(s), key) == seq![(key, Leaf::Text(s))],
        flat3(Amf3Tree::XmlDocument(s), key) == seq![(key, Leaf::Text(s))],
        flat3(Amf3Tree::Date(n), key) == seq![(key, Leaf::Date { time_ms: n, tz: 0 })],
        flat3(Amf3Tree::ByteArray(bytes), key) == seq![
            (key, Leaf::Text("bytes:"@ + decimal(bytes.len()))),
        ],
        flat3(Amf3Tree::Array { assoc: pairs, dense: items }, key) == flat3_pairs(pairs, key)
            + flat3_items(items, key, 0),
        forall|d: bool, x: bool, c: Seq<char>|
            #[trigger] flat3(
                Amf3Tree::Object {
                    class_name: c,
                    dynamic: d,
                    externalizable: x,
                    sealed_names: names,
                    sealed_values: items,
                    dynamic_members: pairs,
                },
                key,
            ) == flat3_members(names, items, key) + flat3_pairs(pairs, key),
        pairs.len() == 0 ==> flat3_pairs(pairs, key).len() == 0,
        pairs.len() > 0 ==> flat3_pairs(pairs, key) == flat3(
            pairs[0].1,
            key + "."@ + pairs[0].0,
        ) + flat3_pairs(pairs.drop_first(), key),
        items.len() == 0 ==> flat3_items(items, key, from).len() == 0 && flat3_members(
            names,
            items,
            key,
        ).len() == 0,
        items.len() > 0 ==> flat3_items(items, key, from) == flat3(
            items[0],
            key + "["@ + decimal(from) + "]"@,
        ) + flat3_items(items.drop_first(), key, from + 1),
        items.len() > 0 && names.len() > 0 ==> flat3_members(names, items, key) == flat3(
            items[0],
            key + "."@ + names[0],
        ) + flat3_members(names.drop_first(), items.drop_first(), key),
{
    assert forall|w: Amf3Tree| flat(AmfTree::AvmPlus(w), key) == #[trigger] flat3(w, key) by {}
}

// ---- metadata ---------------------------------------------------------------

/// The key under which a property is laid flat: its name, but for the maps of tracks in lower case.
pub open spec fn flat_name(name: Seq<char>, v: AmfTree) -> Seq<char> {
    let holds = v is Object || v is EcmaArray || v is TypedObject;
    if holds && name == "videoTrackIdInfoMap"@ {
        "videotrackidinfomap"@
    } else if holds && name == "audioTrackIdInfoMap"@ {
        "audiotrackidinfomap"@
    } else {
        name
    }
}

/// The property is a table of keyframes, which is no entry.
pub open spec fn is_table(name: Seq<char>, v: AmfTree) -> bool {
    name == "keyframes"@ && (v is Object || v is EcmaArray)
}

/// The entries that properties add: those of each, in order.
pub open spec fn added(s: Seq<(Seq<char>, AmfTree)>) -> Seq<(Seq<char>, Leaf)>
    decreases s.len(),
{
    if s.len() == 0 {
        Seq::empty()
    } else {
        (if is_table(s[0].0, s[0].1) {
            Seq::empty()
        } else {
            flat(s[0].1, flat_name(s[0].0, s[0].1))
        }) + added(s.drop_first())
    }
}

/// A number that a length can be: zero or more, and less than so many seconds that their
/// microseconds are no signed number of 64 bits.
pub open spec fn is_length(v: AmfTree) -> bool {
    v matches AmfTree::Number(n) && (n.bits < 0x42A0_C6F7_A0B5_ED8D || n.bits
        == 0x8000_0000_0000_0000)
}

/// The first length among properties is that of the property `i`.
pub open spec fn first_length(s: Seq<(Seq<char>, AmfTree)>, i: int) -> bool {
    &&& 0 <= i < s.len()
    &&& s[i].0 == "duration"@
    &&& is_length(s[i].1)
    &&& forall|j: int| 0 <= j < i && (#[trigger] s[j]).0 == "duration"@ ==> !is_length(s[j].1)
}

/// No property is a length.
pub open spec fn no_length(s: Seq<(Seq<char>, AmfTree)>) -> bool {
    forall|j: int| 0 <= j < s.len() && (#[trigger] s[j]).0 == "duration"@ ==> !is_length(s[j].1)
}

proof fn lemma_one_property(f: Facts, name: Seq<char>, v: AmfTree)
    ensures
        ({
            let g = property(f, name, v);
            &&& g.entries == f.entries + added(seq![(name, v)])
            &&& g.encryption == f.encryption && g.xmp == f.xmp
            &&& g.duration == (if f.duration is None && name == "duration"@ && is_length(v) {
                Some(v->Number_0)
            } else {
                f.duration
            })
            &&& g.keyframes == (if f.keyframes is None && is_table(name, v) {
                keyframes(v)
            } else {
                f.keyframes
            })
        }),
{
    let one = seq![(name, v)];
    assert(one.drop_first() =~= Seq::empty());
    assert(added(one.drop_first()) == Seq::<(Seq<char>, Leaf)>::empty());
    reveal_strlit("duration");
    reveal_strlit("keyframes");
    assert("duration"@.len() != "keyframes"@.len());
    if is_table(name, v) {
        assert(added(one) =~= Seq::empty());
        assert(f.entries + added(one) =~= f.entries);
    } else {
        assert(added(one) =~= flat(v, flat_name(name, v)));
    }
    if let AmfTree::Number(n) = v {
        assert(0 <= n.rank() < 0x42A0_C6F7_A0B5_ED8D <==> is_length(v));
    }
}

proof fn lemma_properties(f: Facts, s: Seq<(Seq<char>, AmfTree)>)
    ensures
        ({
            let g = properties(f, s);
            &&& g.entries == f.entries + added(s)
            &&& g.encryption == f.encryption && g.xmp == f.xmp
            &&& f.duration is Some ==> g.duration == f.duration
            &&& f.keyframes is Some ==> g.keyframes == f.keyframes
            &&& f.duration is None && no_length(s) ==> g.duration is None
            &&& forall|i: int|
                f.duration is None && #[trigger] first_length(s, i) ==> g.duration == Some(
                    s[i].1->Number_0,
                )
            &&& forall|i: int|
                f.keyframes is None && 0 <= i < s.len() && is_table((#[trigger] s[i]).0, s[i].1)
                    && keyframes(s[i].1) is Some && (forall|j: int|
                    0 <= j < i && is_table((#[trigger] s[j]).0, s[j].1) ==> keyframes(s[j].1) is None)
                    ==> g.keyframes == keyframes(s[i].1)
            &&& f.keyframes is None && (forall|j: int|
                0 <= j < s.len() && is_table((#[trigger] s[j]).0, s[j].1) ==> keyframes(s[j].1) is None)
                ==> g.keyframes is None
        }),
    decreases s.len(),
{
    if s.len() == 0 {
        assert(f.entries + added(s) =~= f.entries);
    } else {
        let (name, v) = s[0];
        let rest = s.drop_first();
        let one = property(f, name, v);
        lemma_one_property(f, name, v);
        lemma_properties(one, rest);
        let g = properties(f, s);
        assert(seq![(name, v)].drop_first() =~= Seq::empty());
        assert(added(seq![(name, v)].drop_first()) == Seq::<(Seq<char>, Leaf)>::empty());
        assert(f.entries + added(seq![(name, v)]) + added(rest) =~= f.entries + added(s));
        assert forall|j: int| 0 <= j < rest.len() implies #[trigger] rest[j] == s[j + 1] by {}
        if f.duration is None && no_length(s) {
            assert forall|j: int| 0 <= j < rest.len() && (#[trigger] rest[j]).0
                == "duration"@ implies !is_length(rest[j].1) by {
                assert(s[j + 1].0 == "duration"@);
            }
        }
        assert forall|i: int| f.duration is None && #[trigger] first_length(s, i) implies g.duration
            == Some(s[i].1->Number_0) by {
            if i > 0 {
                assert(s[0].0 == "duration"@ ==> !is_length(s[0].1));
                assert forall|j: int| 0 <= j < i - 1 && (#[trigger] rest[j]).0
                    == "duration"@ implies !is_length(rest[j].1) by {
                    assert(s[j + 1].0 == "duration"@);
                }
                assert(rest[i - 1] == s[i]);
                assert(first_length(rest, i - 1));
            }
        }
        assert forall|i: int|
            f.keyframes is None && 0 <= i < s.len() && is_table((#[trigger] s[i]).0, s[i].1)
                && keyframes(s[i].1) is Some && (forall|j: int|
                0 <= j < i && is_table((#[trigger] s[j]).0, s[j].1) ==> keyframes(s[j].1) is None)
                implies g.keyframes == keyframes(s[i].1) by {
            if i > 0 {
                assert(is_table(s[0].0, s[0].1) ==> keyframes(s[0].1) is None);
                assert forall|j: int| 0 <= j < i - 1 && is_table(
                    (#[trigger] rest[j]).0,
                    rest[j].1,
                ) implies keyframes(rest[j].1) is None by {
                    assert(is_table(s[j + 1].0, s[j + 1].1));
                }
                assert(rest[i - 1] == s[i]);
            }
        }
        if f.keyframes is None && (forall|j: int|
            0 <= j < s.len() && is_table((#[trigger] s[j]).0, s[j].1) ==> keyframes(s[j].1) is None) {
            assert(is_table(s[0].0, s[0].1) ==> keyframes(s[0].1) is None);
            assert forall|j: int| 0 <= j < rest.len() && is_table(
                (#[trigger] rest[j]).0,
                rest[j].1,
            ) implies keyframes(rest[j].1) is None by {
                assert(is_table(s[j + 1].0, s[j + 1].1));
            }
        }
    }
}

/// Metadata is the same in an object as in an associative array. In an object of a class, the class
/// is noted first. A value of any other kind says nothing.
pub proof fn law_metadata_in_any_object(f: Facts, s: Seq<(Seq<char>, AmfTree)>, class_name: Seq<char>)
    ensures
        call(f, "onMetaData"@, AmfTree::Object(s)) == call(f, "onMetaData"@, AmfTree::EcmaArray(s)),
        call(f, "onMetaData"@, AmfTree::TypedObject { class_name, body: s }) == call(
            Facts {
                entries: f.entries.push(("scriptdata.class"@, Leaf::Text(class_name))),
                ..f
            },
            "onMetaData"@,
            AmfTree::Object(s),
        ),
        forall|v: AmfTree|
            !(v is Object || v is EcmaArray || v is TypedObject) ==> #[trigger] call(
                f,
                "onMetaData"@,
                v,
            ) == f,
{
    let g = Facts {
        entries: f.entries.push(("scriptdata.class"@, Leaf::Text(class_name))),
        ..f
    };
    assert(f.with(Seq::empty()) =~= f);
    assert(g.with(Seq::empty()) =~= g);
    assert(f.with(seq![("scriptdata.class"@, Leaf::Text(class_name))]) =~= g);
}

/// What the metadata in an object leaves: the entries before it and those of each property, in order;
/// the first length that a property `duration` gives, where there was none before; and the first
/// table of keyframes that can be read, where there was none before.
pub proof fn law_metadata_is_taken_in(f: Facts, s: Seq<(Seq<char>, AmfTree)>)
    ensures
        ({
            let g = call(f, "onMetaData"@, AmfTree::Object(s));
            &&& g.entries == f.entries + added(s)
            &&& g.encryption == f.encryption && g.xmp == f.xmp
            &&& f.duration is Some ==> g.duration == f.duration
            &&& f.duration is None && no_length(s) ==> g.duration is None
            &&& forall|i: int|
                f.duration is None && #[trigger] first_length(s, i) ==> g.duration == Some(
                    s[i].1->Number_0,
                )
            &&& f.keyframes is Some ==> g.keyframes == f.keyframes
            &&& forall|i: int|
                f.keyframes is None && 0 <= i < s.len() && is_table((#[trigger] s[i]).0, s[i].1)
                    && keyframes(s[i].1) is Some && (forall|j: int|
                    0 <= j < i && is_table((#[trigger] s[j]).0, s[j].1) ==> keyframes(s[j].1) is None)
                    ==> g.keyframes == keyframes(s[i].1)
            &&& f.keyframes is None && (forall|j: int|
                0 <= j < s.len() && is_table((#[trigger] s[j]).0, s[j].1) ==> keyframes(s[j].1) is None)
                ==> g.keyframes is None
        }),
{
    assert(f.with(Seq::empty()) =~= f);
    lemma_properties(f, s);
}

proof fn lemma_added_holds(s: Seq<(Seq<char>, AmfTree)>, i: int, e: (Seq<char>, Leaf))
    requires
        0 <= i < s.len(),
        !is_table(s[i].0, s[i].1),
        flat(s[i].1, flat_name(s[i].0, s[i].1)).contains(e),
    ensures
        added(s).contains(e),
    decreases s.len(),
{
    let rest = added(s.drop_first());
    let head = if is_table(s[0].0, s[0].1) {
        Seq::empty()
    } else {
        flat(s[0].1, flat_name(s[0].0, s[0].1))
    };
    if i == 0 {
        let k = choose|k: int| 0 <= k < head.len() && head[k] == e;
        assert((head + rest)[k] == e);
    } else {
        assert(s.drop_first()[i - 1] == s[i]);
        lemma_added_holds(s.drop_first(), i - 1, e);
        let k = choose|k: int| 0 <= k < rest.len() && rest[k] == e;
        assert((head + rest)[head.len() + k] == e);
    }
}

/// Each number, truth value and text of the metadata in an object is an entry under its name.
pub proof fn law_scalars_are_entries(f: Facts, s: Seq<(Seq<char>, AmfTree)>, i: int)
    requires
        0 <= i < s.len(),
    ensures
        ({
            let g = call(f, "onMetaData"@, AmfTree::Object(s)).entries;
            &&& s[i].1 matches AmfTree::Number(n) ==> g.contains((s[i].0, Leaf::Number(n)))
            &&& s[i].1 == AmfTree::Boolean(true) ==> g.contains((s[i].0, Leaf::Text("true"@)))
            &&& s[i].1 == AmfTree::Boolean(false) ==> g.contains((s[i].0, Leaf::Text("false"@)))
            &&& s[i].1 matches AmfTree::String(t) ==> g.contains((s[i].0, Leaf::Text(t)))
        }),
{
    law_metadata_is_taken_in(f, s);
    let (name, v) = s[i];
    let e = match v {
        AmfTree::Number(n) => (name, Leaf::Number(n)),
        AmfTree::Boolean(b) => (
            name,
            Leaf::Text(
                if b {
                    "true"@
                } else {
                    "false"@
                },
            ),
        ),
        AmfTree::String(t) => (name, Leaf::Text(t)),
        _ => (name, Leaf::Text(Seq::empty())),
    };
    if v is Number || v is Boolean || v is String {
        assert(flat(v, name)[0] == e);
        lemma_added_holds(s, i, e);
        let a = added(s);
        let k = choose|k: int| 0 <= k < a.len() && a[k] == e;
        assert((f.entries + a)[f.entries.len() + k] == e);
    }
}

// ---- the table of keyframes -------------------------------------------------

proof fn lemma_last_array(s: Seq<(Seq<char>, AmfTree)>, name: Seq<char>)
    ensures
        match last_array(s, name) {
            Some(a) => exists|i: int|
                0 <= i < s.len() && #[trigger] s[i] == (name, AmfTree::StrictArray(a)) && forall|j:
                    int|
                    i < j < s.len() ==> !((#[trigger] s[j]).0 == name && s[j].1 is StrictArray),
            None => forall|j: int|
                0 <= j < s.len() ==> !((#[trigger] s[j]).0 == name && s[j].1 is StrictArray),
        },
    decreases s.len(),
{
    if s.len() > 0 {
        let n = s.len() - 1;
        if s.last().0 == name && s.last().1 is StrictArray {
            assert(s[n] == (name, AmfTree::StrictArray(s.last().1->StrictArray_0)));
        } else {
            let p = s.drop_last();
            lemma_last_array(p, name);
            assert forall|j: int| 0 <= j < p.len() implies #[trigger] p[j] == s[j] by {}
            if let Some(a) = last_array(p, name) {
                let i = choose|i: int|
                    0 <= i < p.len() && #[trigger] p[i] == (name, AmfTree::StrictArray(a))
                        && forall|j: int|
                        i < j < p.len() ==> !((#[trigger] p[j]).0 == name && p[j].1 is StrictArray);
                assert(s[i] == (name, AmfTree::StrictArray(a)));
                assert forall|j: int| i < j < s.len() implies !((#[trigger] s[j]).0 == name
                    && s[j].1 is StrictArray) by {
                    if j < n {
                        assert(p[j] == s[j]);
                    }
                }
            } else {
                assert forall|j: int| 0 <= j < s.len() implies !((#[trigger] s[j]).0 == name
                    && s[j].1 is StrictArray) by {
                    if j < n {
                        assert(p[j] == s[j]);
                    }
                }
            }
        }
    }
}

/// A table of keyframes is the last array `filepositions` and the last array `times` of named values:
/// each place is the integer part of the number that stands where its time does. It is not empty, and
/// its times are finite and in order.
pub proof fn law_table_is_read(s: Seq<(Seq<char>, AmfTree)>, toc: Toc)
    requires
        keyframes(AmfTree::Object(s)) == Some(toc),
    ensures
        keyframes(AmfTree::EcmaArray(s)) == Some(toc),
        toc.times.len() > 0,
        toc.positions.len() == toc.times.len(),
        forall|i: int, j: int|
            0 <= i < j < toc.times.len() ==> (#[trigger] toc.times[i]).rank() <= (#[trigger]
                toc.times[j]).rank(),
        exists|p: int, t: int|
            {
                &&& 0 <= p < s.len() && 0 <= t < s.len()
                &&& s[p].0 == "filepositions"@ && s[t].0 == "times"@
                &&& #[trigger] s[p].1 matches AmfTree::StrictArray(a) && a.len() == toc.times.len()
                    && forall|i: int|
                    0 <= i < a.len() ==> (#[trigger] a[i] matches AmfTree::Number(n) && n.finite()
                        && n.rank() >= 0 && (n.trunc() <= u64::MAX ==> toc.positions[i]
                        == n.trunc()))
                &&& #[trigger] s[t].1 matches AmfTree::StrictArray(b) && b.len() == toc.times.len()
                    && forall|i: int|
                    0 <= i < b.len() ==> #[trigger] b[i] == AmfTree::Number(toc.times[i])
                        && toc.times[i].finite()
                &&& forall|j: int|
                    p < j < s.len() ==> !((#[trigger] s[j]).0 == "filepositions"@
                        && s[j].1 is StrictArray)
                &&& forall|j: int|
                    t < j < s.len() ==> !((#[trigger] s[j]).0 == "times"@ && s[j].1 is StrictArray)
            },
{
    lemma_last_array(s, "filepositions"@);
    lemma_last_array(s, "times"@);
    let a = last_array(s, "filepositions"@)->0;
    let b = last_array(s, "times"@)->0;
    let p = choose|i: int|
        0 <= i < s.len() && #[trigger] s[i] == ("filepositions"@, AmfTree::StrictArray(a))
            && forall|j: int|
            i < j < s.len() ==> !((#[trigger] s[j]).0 == "filepositions"@ && s[j].1 is StrictArray);
    let t = choose|i: int|
        0 <= i < s.len() && #[trigger] s[i] == ("times"@, AmfTree::StrictArray(b)) && forall|j: int|
            i < j < s.len() ==> !((#[trigger] s[j]).0 == "times"@ && s[j].1 is StrictArray);
    assert(crate::demuxer::facts::sound(s[p].0, s[p].1));
    assert(crate::demuxer::facts::sound(s[t].0, s[t].1));
    assert(s[p].1 is StrictArray && s[t].1 is StrictArray);
}

// ---- other scripts ----------------------------------------------------------

/// What a script other than `onMetaData` leaves.
pub proof fn law_other_scripts(f: Facts, v: AmfTree, name: Seq<char>)
    ensures
        ({
            let g = call(f, "onXMPData"@, v);
            &&& g == (Facts { xmp: g.xmp, ..f })
            &&& live_xml(v) is Some ==> g.xmp == live_xml(v)
            &&& live_xml(v) is None ==> g.xmp == f.xmp
        }),
        call(f, "onCuePoint"@, v) == (Facts {
            entries: f.entries + flat(v, "cuepoint."@ + decimal(next_cue(f.entries))),
            ..f
        }),
        call(f, "|AdditionalHeader"@, v) == (Facts { encryption: headline(v), ..f }),
        name != "onMetaData"@ && name != "onXMPData"@ && name != "onCuePoint"@ && name
            != "|AdditionalHeader"@ ==> call(f, name, v) == (Facts {
            entries: f.entries + (seq![("scriptdata.name"@, Leaf::Text(name))] + flat(
                v,
                "scriptdata."@ + name,
            )),
            ..f
        }),
{
    lemma_script_names();
}

proof fn lemma_script_names()
    ensures
        "onXMPData"@ != "onMetaData"@,
        "onCuePoint"@ != "onMetaData"@,
        "onCuePoint"@ != "onXMPData"@,
        "|AdditionalHeader"@ != "onMetaData"@,
        "|AdditionalHeader"@ != "onXMPData"@,
        "|AdditionalHeader"@ != "onCuePoint"@,
{
    reveal_strlit("onMetaData");
    reveal_strlit("onXMPData");
    reveal_strlit("onCuePoint");
    reveal_strlit("|AdditionalHeader");
    assert("onXMPData"@.len() == 9 && "onMetaData"@.len() == 10 && "onCuePoint"@.len() == 10
        && "|AdditionalHeader"@.len() == 17);
    assert("onCuePoint"@[2] != "onMetaData"@[2]);
}

/// The XMP packet is a text or XML, or the first text or XML called `liveXML` in an object of any
/// kind.
pub proof fn law_xmp_is_live_xml(s: Seq<(Seq<char>, AmfTree)>, t: Seq<char>, i: int, class_name: Seq<char>)
    ensures
        live_xml(AmfTree::String(t)) == Some(t),
        live_xml(AmfTree::Xml(t)) == Some(t),
        live_xml(AmfTree::Object(s)) == live_xml(AmfTree::EcmaArray(s)),
        live_xml(AmfTree::Object(s)) == live_xml(AmfTree::TypedObject { class_name, body: s }),
        0 <= i < s.len() && s[i].0 == "liveXML"@ && (s[i].1 == AmfTree::String(t) || s[i].1
            == AmfTree::Xml(t)) && (forall|j: int|
            0 <= j < i && (#[trigger] s[j]).0 == "liveXML"@ ==> !(s[j].1 is String || s[j].1 is Xml))
            ==> live_xml(AmfTree::Object(s)) == Some(t),
        (forall|j: int|
            0 <= j < s.len() && (#[trigger] s[j]).0 == "liveXML"@ ==> !(s[j].1 is String
                || s[j].1 is Xml)) ==> live_xml(AmfTree::Object(s)) is None,
    decreases s.len(),
{
    if s.len() > 0 {
        let rest = s.drop_first();
        law_xmp_is_live_xml(rest, t, i - 1, class_name);
        assert forall|j: int| 0 <= j < rest.len() implies #[trigger] rest[j] == s[j + 1] by {}
        if 0 < i < s.len() {
            assert(rest[i - 1] == s[i]);
            if forall|j: int|
                0 <= j < i && (#[trigger] s[j]).0 == "liveXML"@ ==> !(s[j].1 is String
                    || s[j].1 is Xml) {
                assert(s[0].0 == "liveXML"@ ==> !(s[0].1 is String || s[0].1 is Xml));
                assert forall|j: int| 0 <= j < i - 1 && (#[trigger] rest[j]).0
                    == "liveXML"@ implies !(rest[j].1 is String || rest[j].1 is Xml) by {
                    assert(s[j + 1].0 == "liveXML"@);
                }
            }
        }
        if forall|j: int|
            0 <= j < s.len() && (#[trigger] s[j]).0 == "liveXML"@ ==> !(s[j].1 is String
                || s[j].1 is Xml) {
            assert(s[0].0 == "liveXML"@ ==> !(s[0].1 is String || s[0].1 is Xml));
            assert forall|j: int| 0 <= j < rest.len() && (#[trigger] rest[j]).0
                == "liveXML"@ implies !(rest[j].1 is String || rest[j].1 is Xml) by {
                assert(s[j + 1].0 == "liveXML"@);
            }
        }
    }
}

/// A script tag is a name, which must be a string, and a value behind it. A body that is not that says
/// nothing.
pub proof fn law_script_is_a_call(f: Facts, body: Seq<u8>)
    ensures
        match value(body, 0) {
            Ok((AmfTree::String(name), p)) => match value(body, p) {
                Ok((v, q)) => script(f, body) == call(f, name, v),
                Err(_) => script(f, body) == f,
            },
            _ => script(f, body) == f,
        },
{
}

} // verus!

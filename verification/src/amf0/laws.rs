//! How reading and writing AMF0 fit together.
use vstd::prelude::*;
use vstd::utf8::*;
use crate::amf0::decode::{avm_plus, body, items, long_text, short_text, signed16, utf8_run, value};
use crate::amf0::encode::{emit_boolean, emit_date, emit_name, emit_null, emit_number, emit_numbers,
    emit_object_end, emit_string, emit_strings, emit_undefined, emit_xml, unsigned16};
use crate::amf0::AmfTree;
use crate::amf3::encode::emit_message;
use crate::amf3::laws::{canon, law_read_written};
use crate::amf3::Amf3Tree;
use crate::double::Double;
use crate::error::Fault;
use crate::text::lemma_utf8_empty;
use crate::wire::{at, be16, be32, be64, lemma_at_extend, lemma_at_index, lemma_at_split, lemma_at_tail, lemma_be16_at,
    lemma_be32_at, lemma_be64_at, lemma_be64_len, u16_at};

verus! {

/// One run of bytes behind another, where there are both.
pub open spec fn cat(a: Option<Seq<u8>>, b: Option<Seq<u8>>) -> Option<Seq<u8>> {
    match (a, b) {
        (Some(x), Some(y)) => Some(x + y),
        _ => None,
    }
}

/// A property name as bytes.
pub open spec fn wire_name(s: Seq<char>) -> Option<Seq<u8>> {
    if encode_utf8(s).len() > 0xFFFF {
        None
    } else {
        Some(be16(encode_utf8(s).len() as u16) + encode_utf8(s))
    }
}

/// The bytes of a value that holds no other AMF0 values, where there are any.
#[verifier::opaque]
pub open spec fn wire_leaf(v: AmfTree) -> Option<Seq<u8>> {
    match v {
        AmfTree::Number(n) => Some(seq![0x00u8] + be64(n.bits)),
        AmfTree::Boolean(b) => Some(
            seq![
                0x01u8,
                if b {
                    1u8
                } else {
                    0u8
                },
            ],
        ),
        AmfTree::String(s) => cat(Some(seq![0x02u8]), wire_name(s)),
        AmfTree::Null => Some(seq![0x05u8]),
        AmfTree::Undefined => Some(seq![0x06u8]),
        AmfTree::Reference(i) => Some(seq![0x07u8] + be16(i)),
        AmfTree::Date { time_ms, tz } => Some(
            seq![0x0Bu8] + be64(time_ms.bits) + be16(unsigned16(tz)),
        ),
        AmfTree::Unsupported => Some(seq![0x0Du8]),
        AmfTree::Xml(s) => if encode_utf8(s).len() > 0xFFFF_FFFF {
            None
        } else {
            Some(seq![0x0Fu8] + be32(encode_utf8(s).len() as u32) + encode_utf8(s))
        },
        AmfTree::AvmPlus(w) => if emit_message(w).fault is None && canon(w) == w {
            Some(seq![0x11u8] + emit_message(w).bytes)
        } else {
            None
        },
        _ => None,
    }
}

/// Named values between what opens an object and what closes it.
#[verifier::opaque]
pub open spec fn framed(open: Option<Seq<u8>>, pairs: Option<Seq<u8>>) -> Option<Seq<u8>> {
    cat(open, cat(pairs, Some(emit_object_end().bytes)))
}

/// What opens an associative array of `count` values.
pub open spec fn ecma_head(count: u32) -> Option<Seq<u8>> {
    Some(seq![0x08u8] + be32(count))
}

/// What opens an array of `count` values.
#[verifier::opaque]
pub open spec fn strict_head(count: nat) -> Option<Seq<u8>> {
    if count > 0xFFFF_FFFF {
        None
    } else {
        Some(seq![0x0Au8] + be32(count as u32))
    }
}

/// The bytes that stand for a value, where there are any.
pub open spec fn wire(v: AmfTree) -> Option<Seq<u8>>
    decreases v,
{
    match v {
        AmfTree::Object(b) => framed(Some(seq![0x03u8]), wire_pairs(b)),
        AmfTree::EcmaArray(b) => framed(
            ecma_head((b.len() % 0x1_0000_0000) as u32),
            wire_pairs(b),
        ),
        AmfTree::StrictArray(a) => cat(strict_head(a.len()), wire_items(a)),
        AmfTree::TypedObject { class_name, body } => framed(
            cat(Some(seq![0x10u8]), wire_name(class_name)),
            wire_pairs(body),
        ),
        _ => wire_leaf(v),
    }
}

/// The bytes of a run of values.
pub open spec fn wire_items(s: Seq<AmfTree>) -> Option<Seq<u8>>
    decreases s,
{
    if s.len() == 0 {
        Some(Seq::empty())
    } else {
        cat(wire(s[0]), wire_items(s.drop_first()))
    }
}

/// The bytes of a run of named values.
pub open spec fn wire_pairs(s: Seq<(Seq<char>, AmfTree)>) -> Option<Seq<u8>>
    decreases s,
{
    if s.len() == 0 {
        Some(Seq::empty())
    } else {
        cat(cat(wire_name(s[0].0), wire(s[0].1)), wire_pairs(s.drop_first()))
    }
}

/// What a read gives for the bytes of `v` at `pos`.
pub open spec fn back(v: AmfTree, pos: int) -> Result<(AmfTree, int), Fault> {
    Ok((v, pos + wire(v)->0.len()))
}

proof fn lemma_utf8_back(data: Seq<u8>, pos: int, s: Seq<char>)
    requires
        at(data, pos, encode_utf8(s)),
    ensures
        utf8_run(data, pos, encode_utf8(s).len() as int) == Ok::<(Seq<char>, int), Fault>(
            (s, pos + encode_utf8(s).len()),
        ),
{
    encode_utf8_valid_utf8(s);
    encode_utf8_decode_utf8(s);
}

proof fn lemma_name_back(data: Seq<u8>, pos: int, s: Seq<char>)
    requires
        wire_name(s) is Some,
        at(data, pos, wire_name(s)->0),
    ensures
        short_text(data, pos) == Ok::<(Seq<char>, int), Fault>((s, pos + wire_name(s)->0.len())),
        u16_at(data, pos) == encode_utf8(s).len(),
{
    let n = encode_utf8(s).len() as u16;
    lemma_at_split(data, pos, be16(n), encode_utf8(s));
    lemma_be16_at(data, pos, n);
    lemma_utf8_back(data, pos + 2, s);
}

proof fn lemma_long_back(data: Seq<u8>, pos: int, s: Seq<char>)
    requires
        encode_utf8(s).len() <= 0xFFFF_FFFF,
        at(data, pos, be32(encode_utf8(s).len() as u32) + encode_utf8(s)),
    ensures
        long_text(data, pos) == Ok::<(Seq<char>, int), Fault>((s, pos + 4 + encode_utf8(s).len())),
{
    let n = encode_utf8(s).len() as u32;
    lemma_at_split(data, pos, be32(n), encode_utf8(s));
    lemma_be32_at(data, pos, n);
    lemma_utf8_back(data, pos + 4, s);
}

/// No value starts with the marker that ends an object.
proof fn lemma_marker(v: AmfTree)
    requires
        wire(v) is Some,
    ensures
        wire(v)->0.len() > 0,
        wire(v)->0[0] != 0x09,
{
    reveal(wire_leaf);
    reveal(framed);
    reveal(strict_head);
}

proof fn lemma_number_back(data: Seq<u8>, pos: int, n: Double)
    requires
        at(data, pos, seq![0x00u8] + be64(n.bits)),
    ensures
        value(data, pos) == Ok::<(AmfTree, int), Fault>((AmfTree::Number(n), pos + 9)),
{
    broadcast use lemma_be64_len;

    lemma_at_index(data, pos, seq![0x00u8] + be64(n.bits), 0);
    lemma_at_split(data, pos, seq![0x00u8], be64(n.bits));
    lemma_be64_at(data, pos + 1, n.bits);
}

proof fn lemma_date_back(data: Seq<u8>, pos: int, time_ms: Double, tz: i16)
    requires
        at(data, pos, seq![0x0Bu8] + be64(time_ms.bits) + be16(unsigned16(tz))),
    ensures
        value(data, pos) == Ok::<(AmfTree, int), Fault>((AmfTree::Date { time_ms, tz }, pos + 11)),
{
    broadcast use lemma_be64_len;

    let u = unsigned16(tz);
    let head = seq![0x0Bu8] + be64(time_ms.bits);
    lemma_at_split(data, pos, head, be16(u));
    lemma_at_index(data, pos, head, 0);
    lemma_at_split(data, pos, seq![0x0Bu8], be64(time_ms.bits));
    lemma_be64_at(data, pos + 1, time_ms.bits);
    lemma_be16_at(data, pos + 9, u);
    assert(signed16(u) == tz);
}

/// Values that hold no other values.
proof fn lemma_leaf_back(data: Seq<u8>, pos: int, v: AmfTree)
    requires
        wire(v) is Some,
        at(data, pos, wire(v)->0),
        v is Number || v is Boolean || v is Null || v is Undefined || v is Reference || v is Date
            || v is Unsupported,
    ensures
        value(data, pos) == back(v, pos),
{
    broadcast use lemma_be64_len;

    reveal(wire_leaf);
    let b = wire(v)->0;
    match v {
        AmfTree::Number(n) => {
            lemma_number_back(data, pos, n);
        },
        AmfTree::Date { time_ms, tz } => {
            lemma_date_back(data, pos, time_ms, tz);
        },
        AmfTree::Boolean(x) => {
            lemma_at_index(data, pos, b, 0);
            lemma_at_index(data, pos, b, 1);
        },
        AmfTree::Reference(i) => {
            lemma_at_index(data, pos, b, 0);
            lemma_at_split(data, pos, seq![0x07u8], be16(i));
            lemma_be16_at(data, pos + 1, i);
        },
        _ => {
            lemma_at_index(data, pos, b, 0);
        },
    }
}

proof fn lemma_text_back(data: Seq<u8>, pos: int, v: AmfTree)
    requires
        wire(v) is Some,
        at(data, pos, wire(v)->0),
        v is String || v is Xml,
    ensures
        value(data, pos) == back(v, pos),
{
    reveal(wire_leaf);
    lemma_at_index(data, pos, wire(v)->0, 0);
    match v {
        AmfTree::String(s) => {
            lemma_at_split(data, pos, seq![0x02u8], wire_name(s)->0);
            lemma_name_back(data, pos + 1, s);
        },
        AmfTree::Xml(s) => {
            let n = encode_utf8(s).len() as u32;
            assert(seq![0x0Fu8] + be32(n) + encode_utf8(s) =~= seq![0x0Fu8] + (be32(n)
                + encode_utf8(s)));
            lemma_at_split(data, pos, seq![0x0Fu8], be32(n) + encode_utf8(s));
            lemma_long_back(data, pos + 1, s);
        },
        _ => {},
    }
}

proof fn lemma_amf3_back(data: Seq<u8>, pos: int, w: Amf3Tree)
    requires
        emit_message(w).fault is None,
        canon(w) == w,
        at(data, pos, emit_message(w).bytes),
    ensures
        avm_plus(data, pos) == Ok::<(AmfTree, int), Fault>(
            (AmfTree::AvmPlus(w), pos + emit_message(w).bytes.len()),
        ),
{
    reveal(avm_plus);
    law_read_written(data, pos, w);
}

proof fn lemma_avm_plus_back(data: Seq<u8>, pos: int, w: Amf3Tree, m: Seq<u8>)
    requires
        avm_plus(data, pos + 1) == Ok::<(AmfTree, int), Fault>(
            (AmfTree::AvmPlus(w), pos + 1 + m.len()),
        ),
        at(data, pos, seq![0x11u8] + m),
    ensures
        value(data, pos) == Ok::<(AmfTree, int), Fault>(
            (AmfTree::AvmPlus(w), pos + 1 + m.len()),
        ),
{
    lemma_at_index(data, pos, seq![0x11u8] + m, 0);
}

/// The bytes of a value read back as the value, and reading stops behind the last of them.
pub proof fn law_read_wire(data: Seq<u8>, pos: int, v: AmfTree)
    requires
        wire(v) is Some,
        at(data, pos, wire(v)->0),
    ensures
        value(data, pos) == back(v, pos),
    decreases v, 3int,
{
    match v {
        AmfTree::Object(ps) => {
            lemma_object_back(data, pos, ps);
        },
        AmfTree::EcmaArray(ps) => {
            reveal(framed);
            law_ecma_count_is_a_hint(data, pos, ps, (ps.len() % 0x1_0000_0000) as u32);
        },
        AmfTree::StrictArray(a) => {
            lemma_strict_array_back(data, pos, a);
        },
        AmfTree::TypedObject { class_name, body } => {
            lemma_typed_object_back(data, pos, class_name, body);
        },
        AmfTree::AvmPlus(w) => {
            reveal(wire_leaf);
            let m = emit_message(w).bytes;
            lemma_at_split(data, pos, seq![0x11u8], m);
            lemma_amf3_back(data, pos + 1, w);
            lemma_avm_plus_back(data, pos, w, m);
        },
        AmfTree::String(_) => {
            lemma_text_back(data, pos, v);
        },
        AmfTree::Xml(_) => {
            lemma_text_back(data, pos, v);
        },
        _ => {
            lemma_leaf_back(data, pos, v);
        },
    }
}

proof fn lemma_object_back(data: Seq<u8>, pos: int, ps: Seq<(Seq<char>, AmfTree)>)
    requires
        wire(AmfTree::Object(ps)) is Some,
        at(data, pos, wire(AmfTree::Object(ps))->0),
    ensures
        value(data, pos) == back(AmfTree::Object(ps), pos),
    decreases ps, 1int,
{
    reveal(framed);
    let tail = wire_pairs(ps)->0 + emit_object_end().bytes;
    lemma_at_index(data, pos, seq![0x03u8] + tail, 0);
    lemma_at_split(data, pos, seq![0x03u8], tail);
    lemma_body_back(data, pos + 1, ps);
}

proof fn lemma_typed_object_back(
    data: Seq<u8>,
    pos: int,
    class_name: Seq<char>,
    ps: Seq<(Seq<char>, AmfTree)>,
)
    requires
        wire(AmfTree::TypedObject { class_name, body: ps }) is Some,
        at(data, pos, wire(AmfTree::TypedObject { class_name, body: ps })->0),
    ensures
        value(data, pos) == back(AmfTree::TypedObject { class_name, body: ps }, pos),
    decreases ps, 1int,
{
    reveal(framed);
    let name = wire_name(class_name)->0;
    let head = seq![0x10u8] + name;
    let tail = wire_pairs(ps)->0 + emit_object_end().bytes;
    lemma_at_index(data, pos, head + tail, 0);
    lemma_at_split(data, pos, head, tail);
    lemma_at_split(data, pos, seq![0x10u8], name);
    lemma_name_back(data, pos + 1, class_name);
    lemma_body_back(data, pos + head.len(), ps);
}

proof fn lemma_strict_array_back(data: Seq<u8>, pos: int, a: Seq<AmfTree>)
    requires
        wire(AmfTree::StrictArray(a)) is Some,
        at(data, pos, wire(AmfTree::StrictArray(a))->0),
    ensures
        value(data, pos) == back(AmfTree::StrictArray(a), pos),
    decreases a, 1int,
{
    reveal(strict_head);
    let n = a.len() as u32;
    let head = seq![0x0Au8] + be32(n);
    lemma_at_split(data, pos, head, wire_items(a)->0);
    lemma_at_index(data, pos, head, 0);
    lemma_at_split(data, pos, seq![0x0Au8], be32(n));
    lemma_be32_at(data, pos + 1, n);
    lemma_items_back(data, pos + 5, a);
}

proof fn lemma_items_back(data: Seq<u8>, pos: int, s: Seq<AmfTree>)
    requires
        0 <= pos <= data.len(),
        wire_items(s) is Some,
        at(data, pos, wire_items(s)->0),
    ensures
        items(data, pos, s.len() as int) == Ok::<(Seq<AmfTree>, int), Fault>(
            (s, pos + wire_items(s)->0.len()),
        ),
    decreases s, 0int,
{
    if s.len() == 0 {
        assert(s =~= Seq::empty());
    } else {
        let a = wire(s[0])->0;
        lemma_at_split(data, pos, a, wire_items(s.drop_first())->0);
        law_read_wire(data, pos, s[0]);
        lemma_marker(s[0]);
        lemma_items_back(data, pos + a.len(), s.drop_first());
        assert(seq![s[0]] + s.drop_first() =~= s);
    }
}

/// Named values read back, whatever the kind of object they stand in.
pub proof fn lemma_body_back(data: Seq<u8>, pos: int, s: Seq<(Seq<char>, AmfTree)>)
    requires
        wire_pairs(s) is Some,
        at(data, pos, wire_pairs(s)->0 + emit_object_end().bytes),
    ensures
        body(data, pos) == Ok::<(Seq<(Seq<char>, AmfTree)>, int), Fault>(
            (s, pos + wire_pairs(s)->0.len() + 3),
        ),
    decreases s, 0int,
{
    let end = emit_object_end().bytes;
    if s.len() == 0 {
        assert(Seq::<u8>::empty() + end =~= end);
        lemma_at_index(data, pos, end, 0);
        lemma_at_index(data, pos, end, 1);
        lemma_at_index(data, pos, end, 2);
        assert(s =~= Seq::empty());
    } else {
        let k = wire_name(s[0].0)->0;
        let v = wire(s[0].1)->0;
        let rest = wire_pairs(s.drop_first())->0;
        assert(wire_pairs(s)->0 + end =~= k + (v + (rest + end)));
        lemma_at_split(data, pos, k, v + (rest + end));
        lemma_at_split(data, pos + k.len(), v, rest + end);
        lemma_name_back(data, pos, s[0].0);
        law_read_wire(data, pos + k.len(), s[0].1);
        lemma_marker(s[0].1);
        lemma_at_index(data, pos + k.len(), v, 0);
        lemma_utf8_empty(s[0].0);
        lemma_body_back(data, pos + k.len() + v.len(), s.drop_first());
        assert(seq![s[0]] + s.drop_first() =~= s);
    }
}

/// The count before an associative array is a hint: any other gives the same value.
pub proof fn law_ecma_count_is_a_hint(data: Seq<u8>, pos: int, s: Seq<(Seq<char>, AmfTree)>, count: u32)
    requires
        wire_pairs(s) is Some,
        at(data, pos, framed(ecma_head(count), wire_pairs(s))->0),
    ensures
        value(data, pos) == back(AmfTree::EcmaArray(s), pos),
    decreases s, 1int,
{
    reveal(framed);
    let head = seq![0x08u8] + be32(count);
    let tail = wire_pairs(s)->0 + emit_object_end().bytes;
    lemma_at_index(data, pos, head + tail, 0);
    lemma_at_split(data, pos, head, tail);
    lemma_body_back(data, pos + 5, s);
}

/// A value appended to a buffer reads back from where the buffer ended before.
pub proof fn law_read_appended(before: Seq<u8>, v: AmfTree, behind: Seq<u8>)
    requires
        wire(v) is Some,
    ensures
        value(before + wire(v)->0 + behind, before.len() as int) == back(v, before.len() as int),
{
    let b = wire(v)->0;
    lemma_at_tail(before, b);
    lemma_at_extend(before + b, before.len() as int, b, behind);
    law_read_wire(before + b + behind, before.len() as int, v);
}

/// Two values, one behind the other, read back one behind the other.
pub proof fn law_read_two(a: AmfTree, b: AmfTree, behind: Seq<u8>)
    requires
        wire(a) is Some,
        wire(b) is Some,
    ensures
        value(wire(a)->0 + wire(b)->0 + behind, 0) == back(a, 0),
        value(wire(a)->0 + wire(b)->0 + behind, wire(a)->0.len() as int) == back(
            b,
            wire(a)->0.len() as int,
        ),
{
    let x = wire(a)->0;
    let y = wire(b)->0;
    let data = x + y + behind;
    assert(data.subrange(0, x.len() as int) =~= x);
    assert(data.subrange(x.len() as int, (x.len() + y.len()) as int) =~= y);
    law_read_wire(data, 0, a);
    law_read_wire(data, x.len() as int, b);
}

/// A string that names a value, and the value behind it, read back.
pub proof fn law_read_named(name: Seq<char>, v: AmfTree, bytes: Seq<u8>, behind: Seq<u8>)
    requires
        emit_string(name).fault is None,
        wire(v) == Some(bytes),
    ensures
        ({
            let data = emit_string(name).bytes + bytes + behind;
            let mid = emit_string(name).bytes.len() as int;
            &&& value(data, 0) == Ok::<(AmfTree, int), Fault>((AmfTree::String(name), mid))
            &&& value(data, mid) == Ok::<(AmfTree, int), Fault>((v, mid + bytes.len()))
        }),
{
    reveal(wire_leaf);
    law_read_two(AmfTree::String(name), v, behind);
}

/// The scalar writers append the bytes of the value that they are given.
pub proof fn law_writers_write_wire(n: Double, b: bool, s: Seq<char>, tz: i16)
    ensures
        wire(AmfTree::Number(n)) == Some(emit_number(n).bytes),
        wire(AmfTree::Boolean(b)) == Some(emit_boolean(b).bytes),
        emit_string(s).fault is None ==> wire(AmfTree::String(s)) == Some(emit_string(s).bytes),
        wire(AmfTree::Null) == Some(emit_null().bytes),
        wire(AmfTree::Undefined) == Some(emit_undefined().bytes),
        wire(AmfTree::Date { time_ms: n, tz }) == Some(emit_date(n, tz).bytes),
        emit_xml(s).fault is None ==> wire(AmfTree::Xml(s)) == Some(emit_xml(s).bytes),
        emit_name(s).fault is None ==> wire_name(s) == Some(emit_name(s).bytes),
{
    reveal(wire_leaf);
}

/// A value behind others.
pub proof fn lemma_wire_items_push(s: Seq<AmfTree>, v: AmfTree)
    ensures
        wire_items(s.push(v)) == cat(wire_items(s), wire(v)),
    decreases s.len(),
{
    if s.len() == 0 {
        assert(s.push(v).drop_first() =~= Seq::empty());
        assert(wire_items(Seq::empty()) == Some(Seq::<u8>::empty()));
        if let Some(b) = wire(v) {
            assert(b + Seq::<u8>::empty() =~= b);
            assert(Seq::<u8>::empty() + b =~= b);
        }
    } else {
        lemma_wire_items_push(s.drop_first(), v);
        assert(s.push(v).drop_first() =~= s.drop_first().push(v));
        if let (Some(a), Some(b), Some(c)) = (wire(s[0]), wire_items(s.drop_first()), wire(v)) {
            assert(a + (b + c) =~= (a + b) + c);
        }
    }
}

/// A named value behind others.
pub proof fn lemma_wire_pairs_push(s: Seq<(Seq<char>, AmfTree)>, k: Seq<char>, v: AmfTree)
    ensures
        wire_pairs(s.push((k, v))) == cat(wire_pairs(s), cat(wire_name(k), wire(v))),
    decreases s.len(),
{
    if s.len() == 0 {
        assert(s.push((k, v)).drop_first() =~= Seq::empty());
        assert(wire_pairs(Seq::empty()) == Some(Seq::<u8>::empty()));
        if let Some(b) = cat(wire_name(k), wire(v)) {
            assert(b + Seq::<u8>::empty() =~= b);
            assert(Seq::<u8>::empty() + b =~= b);
        }
    } else {
        lemma_wire_pairs_push(s.drop_first(), k, v);
        assert(s.push((k, v)).drop_first() =~= s.drop_first().push((k, v)));
        if let (Some(a), Some(b), Some(c)) = (
            cat(wire_name(s[0].0), wire(s[0].1)),
            wire_pairs(s.drop_first()),
            cat(wire_name(k), wire(v)),
        ) {
            assert(a + (b + c) =~= (a + b) + c);
        }
    }
}

/// The numbers of an array as values.
pub open spec fn number_items(s: Seq<Double>) -> Seq<AmfTree> {
    Seq::new(s.len(), |i: int| AmfTree::Number(s[i]))
}

/// The strings of an array as values.
pub open spec fn string_items(s: Seq<Seq<char>>) -> Seq<AmfTree> {
    Seq::new(s.len(), |i: int| AmfTree::String(s[i]))
}

/// An array of numbers is written as the bytes of its values.
pub proof fn lemma_numbers_wire(s: Seq<Double>)
    ensures
        emit_numbers(s).fault is None,
        wire_items(number_items(s)) == Some(emit_numbers(s).bytes),
    decreases s.len(),
{
    if s.len() == 0 {
        assert(number_items(s) =~= Seq::empty());
    } else {
        reveal(wire_leaf);
        lemma_numbers_wire(s.drop_last());
        assert(number_items(s) =~= number_items(s.drop_last()).push(AmfTree::Number(s.last())));
        lemma_wire_items_push(number_items(s.drop_last()), AmfTree::Number(s.last()));
    }
}

/// An array of strings is written as the bytes of its values.
pub proof fn lemma_strings_wire(s: Seq<Seq<char>>)
    requires
        emit_strings(s).fault is None,
    ensures
        wire_items(string_items(s)) == Some(emit_strings(s).bytes),
    decreases s.len(),
{
    if s.len() == 0 {
        assert(string_items(s) =~= Seq::empty());
    } else {
        reveal(wire_leaf);
        lemma_strings_wire(s.drop_last());
        assert(string_items(s) =~= string_items(s.drop_last()).push(AmfTree::String(s.last())));
        lemma_wire_items_push(string_items(s.drop_last()), AmfTree::String(s.last()));
    }
}

} // verus!

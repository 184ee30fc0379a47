//! AMF3, told by its bytes: what can be read, what cannot, and what is written.
use vstd::prelude::*;
use vstd::utf8::*;
use crate::amf0::bytes::{big_endian, law_numbers_by_bytes};
use crate::amf3::decode::{items, lemma_items_advance, lemma_pairs_advance, lemma_text_advances,
    lemma_traits_advance, lemma_u29_bounds, lemma_value_advances, pairs, text, texts, traits, u29,
    value, Tables, Traits};
use crate::amf3::encode::{emit_array, emit_items, emit_message, emit_object, emit_pairs, emit_text,
    emit_texts, emit_value, length_bytes, lookup, u29_bytes, Emit3};
use crate::amf3::references::of_kind;
use crate::amf3::Amf3Tree;
use crate::double::Double;
use crate::error::Fault;
use crate::wire::be64;

verus! {

/// A number by its bytes, in full: up to three bytes of seven bits with the upper bit set, and one more
/// without it, or a fourth of eight bits. A number that the input does not hold in full is cut short.
pub proof fn law_number_in_full(data: Seq<u8>, pos: int)
    requires
        0 <= pos,
    ensures
        ({
            let cut = Err::<(int, int), Fault>(Fault::Amf3TruncatedValue);
            let n = data.len();
            &&& pos >= n ==> u29(data, pos) == cut
            &&& pos < n && data[pos] < 128 ==> u29(data, pos) == Ok::<(int, int), Fault>(
                (data[pos] as int, pos + 1),
            )
            &&& pos < n && data[pos] >= 128 ==> {
                &&& pos + 1 >= n ==> u29(data, pos) == cut
                &&& pos + 1 < n && data[pos + 1] < 128 ==> u29(data, pos) == Ok::<(int, int), Fault>(
                    (data[pos] % 128 * 128 + data[pos + 1], pos + 2),
                )
                &&& pos + 1 < n && data[pos + 1] >= 128 ==> {
                    &&& pos + 2 >= n ==> u29(data, pos) == cut
                    &&& pos + 2 < n && data[pos + 2] < 128 ==> u29(data, pos) == Ok::<
                        (int, int),
                        Fault,
                    >(
                        (
                            data[pos] % 128 * 16384 + data[pos + 1] % 128 * 128 + data[pos + 2],
                            pos + 3,
                        ),
                    )
                    &&& pos + 2 < n && data[pos + 2] >= 128 ==> {
                        &&& pos + 3 >= n ==> u29(data, pos) == cut
                        &&& pos + 3 < n ==> u29(data, pos) == Ok::<(int, int), Fault>(
                            (
                                data[pos] % 128 * 4194304 + data[pos + 1] % 128 * 32768 + data[pos
                                    + 2] % 128 * 256 + data[pos + 3],
                                pos + 4,
                            ),
                        )
                    }
                }
            }
        }),
{
}

/// What makes a value unreadable: the input ends, or the number behind the marker cannot be read.
pub proof fn law_values_are_cut_short(data: Seq<u8>, pos: int, t: Tables)
    requires
        0 <= pos,
    ensures
        pos >= data.len() ==> value(data, pos, t) == Err::<(Amf3Tree, int, Tables), Fault>(
            Fault::Amf3TruncatedValue,
        ),
        pos < data.len() && data[pos] == 5 && pos + 9 > data.len() ==> value(data, pos, t) == Err::<
            (Amf3Tree, int, Tables),
            Fault,
        >(Fault::Amf3TruncatedDouble),
        pos < data.len() && data[pos] == 5 && pos + 9 <= data.len() ==> value(data, pos, t) == Ok::<
            (Amf3Tree, int, Tables),
            Fault,
        >(
            (
                Amf3Tree::Double(Double { bits: big_endian(data, pos + 1, 8) as u64 }),
                pos + 9,
                t,
            ),
        ),
        pos < data.len() && (data[pos] == 4 || 6 <= data[pos] <= 12) ==> (u29(
            data,
            pos + 1,
        ) matches Err(f) ==> value(data, pos, t) == Err::<(Amf3Tree, int, Tables), Fault>(f)),
{
    law_numbers_by_bytes(data, pos + 1, 0, 0, 0);
}

/// A string: a number whose lowest bit is clear counts to one that was read before; else the rest of the
/// number is its size in bytes, and it is entered unless it is empty.
pub proof fn law_strings_in_full(data: Seq<u8>, pos: int, t: Tables)
    ensures
        match u29(data, pos) {
            Err(f) => text(data, pos, t) == Err::<(Seq<char>, int, Tables), Fault>(f),
            Ok((u, p)) => {
                let run = data.subrange(p, p + u / 2);
                &&& u % 2 == 0 && u / 2 < t.strings.len() ==> text(data, pos, t) == Ok::<
                    (Seq<char>, int, Tables),
                    Fault,
                >((t.strings[u / 2], p, t))
                &&& u % 2 == 0 && u / 2 >= t.strings.len() ==> text(data, pos, t) == Err::<
                    (Seq<char>, int, Tables),
                    Fault,
                >(Fault::Amf3StringRefOutOfRange)
                &&& u % 2 == 1 && p + u / 2 > data.len() ==> text(data, pos, t) == Err::<
                    (Seq<char>, int, Tables),
                    Fault,
                >(Fault::Amf3TruncatedText)
                &&& u % 2 == 1 && p + u / 2 <= data.len() && !valid_utf8(run) ==> text(data, pos, t)
                    == Err::<(Seq<char>, int, Tables), Fault>(Fault::Amf3TextNotUtf8)
                &&& u % 2 == 1 && p + u / 2 <= data.len() && valid_utf8(run) ==> (text(
                    data,
                    pos,
                    t,
                ) matches Ok((s, q, t1)) && s == decode_utf8(run) && q == p + u / 2 && t1.objects
                    == t.objects && t1.traits == t.traits && t1.strings == (if s.len() == 0 {
                    t.strings
                } else {
                    t.strings.push(s)
                }))
            },
        },
        0 <= pos < data.len() && data[pos] == 6 ==> (match text(data, pos + 1, t) {
            Err(f) => value(data, pos, t) == Err::<(Amf3Tree, int, Tables), Fault>(f),
            Ok((s, p, t1)) => value(data, pos, t) == Ok::<(Amf3Tree, int, Tables), Fault>(
                (Amf3Tree::String(s), p, t1),
            ),
        }),
{
}

/// References that count to nothing, or to a value of another kind, by the marker before them.
pub proof fn law_wrong_references(data: Seq<u8>, pos: int, t: Tables)
    requires
        0 <= pos < data.len(),
        7 <= data[pos] <= 12,
        u29(data, pos + 1) matches Ok((u, p)) && u % 2 == 0,
    ensures
        ({
            let i = u29(data, pos + 1)->Ok_0.0 / 2;
            let m = data[pos];
            &&& i >= t.objects.len() ==> value(data, pos, t) == Err::<(Amf3Tree, int, Tables), Fault>(
                if m == 8 {
                    Fault::Amf3DateRefOutOfRange
                } else if m == 9 {
                    Fault::Amf3ArrayRefOutOfRange
                } else if m == 12 {
                    Fault::Amf3BytesRefOutOfRange
                } else {
                    Fault::Amf3ObjectRefOutOfRange
                },
            )
            &&& i < t.objects.len() && !of_kind(m, t.objects[i]) ==> value(data, pos, t) == Err::<
                (Amf3Tree, int, Tables),
                Fault,
            >(
                if m == 8 {
                    Fault::Amf3DateRefWrongType
                } else if m == 9 {
                    Fault::Amf3ArrayRefWrongType
                } else if m == 12 {
                    Fault::Amf3BytesRefWrongType
                } else {
                    Fault::Amf3ObjectRefWrongType
                },
            )
        }),
{
}

/// Texts, times and bytes that are not there in full, or are no UTF-8.
pub proof fn law_whole_values_cut_short(data: Seq<u8>, pos: int, t: Tables)
    requires
        0 <= pos < data.len(),
        u29(data, pos + 1) matches Ok((u, p)) && u % 2 == 1,
    ensures
        ({
            let (u, p) = u29(data, pos + 1)->Ok_0;
            let end = p + u / 2;
            let m = data[pos];
            &&& (m == 7 || m == 11) && end > data.len() ==> value(data, pos, t) == Err::<
                (Amf3Tree, int, Tables),
                Fault,
            >(Fault::Amf3TruncatedText)
            &&& (m == 7 || m == 11) && end <= data.len() && !valid_utf8(data.subrange(p, end))
                ==> value(data, pos, t) == Err::<(Amf3Tree, int, Tables), Fault>(
                Fault::Amf3TextNotUtf8,
            )
            &&& m == 8 && p + 8 > data.len() ==> value(data, pos, t) == Err::<
                (Amf3Tree, int, Tables),
                Fault,
            >(Fault::Amf3TruncatedDouble)
            &&& m == 12 && end > data.len() ==> value(data, pos, t) == Err::<
                (Amf3Tree, int, Tables),
                Fault,
            >(Fault::Amf3TruncatedBytes)
        }),
{
}

/// An array that is sent whole is readable just where its named values and then its items are. It takes
/// the place in the table of objects that was next when it began.
pub proof fn law_arrays_in_full(data: Seq<u8>, pos: int, t: Tables)
    requires
        0 <= pos < data.len(),
        data[pos] == 9,
        u29(data, pos + 1) matches Ok((u, p)) && u % 2 == 1,
    ensures
        ({
            let (u, p) = u29(data, pos + 1)->Ok_0;
            let hollow = Amf3Tree::Array { assoc: Seq::empty(), dense: Seq::empty() };
            let begun = Tables { objects: t.objects.push(hollow), ..t };
            match pairs(data, p, begun) {
                Err(f) => value(data, pos, t) == Err::<(Amf3Tree, int, Tables), Fault>(f),
                Ok((assoc, p1, t1)) => match items(data, p1, t1, u / 2) {
                    Err(f) => value(data, pos, t) == Err::<(Amf3Tree, int, Tables), Fault>(f),
                    Ok((dense, p2, t2)) => value(data, pos, t) matches Ok((v, q, t3)) && v
                        == (Amf3Tree::Array { assoc, dense }) && q == p2 && t3.strings == t2.strings
                        && t3.traits == t2.traits && t3.objects == t2.objects.update(
                        t.objects.len() as int,
                        v,
                    ),
                },
            }
        }),
{
    lemma_u29_bounds(data, pos + 1);
    let (u, p) = u29(data, pos + 1)->Ok_0;
    let hollow = Amf3Tree::Array { assoc: Seq::empty(), dense: Seq::empty() };
    lemma_pairs_advance(data, p, t.with_object(hollow));
}

/// The class of an object, where the lowest bit of its number is set: with the next bit clear the rest
/// counts to a class that was declared before. Else the next two bits say whether the class reads
/// itself and whether it has members by name, and the rest is the number of its members, whose names
/// stand behind that of the class. A class that reads itself has no members.
pub proof fn law_classes_in_full(data: Seq<u8>, pos: int, t: Tables, u: int)
    requires
        u >= 0,
    ensures
        u / 2 % 2 == 0 && u / 4 < t.traits.len() ==> traits(data, pos, t, u) == Ok::<
            (Traits, int, Tables),
            Fault,
        >((t.traits[u / 4], pos, t)),
        u / 2 % 2 == 0 && u / 4 >= t.traits.len() ==> traits(data, pos, t, u) == Err::<
            (Traits, int, Tables),
            Fault,
        >(Fault::Amf3TraitsRefOutOfRange),
        u / 2 % 2 == 1 ==> (match text(data, pos, t) {
            Err(f) => traits(data, pos, t, u) == Err::<(Traits, int, Tables), Fault>(f),
            Ok((name, p, t1)) => if u / 4 % 2 == 1 && u / 16 > 0 {
                traits(data, pos, t, u) == Err::<(Traits, int, Tables), Fault>(
                    Fault::Amf3ExternalizableWithSealed,
                )
            } else {
                match texts(data, p, t1, u / 16) {
                    Err(f) => traits(data, pos, t, u) == Err::<(Traits, int, Tables), Fault>(f),
                    Ok((names, q, t2)) => traits(data, pos, t, u) matches Ok((e, r, t3)) && r == q
                        && e.class_name == name && e.sealed_names == names && (e.externalizable
                        <==> u / 4 % 2 == 1) && (e.dynamic <==> u / 8 % 2 == 1) && t3.strings
                        == t2.strings && t3.objects == t2.objects && t3.traits == t2.traits.push(e),
                }
            },
        }),
{
}

/// Names one behind the other.
pub proof fn law_names_in_order(data: Seq<u8>, pos: int, t: Tables, count: int)
    ensures
        count <= 0 ==> (texts(data, pos, t, count) matches Ok((s, q, t1)) && s.len() == 0 && q == pos
            && t1 == t),
        count > 0 ==> (match text(data, pos, t) {
            Err(f) => texts(data, pos, t, count) == Err::<(Seq<Seq<char>>, int, Tables), Fault>(f),
            Ok((s, p, t1)) => match texts(data, p, t1, count - 1) {
                Err(f) => texts(data, pos, t, count) == Err::<(Seq<Seq<char>>, int, Tables), Fault>(
                    f,
                ),
                Ok((rest, q, t2)) => texts(data, pos, t, count) matches Ok((a, r, t3)) && r == q && t3
                    == t2 && a == seq![s] + rest,
            },
        }),
{
}

/// An object that is sent whole: its class, as many values as the class has members, and where the
/// class has members by name, those. A class that reads itself has none of these. The object takes the
/// place in the table of objects that was next when its class had been read.
#[verifier::spinoff_prover]
#[verifier::rlimit(40)]
pub proof fn law_objects_in_full(data: Seq<u8>, pos: int, t: Tables)
    requires
        0 <= pos < data.len(),
        data[pos] == 10,
        u29(data, pos + 1) matches Ok((u, p)) && u % 2 == 1,
    ensures
        ({
            let (u, p) = u29(data, pos + 1)->Ok_0;
            match traits(data, p, t, u) {
                Err(f) => value(data, pos, t) == Err::<(Amf3Tree, int, Tables), Fault>(f),
                Ok((e, p1, t1)) => {
                    let hollow = Amf3Tree::Object {
                        class_name: e.class_name,
                        dynamic: e.dynamic,
                        externalizable: e.externalizable,
                        sealed_names: e.sealed_names,
                        sealed_values: Seq::empty(),
                        dynamic_members: Seq::empty(),
                    };
                    let begun = Tables { objects: t1.objects.push(hollow), ..t1 };
                    let place = t1.objects.len() as int;
                    &&& e.externalizable ==> (value(data, pos, t) matches Ok((v, q, t2)) && q == p1
                        && t2.strings == t1.strings && t2.traits == t1.traits && t2.objects
                        == t1.objects.push(v) && v == (Amf3Tree::Object {
                        class_name: e.class_name,
                        dynamic: false,
                        externalizable: true,
                        sealed_names: Seq::empty(),
                        sealed_values: Seq::empty(),
                        dynamic_members: Seq::empty(),
                    }))
                    &&& !e.externalizable ==> (match items(
                        data,
                        p1,
                        begun,
                        e.sealed_names.len() as int,
                    ) {
                        Err(f) => value(data, pos, t) == Err::<(Amf3Tree, int, Tables), Fault>(f),
                        Ok((sealed_values, p2, t2)) => {
                            &&& !e.dynamic ==> (value(data, pos, t) matches Ok((v, q, t3)) && q == p2
                                && t3.strings == t2.strings && t3.traits == t2.traits && t3.objects
                                == t2.objects.update(place, v) && v == (Amf3Tree::Object {
                                class_name: e.class_name,
                                dynamic: false,
                                externalizable: false,
                                sealed_names: e.sealed_names,
                                sealed_values,
                                dynamic_members: Seq::empty(),
                            }))
                            &&& e.dynamic ==> (match pairs(data, p2, t2) {
                                Err(f) => value(data, pos, t) == Err::<
                                    (Amf3Tree, int, Tables),
                                    Fault,
                                >(f),
                                Ok((dynamic_members, p3, t3)) => value(data, pos, t) matches Ok(
                                    (v, q, t4),
                                ) && q == p3 && t4.strings == t3.strings && t4.traits == t3.traits
                                    && t4.objects == t3.objects.update(place, v) && v == (
                                Amf3Tree::Object {
                                    class_name: e.class_name,
                                    dynamic: true,
                                    externalizable: false,
                                    sealed_names: e.sealed_names,
                                    sealed_values,
                                    dynamic_members,
                                }),
                            })
                        },
                    })
                },
            }
        }),
{
    let (u, p) = u29(data, pos + 1)->Ok_0;
    lemma_u29_bounds(data, pos + 1);
    if let Ok((e, p1, t1)) = traits(data, p, t, u) {
        lemma_traits_advance(data, p, t, u);
        let begun = t1.with_object(crate::amf3::decode::bare_object(e));
        lemma_items_advance(data, p1, begun, e.sealed_names.len() as int);
    }
}

/// Items one behind the other, and named values up to an empty name, in full.
pub proof fn law_runs_in_full(data: Seq<u8>, pos: int, t: Tables, count: int)
    requires
        0 <= pos,
    ensures
        count <= 0 ==> (items(data, pos, t, count) matches Ok((s, q, t1)) && s.len() == 0 && q == pos
            && t1 == t),
        count > 0 ==> (match value(data, pos, t) {
            Err(f) => items(data, pos, t, count) == Err::<(Seq<Amf3Tree>, int, Tables), Fault>(f),
            Ok((v, p, t1)) => match items(data, p, t1, count - 1) {
                Err(f) => items(data, pos, t, count) == Err::<(Seq<Amf3Tree>, int, Tables), Fault>(f),
                Ok((rest, q, t2)) => items(data, pos, t, count) matches Ok((a, r, t3)) && r == q && t3
                    == t2 && a == seq![v] + rest,
            },
        }),
        match text(data, pos, t) {
            Err(f) => pairs(data, pos, t) == Err::<(Seq<(Seq<char>, Amf3Tree)>, int, Tables), Fault>(
                f,
            ),
            Ok((key, p, t1)) => if key.len() == 0 {
                pairs(data, pos, t) matches Ok((a, r, t3)) && a.len() == 0 && r == p && t3 == t1
            } else {
                match value(data, p, t1) {
                    Err(f) => pairs(data, pos, t) == Err::<
                        (Seq<(Seq<char>, Amf3Tree)>, int, Tables),
                        Fault,
                    >(f),
                    Ok((v, p1, t2)) => match pairs(data, p1, t2) {
                        Err(f) => pairs(data, pos, t) == Err::<
                            (Seq<(Seq<char>, Amf3Tree)>, int, Tables),
                            Fault,
                        >(f),
                        Ok((rest, q, t3)) => pairs(data, pos, t) matches Ok((a, r, t4)) && r == q && t4
                            == t3 && a == seq![(key, v)] + rest,
                    },
                }
            },
        },
{
    lemma_value_advances(data, pos, t);
    lemma_text_advances(data, pos, t);
    if let Ok((key, p, t1)) = text(data, pos, t) {
        lemma_value_advances(data, p, t1);
    }
}

// ---- writing ----------------------------------------------------------------

/// What is written for a number: as few bytes as it takes, seven bits in each, and eight in a fourth.
pub proof fn law_number_written_by_bytes(v: int)
    requires
        0 <= v < 0x2000_0000,
    ensures
        ({
            let b = u29_bytes(v);
            &&& v < 128 ==> b.len() == 1
            &&& 128 <= v < 16384 ==> b.len() == 2
            &&& 16384 <= v < 2097152 ==> b.len() == 3
            &&& 2097152 <= v ==> b.len() == 4
            &&& u29(b, 0) == Ok::<(int, int), Fault>((v, b.len() as int))
        }),
        length_bytes(v as nat) == u29_bytes(2 * v + 1),
{
}

/// What is written for the values that are a marker and no more, and for times and other numbers.
pub proof fn law_scalars_written_by_bytes(strings: Seq<Seq<char>>, d: Double)
    ensures
        emit_value(Amf3Tree::Undefined, strings) == Emit3::put(seq![0u8], strings),
        emit_value(Amf3Tree::Null, strings) == Emit3::put(seq![1u8], strings),
        emit_value(Amf3Tree::Boolean(false), strings) == Emit3::put(seq![2u8], strings),
        emit_value(Amf3Tree::Boolean(true), strings) == Emit3::put(seq![3u8], strings),
        emit_value(Amf3Tree::Double(d), strings) == Emit3::put(seq![5u8] + be64(d.bits), strings),
        emit_value(Amf3Tree::Date(d), strings) == Emit3::put(seq![8u8, 1u8] + be64(d.bits), strings),
{
}

/// What is written for an integer: 29 bits in two's complement. A wider one is refused.
#[verifier::spinoff_prover]
pub proof fn law_integers_written_by_bytes(strings: Seq<Seq<char>>, i: i32)
    ensures
        0 <= i < 0x1000_0000 ==> emit_value(Amf3Tree::Integer(i), strings) == Emit3::put(
            seq![4u8] + u29_bytes(i as int),
            strings,
        ),
        -0x1000_0000 <= i < 0 ==> emit_value(Amf3Tree::Integer(i), strings) == Emit3::put(
            seq![4u8] + u29_bytes(i + 0x2000_0000),
            strings,
        ),
        !(-0x1000_0000 <= i < 0x1000_0000) ==> emit_value(Amf3Tree::Integer(i), strings).fault == Some(
            Fault::Amf3IntegerTooWide,
        ),
{
}

proof fn lemma_behind_marker(m: u8, size: Seq<u8>, data: Seq<u8>)
    ensures
        seq![m] + (size + data) == seq![m] + size + data,
{
    assert(seq![m] + (size + data) =~= seq![m] + size + data);
}

/// What is written for XML and for bytes: the size, with the lowest bit set behind it, and then the
/// bytes. What does not fit is refused.
#[verifier::spinoff_prover]
pub proof fn law_whole_values_written_by_bytes(
    strings: Seq<Seq<char>>,
    s: Seq<char>,
    b: Seq<u8>,
)
    ensures
        ({
            let n = encode_utf8(s).len() as int;
            let e = emit_value(Amf3Tree::Xml(s), strings);
            let d = emit_value(Amf3Tree::XmlDocument(s), strings);
            &&& n < 0x1000_0000 ==> e.fault is None && e.strings == strings && e.bytes == seq![11u8]
                + u29_bytes(2 * n + 1) + encode_utf8(s)
            &&& n < 0x1000_0000 ==> d.fault is None && d.strings == strings && d.bytes == seq![7u8]
                + u29_bytes(2 * n + 1) + encode_utf8(s)
            &&& n >= 0x1000_0000 ==> e.fault == Some(Fault::Amf3XmlTooLong) && d.fault == Some(
                Fault::Amf3XmlTooLong,
            )
        }),
        ({
            let n = b.len() as int;
            let e = emit_value(Amf3Tree::ByteArray(b), strings);
            &&& n < 0x1000_0000 ==> e.fault is None && e.strings == strings && e.bytes == seq![12u8]
                + u29_bytes(2 * n + 1) + b
            &&& n >= 0x1000_0000 ==> e.fault == Some(Fault::Amf3BytesTooLong)
        }),
{
    let n = encode_utf8(s).len() as int;
    lemma_behind_marker(11, u29_bytes(2 * n + 1), encode_utf8(s));
    lemma_behind_marker(7, u29_bytes(2 * n + 1), encode_utf8(s));
    lemma_behind_marker(12, u29_bytes(2 * b.len() as int + 1), b);
}

proof fn lemma_lookup(strings: Seq<Seq<char>>, s: Seq<char>, from: int)
    requires
        0 <= from,
    ensures
        match lookup(strings, s, from) {
            Some(i) => from <= i < strings.len() && strings[i] == s && forall|j: int|
                from <= j < i ==> #[trigger] strings[j] != s,
            None => forall|j: int| from <= j < strings.len() ==> #[trigger] strings[j] != s,
        },
    decreases strings.len() - from,
{
    if from < strings.len() && strings[from] != s {
        lemma_lookup(strings, s, from + 1);
    }
}

/// What is written for a string: one byte for an empty one, a reference for one that was written before,
/// and else its size and its bytes, and then it can be referred to.
pub proof fn law_string_written_by_bytes(s: Seq<char>, strings: Seq<Seq<char>>, i: int)
    ensures
        s.len() == 0 ==> emit_text(s, strings) == Emit3::put(seq![1u8], strings),
        s.len() > 0 && 0 <= i < strings.len() && strings[i] == s && (forall|j: int|
            0 <= j < i ==> #[trigger] strings[j] != s) ==> emit_text(s, strings) == (if i
            < 0x1000_0000 {
            Emit3::put(u29_bytes(2 * i), strings)
        } else {
            Emit3::stop(Fault::Amf3StringIndexTooLarge, strings)
        }),
        s.len() > 0 && (forall|j: int| 0 <= j < strings.len() ==> #[trigger] strings[j] != s)
            ==> emit_text(s, strings) == (if encode_utf8(s).len() < 0x1000_0000 {
            Emit3::put(
                u29_bytes(2 * encode_utf8(s).len() as int + 1) + encode_utf8(s),
                strings.push(s),
            )
        } else {
            Emit3::stop(Fault::Amf3StringTooLong, strings)
        }),
        emit_value(Amf3Tree::String(s), strings).bytes == seq![6u8] + emit_text(s, strings).bytes,
        emit_value(Amf3Tree::String(s), strings).fault == emit_text(s, strings).fault,
        emit_value(Amf3Tree::String(s), strings).strings == emit_text(s, strings).strings,
{
    lemma_lookup(strings, s, 0);
    assert(u29_bytes(1) =~= seq![1u8]);
    if s.len() > 0 && 0 <= i < strings.len() && strings[i] == s && (forall|j: int|
        0 <= j < i ==> #[trigger] strings[j] != s) {
        assert(lookup(strings, s, 0) == Some(i));
    }
}

/// An array is written as the number of its items, its named values, an empty name, and its items; an
/// object as its class, its members' values, and where it has members by name, those and an empty
/// name.
#[verifier::spinoff_prover]
#[verifier::rlimit(40)]
pub proof fn law_holders_are_written(
    strings: Seq<Seq<char>>,
    assoc: Seq<(Seq<char>, Amf3Tree)>,
    dense: Seq<Amf3Tree>,
    class_name: Seq<char>,
    names: Seq<Seq<char>>,
    dynamic: bool,
)
    ensures
        ({
            let e = emit_value(Amf3Tree::Array { assoc, dense }, strings);
            let named = emit_pairs(assoc, strings, Fault::Amf3EmptyAssocKey);
            let rest = emit_items(dense, named.strings);
            &&& dense.len() >= 0x1000_0000 ==> e.fault == Some(Fault::Amf3DenseTooLong)
            &&& dense.len() < 0x1000_0000 && named.fault is Some ==> e.fault == named.fault
            &&& dense.len() < 0x1000_0000 && named.fault is None ==> e.fault == rest.fault && e.bytes
                == seq![9u8] + u29_bytes(2 * dense.len() as int + 1) + named.bytes + seq![1u8] + rest.bytes
                && e.strings == rest.strings
        }),
        ({
            let class = emit_text(class_name, strings);
            let e = emit_value(
                Amf3Tree::Object {
                    class_name,
                    dynamic,
                    externalizable: true,
                    sealed_names: names,
                    sealed_values: dense,
                    dynamic_members: assoc,
                },
                strings,
            );
            e.bytes == seq![10u8, 7u8] + class.bytes && e.fault == class.fault && e.strings
                == class.strings
        }),
        ({
            let e = emit_value(
                Amf3Tree::Object {
                    class_name,
                    dynamic,
                    externalizable: false,
                    sealed_names: names,
                    sealed_values: dense,
                    dynamic_members: assoc,
                },
                strings,
            );
            let n = names.len() as int;
            let class = emit_text(class_name, strings);
            let called = emit_texts(names, class.strings);
            let values = emit_items(dense, called.strings);
            let members = emit_pairs(assoc, values.strings, Fault::Amf3EmptyDynamicKey);
            let head = seq![10u8] + u29_bytes(
                16 * n + if dynamic {
                    11int
                } else {
                    3
                },
            );
            &&& n != dense.len() ==> e.fault == Some(Fault::Amf3SealedMismatch)
            &&& n == dense.len() && n >= 0x200_0000 ==> e.fault == Some(Fault::Amf3TooManySealed)
            &&& n == dense.len() && n < 0x200_0000 && class.fault is None && called.fault is None
                && values.fault is None ==> {
                &&& !dynamic ==> e.fault is None && e.bytes == head + class.bytes + called.bytes
                    + values.bytes && e.strings == values.strings
                &&& dynamic && members.fault is None ==> e.fault is None && e.bytes == head
                    + class.bytes + called.bytes + values.bytes + members.bytes + seq![1u8]
                    && e.strings == members.strings
                &&& dynamic && members.fault is Some ==> e.fault == members.fault
            }
        }),
{
    assert(u29_bytes(1) =~= seq![1u8]);
    assert(u29_bytes(7) =~= seq![7u8]);
    lemma_array_written(strings, assoc, dense);
    let class = emit_text(class_name, strings);
    assert(seq![10u8] + (seq![7u8] + class.bytes) =~= seq![10u8, 7u8] + class.bytes);
    lemma_object_written(strings, assoc, dense, class_name, names, dynamic);
}

#[verifier::spinoff_prover]
#[verifier::rlimit(40)]
proof fn lemma_array_written(
    strings: Seq<Seq<char>>,
    assoc: Seq<(Seq<char>, Amf3Tree)>,
    dense: Seq<Amf3Tree>,
)
    ensures
        ({
            let e = emit_value(Amf3Tree::Array { assoc, dense }, strings);
            let named = emit_pairs(assoc, strings, Fault::Amf3EmptyAssocKey);
            let rest = emit_items(dense, named.strings);
            dense.len() < 0x1000_0000 && named.fault is None ==> e.bytes == seq![9u8] + u29_bytes(
                2 * dense.len() as int + 1,
            ) + named.bytes + seq![1u8] + rest.bytes
        }),
{
    let v = Amf3Tree::Array { assoc, dense };
    let e = emit_value(v, strings);
    let named = emit_pairs(assoc, strings, Fault::Amf3EmptyAssocKey);
    let rest = emit_items(dense, named.strings);
    assert(u29_bytes(1) =~= seq![1u8]);
    if dense.len() < 0x1000_0000 && named.fault is None {
        assert(e.bytes == seq![9u8] + emit_array(v, strings).bytes);
        assert(e.bytes =~= seq![9u8] + u29_bytes(2 * dense.len() as int + 1) + named.bytes + seq![1u8]
            + rest.bytes);
    }
}

#[verifier::spinoff_prover]
#[verifier::rlimit(40)]
proof fn lemma_object_written(
    strings: Seq<Seq<char>>,
    assoc: Seq<(Seq<char>, Amf3Tree)>,
    dense: Seq<Amf3Tree>,
    class_name: Seq<char>,
    names: Seq<Seq<char>>,
    dynamic: bool,
)
    ensures
        ({
            let e = emit_value(
                Amf3Tree::Object {
                    class_name,
                    dynamic,
                    externalizable: false,
                    sealed_names: names,
                    sealed_values: dense,
                    dynamic_members: assoc,
                },
                strings,
            );
            let n = names.len() as int;
            let class = emit_text(class_name, strings);
            let called = emit_texts(names, class.strings);
            let values = emit_items(dense, called.strings);
            let members = emit_pairs(assoc, values.strings, Fault::Amf3EmptyDynamicKey);
            let head = seq![10u8] + u29_bytes(
                16 * n + if dynamic {
                    11int
                } else {
                    3
                },
            );
            n == dense.len() && n < 0x200_0000 && class.fault is None && called.fault is None
                && values.fault is None ==> {
                &&& !dynamic ==> e.bytes == head + class.bytes + called.bytes + values.bytes
                &&& dynamic && members.fault is None ==> e.bytes == head + class.bytes + called.bytes
                    + values.bytes + members.bytes + seq![1u8]
            }
        }),
{
    let v = Amf3Tree::Object {
        class_name,
        dynamic,
        externalizable: false,
        sealed_names: names,
        sealed_values: dense,
        dynamic_members: assoc,
    };
    let e = emit_value(v, strings);
    let n = names.len() as int;
    let class = emit_text(class_name, strings);
    let called = emit_texts(names, class.strings);
    let values = emit_items(dense, called.strings);
    let members = emit_pairs(assoc, values.strings, Fault::Amf3EmptyDynamicKey);
    let number = u29_bytes(
        16 * n + if dynamic {
            11int
        } else {
            3
        },
    );
    assert(u29_bytes(1) =~= seq![1u8]);
    if n == dense.len() && n < 0x200_0000 && class.fault is None && called.fault is None
        && values.fault is None {
        assert(e.bytes == seq![10u8] + emit_object(v, strings).bytes);
        if !dynamic {
            assert(e.bytes =~= seq![10u8] + number + class.bytes + called.bytes + values.bytes);
        } else if members.fault is None {
            assert(e.bytes =~= seq![10u8] + number + class.bytes + called.bytes + values.bytes
                + members.bytes + seq![1u8]);
        }
    }
}

/// Values, names and named values are written one behind the other, in order. A name may not be empty.
pub proof fn law_runs_are_written(
    strings: Seq<Seq<char>>,
    v: Amf3Tree,
    s: Seq<Amf3Tree>,
    key: Seq<char>,
    names: Seq<Seq<char>>,
    p: Seq<(Seq<char>, Amf3Tree)>,
    f: Fault,
)
    ensures
        emit_items(Seq::empty(), strings) == Emit3::put(Seq::empty(), strings),
        emit_items(seq![v] + s, strings) == emit_value(v, strings).and(
            emit_items(s, emit_value(v, strings).strings),
        ),
        emit_texts(Seq::empty(), strings) == Emit3::put(Seq::empty(), strings),
        emit_texts(seq![key] + names, strings) == emit_text(key, strings).and(
            emit_texts(names, emit_text(key, strings).strings),
        ),
        emit_pairs(Seq::empty(), strings, f) == Emit3::put(Seq::empty(), strings),
        key.len() == 0 ==> emit_pairs(seq![(key, v)] + p, strings, f) == Emit3::stop(f, strings),
        key.len() > 0 ==> ({
            let one = emit_text(key, strings).and(emit_value(v, emit_text(key, strings).strings));
            emit_pairs(seq![(key, v)] + p, strings, f) == one.and(emit_pairs(p, one.strings, f))
        }),
        emit_message(v) == emit_value(v, Seq::empty()),
{
    assert((seq![v] + s).drop_first() =~= s);
    assert((seq![key] + names).drop_first() =~= names);
    assert((seq![(key, v)] + p).drop_first() =~= p);
}

} // verus!

//! How reading and writing AMF3 fit together.
use vstd::prelude::*;
use vstd::utf8::*;
use crate::amf3::decode::{
    array, bare_object, external_object, items, message, object, pairs, signed29, text, texts,
    traits, u29, utf8_run, value, xml, Tables, Traits,
};
use crate::amf3::encode::{emit_array, emit_items, emit_message, emit_object, emit_pairs, emit_text, emit_texts,
    emit_value, emit_xml, length_bytes, lookup, object_header, u29_bytes, Emit3};
use crate::amf3::{Amf3Tree, U29_MAX};
use crate::error::Fault;
use crate::text::lemma_utf8_empty;
use crate::wire::{at, be64, lemma_at_extend, lemma_at_index, lemma_at_split, lemma_at_tail, lemma_be64_at, lemma_be64_len};

verus! {

/// A value without what the wire does not carry: the members of an object whose class writes
/// its own body, and the added members of an object that has none.
pub open spec fn canon(v: Amf3Tree) -> Amf3Tree
    decreases v,
{
    match v {
        Amf3Tree::Array { assoc, dense } => Amf3Tree::Array {
            assoc: canon_pairs(assoc),
            dense: canon_items(dense),
        },
        Amf3Tree::Object {
            class_name,
            dynamic,
            externalizable,
            sealed_names,
            sealed_values,
            dynamic_members,
        } => if externalizable {
            external_object(class_name)
        } else {
            Amf3Tree::Object {
                class_name,
                dynamic,
                externalizable: false,
                sealed_names,
                sealed_values: canon_items(sealed_values),
                dynamic_members: if dynamic {
                    canon_pairs(dynamic_members)
                } else {
                    Seq::empty()
                },
            }
        },
        _ => v,
    }
}

/// `canon` of each value.
pub open spec fn canon_items(s: Seq<Amf3Tree>) -> Seq<Amf3Tree>
    decreases s,
{
    if s.len() == 0 {
        Seq::empty()
    } else {
        seq![canon(s[0])] + canon_items(s.drop_first())
    }
}

/// `canon` of each named value.
pub open spec fn canon_pairs(s: Seq<(Seq<char>, Amf3Tree)>) -> Seq<(Seq<char>, Amf3Tree)>
    decreases s,
{
    if s.len() == 0 {
        Seq::empty()
    } else {
        seq![(s[0].0, canon(s[0].1))] + canon_pairs(s.drop_first())
    }
}

/// The seven-bit digits of an integer of three bytes.
proof fn lemma_digits3(v: int)
    requires
        0 <= v < 0x20_0000,
    ensures
        0 <= v / 0x4000 < 128,
        0 <= v / 0x80 % 0x80 < 128,
        v == v / 0x4000 * 0x4000 + v / 0x80 % 0x80 * 0x80 + v % 0x80,
{
    assert(v / 0x80 / 0x80 == v / 0x4000);
}

/// The digits of an integer of four bytes, of which the last has eight bits.
proof fn lemma_digits4(v: int)
    requires
        0 <= v <= U29_MAX,
    ensures
        0 <= v / 0x40_0000 < 128,
        0 <= v / 0x8000 % 0x80 < 128,
        0 <= v / 0x100 % 0x80 < 128,
        v == v / 0x40_0000 * 0x40_0000 + v / 0x8000 % 0x80 * 0x8000 + v / 0x100 % 0x80 * 0x100 + v
            % 0x100,
{
    assert(v / 0x100 / 0x80 == v / 0x8000);
    assert(v / 0x8000 / 0x80 == v / 0x40_0000);
}

/// Reading a variable-length integer gives back what was written.
pub proof fn law_u29_round_trip(data: Seq<u8>, pos: int, v: int)
    requires
        0 <= v <= U29_MAX,
        at(data, pos, u29_bytes(v)),
    ensures
        u29(data, pos) == Ok::<(int, int), Fault>((v, pos + u29_bytes(v).len())),
{
    let b = u29_bytes(v);
    lemma_at_index(data, pos, b, 0);
    if v < 0x80 {
    } else if v < 0x4000 {
        lemma_at_index(data, pos, b, 1);
    } else if v < 0x20_0000 {
        lemma_at_index(data, pos, b, 1);
        lemma_at_index(data, pos, b, 2);
        lemma_digits3(v);
    } else {
        lemma_at_index(data, pos, b, 1);
        lemma_at_index(data, pos, b, 2);
        lemma_at_index(data, pos, b, 3);
        lemma_digits4(v);
    }
}

/// Every integer of 29 bits survives the way through the unsigned wire form.
pub proof fn law_signed29_round_trip(i: int)
    requires
        -0x1000_0000 <= i < 0x1000_0000,
    ensures
        signed29(if i < 0 { i + 0x2000_0000 } else { i }) == i,
{
}

/// What `lookup` finds is the text looked for.
proof fn lemma_lookup(strings: Seq<Seq<char>>, s: Seq<char>, from: int)
    requires
        0 <= from,
    ensures
        lookup(strings, s, from) matches Some(i) ==> from <= i < strings.len() && strings[i] == s,
    decreases strings.len() - from,
{
    if from < strings.len() && strings[from] != s {
        lemma_lookup(strings, s, from + 1);
    }
}

/// A run of UTF-8 reads back as the text.
proof fn lemma_utf8_run(data: Seq<u8>, pos: int, s: Seq<char>)
    requires
        at(data, pos, encode_utf8(s)),
    ensures
        utf8_run(data, pos, encode_utf8(s).len() as int) == Ok::<Seq<char>, Fault>(s),
{
    encode_utf8_valid_utf8(s);
    encode_utf8_decode_utf8(s);
}

/// Text reads back as itself, and the reader's string table grows as the writer's did.
proof fn lemma_text_back(data: Seq<u8>, pos: int, s: Seq<char>, t: Tables)
    requires
        emit_text(s, t.strings).fault is None,
        at(data, pos, emit_text(s, t.strings).bytes),
    ensures
        text(data, pos, t) == Ok::<(Seq<char>, int, Tables), Fault>(
            (
                s,
                pos + emit_text(s, t.strings).bytes.len(),
                Tables { strings: emit_text(s, t.strings).strings, ..t },
            ),
        ),
{
    lemma_utf8_empty(s);
    if s.len() == 0 {
        law_u29_round_trip(data, pos, 1);
        assert(s =~= Seq::<char>::empty());
        assert(at(data, pos + 1, encode_utf8(s))) by {
            assert(data.subrange(pos + 1, pos + 1) =~= Seq::<u8>::empty());
        }
        lemma_utf8_run(data, pos + 1, s);
    } else {
        lemma_lookup(t.strings, s, 0);
        match lookup(t.strings, s, 0) {
            Some(i) => {
                law_u29_round_trip(data, pos, 2 * i);
            },
            None => {
                let n = encode_utf8(s).len();
                let u = 2 * n as int + 1;
                lemma_at_split(data, pos, length_bytes(n), encode_utf8(s));
                law_u29_round_trip(data, pos, u);
                lemma_utf8_run(data, pos + length_bytes(n).len(), s);
            },
        }
    }
}

/// A run of texts reads back as itself.
proof fn lemma_texts_back(data: Seq<u8>, pos: int, s: Seq<Seq<char>>, t: Tables)
    requires
        0 <= pos <= data.len(),
        emit_texts(s, t.strings).fault is None,
        at(data, pos, emit_texts(s, t.strings).bytes),
    ensures
        texts(data, pos, t, s.len() as int) == Ok::<(Seq<Seq<char>>, int, Tables), Fault>(
            (
                s,
                pos + emit_texts(s, t.strings).bytes.len(),
                Tables { strings: emit_texts(s, t.strings).strings, ..t },
            ),
        ),
    decreases s.len(),
{
    if s.len() == 0 {
        assert(s =~= Seq::empty());
    } else {
        let head = emit_text(s[0], t.strings);
        let tail = emit_texts(s.drop_first(), head.strings);
        lemma_at_split(data, pos, head.bytes, tail.bytes);
        lemma_text_back(data, pos, s[0], t);
        lemma_texts_back(
            data,
            pos + head.bytes.len(),
            s.drop_first(),
            Tables { strings: head.strings, ..t },
        );
        assert(seq![s[0]] + s.drop_first() =~= s);
    }
}

/// `value` reads what `e` wrote as `v`, and the reader's string table grows as the writer's did.
spec fn value_back(data: Seq<u8>, pos: int, t: Tables, v: Amf3Tree, e: Emit3) -> bool {
    match value(data, pos, t) {
        Ok((w, p, t1)) => w == v && p == pos + e.bytes.len() && t1.strings == e.strings,
        Err(_) => false,
    }
}

spec fn items_back(data: Seq<u8>, pos: int, t: Tables, v: Seq<Amf3Tree>, e: Emit3) -> bool {
    match items(data, pos, t, v.len() as int) {
        Ok((w, p, t1)) => w == v && p == pos + e.bytes.len() && t1.strings == e.strings,
        Err(_) => false,
    }
}

/// `pairs` also reads the empty name that ends the run.
spec fn pairs_back(
    data: Seq<u8>,
    pos: int,
    t: Tables,
    v: Seq<(Seq<char>, Amf3Tree)>,
    e: Emit3,
) -> bool {
    match pairs(data, pos, t) {
        Ok((w, p, t1)) => w == v && p == pos + e.bytes.len() + 1 && t1.strings == e.strings,
        Err(_) => false,
    }
}

/// Values whose bytes do not depend on the tables.
proof fn lemma_plain_back(data: Seq<u8>, pos: int, v: Amf3Tree, t: Tables)
    requires
        v is Undefined || v is Null || v is Boolean || v is Integer || v is Double,
        emit_value(v, t.strings).fault is None,
        at(data, pos, emit_value(v, t.strings).bytes),
    ensures
        value_back(data, pos, t, v, emit_value(v, t.strings)),
{
    broadcast use lemma_be64_len;

    let e = emit_value(v, t.strings);
    lemma_at_index(data, pos, e.bytes, 0);
    if let Amf3Tree::Integer(i) = v {
        let u = if i < 0 {
            i + 0x2000_0000
        } else {
            i as int
        };
        lemma_at_split(data, pos, seq![0x04u8], u29_bytes(u));
        law_u29_round_trip(data, pos + 1, u);
    }
    if let Amf3Tree::Double(d) = v {
        lemma_at_split(data, pos, seq![0x05u8], be64(d.bits));
        lemma_be64_at(data, pos + 1, d.bits);
    }
}

proof fn lemma_date_back(data: Seq<u8>, pos: int, v: Amf3Tree, t: Tables)
    requires
        v is Date,
        at(data, pos, emit_value(v, t.strings).bytes),
    ensures
        value_back(data, pos, t, v, emit_value(v, t.strings)),
{
    broadcast use lemma_be64_len;

    let d = v->Date_0;
    let e = emit_value(v, t.strings);
    lemma_at_index(data, pos, e.bytes, 0);
    lemma_at_index(data, pos, e.bytes, 1);
    lemma_at_split(data, pos, seq![0x08u8, 0x01u8], be64(d.bits));
    lemma_be64_at(data, pos + 2, d.bits);
}

proof fn lemma_byte_array_back(data: Seq<u8>, pos: int, v: Amf3Tree, t: Tables)
    requires
        v is ByteArray,
        emit_value(v, t.strings).fault is None,
        at(data, pos, emit_value(v, t.strings).bytes),
    ensures
        value_back(data, pos, t, v, emit_value(v, t.strings)),
{
    let b = v->ByteArray_0;
    let e = emit_value(v, t.strings);
    lemma_at_index(data, pos, e.bytes, 0);
    lemma_at_split(data, pos, seq![0x0Cu8], length_bytes(b.len()) + b);
    lemma_at_split(data, pos + 1, length_bytes(b.len()), b);
    law_u29_round_trip(data, pos + 1, 2 * b.len() as int + 1);
}

proof fn lemma_string_back(data: Seq<u8>, pos: int, v: Amf3Tree, t: Tables)
    requires
        v is String,
        emit_value(v, t.strings).fault is None,
        at(data, pos, emit_value(v, t.strings).bytes),
    ensures
        value_back(data, pos, t, v, emit_value(v, t.strings)),
{
    let s = v->String_0;
    let e = emit_value(v, t.strings);
    lemma_at_index(data, pos, e.bytes, 0);
    lemma_at_split(data, pos, seq![0x06u8], emit_text(s, t.strings).bytes);
    lemma_text_back(data, pos + 1, s, t);
}

proof fn lemma_markup_back(data: Seq<u8>, pos: int, v: Amf3Tree, t: Tables)
    requires
        v is Xml || v is XmlDocument,
        emit_value(v, t.strings).fault is None,
        at(data, pos, emit_value(v, t.strings).bytes),
    ensures
        value_back(data, pos, t, v, emit_value(v, t.strings)),
{
    let e = emit_value(v, t.strings);
    lemma_at_index(data, pos, e.bytes, 0);
    match v {
        Amf3Tree::XmlDocument(s) => {
            lemma_xml_back(data, pos, 0x07, s, t, true);
        },
        Amf3Tree::Xml(s) => {
            lemma_xml_back(data, pos, 0x0B, s, t, false);
        },
        _ => {},
    }
}

proof fn lemma_value_back(data: Seq<u8>, pos: int, v: Amf3Tree, t: Tables)
    requires
        emit_value(v, t.strings).fault is None,
        at(data, pos, emit_value(v, t.strings).bytes),
    ensures
        value_back(data, pos, t, canon(v), emit_value(v, t.strings)),
    decreases v, 1int,
{
    match v {
        Amf3Tree::String(_) => {
            lemma_string_back(data, pos, v, t);
        },
        Amf3Tree::XmlDocument(_) => {
            lemma_markup_back(data, pos, v, t);
        },
        Amf3Tree::Xml(_) => {
            lemma_markup_back(data, pos, v, t);
        },
        Amf3Tree::Date(_) => {
            lemma_date_back(data, pos, v, t);
        },
        Amf3Tree::ByteArray(_) => {
            lemma_byte_array_back(data, pos, v, t);
        },
        Amf3Tree::Array { .. } => {
            lemma_at_index(data, pos, emit_value(v, t.strings).bytes, 0);
            lemma_at_split(data, pos, seq![0x09u8], emit_array(v, t.strings).bytes);
            lemma_array_back(data, pos + 1, v, t);
        },
        Amf3Tree::Object { .. } => {
            lemma_at_index(data, pos, emit_value(v, t.strings).bytes, 0);
            lemma_at_split(data, pos, seq![0x0Au8], emit_object(v, t.strings).bytes);
            lemma_object_back(data, pos + 1, v, t);
        },
        _ => {
            lemma_plain_back(data, pos, v, t);
        },
    }
}

proof fn lemma_xml_back(
    data: Seq<u8>,
    pos: int,
    marker: u8,
    s: Seq<char>,
    t: Tables,
    document: bool,
)
    requires
        emit_xml(s, t.strings).fault is None,
        at(data, pos, seq![marker] + emit_xml(s, t.strings).bytes),
    ensures
        xml(data, pos + 1, t, document) matches Ok((w, p, t1)) && w == (if document {
            Amf3Tree::XmlDocument(s)
        } else {
            Amf3Tree::Xml(s)
        }) && p == pos + 1 + emit_xml(s, t.strings).bytes.len() && t1.strings == t.strings,
{
    let n = encode_utf8(s).len();
    lemma_at_split(data, pos, seq![marker], emit_xml(s, t.strings).bytes);
    lemma_at_split(data, pos + 1, length_bytes(n), encode_utf8(s));
    law_u29_round_trip(data, pos + 1, 2 * n as int + 1);
    lemma_utf8_run(data, pos + 1 + length_bytes(n).len(), s);
}

proof fn lemma_array_back(data: Seq<u8>, pos: int, v: Amf3Tree, t: Tables)
    requires
        v is Array,
        emit_array(v, t.strings).fault is None,
        at(data, pos, emit_array(v, t.strings).bytes),
    ensures
        array(data, pos, t) matches Ok((w, p, t1)) && w == canon(v) && p == pos + emit_array(
            v,
            t.strings,
        ).bytes.len() && t1.strings == emit_array(v, t.strings).strings,
    decreases v, 0int,
{
    let assoc = v->assoc;
    let dense = v->dense;
    let head = length_bytes(dense.len());
    let named = emit_pairs(assoc, t.strings, Fault::Amf3EmptyAssocKey);
    let rest = emit_items(dense, named.strings);
    let end = u29_bytes(1);
    let e = emit_array(v, t.strings);
    assert(e.bytes =~= head + ((named.bytes + end) + rest.bytes));
    lemma_at_split(data, pos, head, (named.bytes + end) + rest.bytes);
    lemma_at_split(data, pos + head.len(), named.bytes + end, rest.bytes);
    law_u29_round_trip(data, pos, 2 * dense.len() as int + 1);
    let hollow = Amf3Tree::Array { assoc: Seq::empty(), dense: Seq::empty() };
    let p = pos + head.len();
    lemma_pairs_back(data, p, assoc, t.with_object(hollow), Fault::Amf3EmptyAssocKey);
    if let Ok((w, p1, t1)) = pairs(data, p, t.with_object(hollow)) {
        lemma_items_back(data, p1, dense, t1);
        lemma_canon_len(dense);
    }
}

proof fn lemma_canon_len(s: Seq<Amf3Tree>)
    ensures
        canon_items(s).len() == s.len(),
    decreases s.len(),
{
    if s.len() > 0 {
        lemma_canon_len(s.drop_first());
    }
}

proof fn lemma_external_back(data: Seq<u8>, pos: int, v: Amf3Tree, t: Tables)
    requires
        v is Object,
        v->externalizable,
        emit_object(v, t.strings).fault is None,
        at(data, pos, emit_object(v, t.strings).bytes),
    ensures
        object(data, pos, t) matches Ok((w, p, t1)) && w == canon(v) && p == pos + emit_object(
            v,
            t.strings,
        ).bytes.len() && t1.strings == emit_object(v, t.strings).strings,
{
    let class = emit_text(v->class_name, t.strings);
    let head = u29_bytes(7);
    lemma_at_split(data, pos, head, class.bytes);
    law_u29_round_trip(data, pos, 7);
    let p = pos + head.len();
    lemma_text_back(data, p, v->class_name, t);
    let t1 = Tables { strings: class.strings, ..t };
    let p1 = p + class.bytes.len();
    let entry = Traits {
        class_name: v->class_name,
        dynamic: false,
        externalizable: true,
        sealed_names: Seq::empty(),
    };
    assert(texts(data, p1, t1, 0) == Ok::<(Seq<Seq<char>>, int, Tables), Fault>(
        (Seq::empty(), p1, t1),
    ));
    assert(traits(data, p, t, 7) == Ok::<(Traits, int, Tables), Fault>(
        (entry, p1, t1.with_traits(entry)),
    ));
}

/// The class layout of an object reads back.
proof fn lemma_traits_back(
    data: Seq<u8>,
    pos: int,
    class_name: Seq<char>,
    dynamic: bool,
    sealed_names: Seq<Seq<char>>,
    t: Tables,
)
    requires
        ({
            let class = emit_text(class_name, t.strings);
            let names = emit_texts(sealed_names, class.strings);
            &&& class.fault is None
            &&& names.fault is None
            &&& at(data, pos, class.bytes + names.bytes)
        }),
    ensures
        ({
            let class = emit_text(class_name, t.strings);
            let names = emit_texts(sealed_names, class.strings);
            let entry = Traits { class_name, dynamic, externalizable: false, sealed_names };
            traits(data, pos, t, object_header(sealed_names.len() as int, dynamic)) == Ok::<
                (Traits, int, Tables),
                Fault,
            >(
                (
                    entry,
                    pos + class.bytes.len() + names.bytes.len(),
                    Tables { strings: names.strings, ..t }.with_traits(entry),
                ),
            )
        }),
{
    let class = emit_text(class_name, t.strings);
    let names = emit_texts(sealed_names, class.strings);
    let h = object_header(sealed_names.len() as int, dynamic);
    lemma_at_split(data, pos, class.bytes, names.bytes);
    lemma_text_back(data, pos, class_name, t);
    lemma_texts_back(
        data,
        pos + class.bytes.len(),
        sealed_names,
        Tables { strings: class.strings, ..t },
    );
    assert(h / 2 % 2 == 1 && h / 4 % 2 == 0 && h / 16 == sealed_names.len() && (h / 8 % 2 == 1
        <==> dynamic));
}

#[verifier::rlimit(40)]
proof fn lemma_object_back(data: Seq<u8>, pos: int, v: Amf3Tree, t: Tables)
    requires
        v is Object,
        emit_object(v, t.strings).fault is None,
        at(data, pos, emit_object(v, t.strings).bytes),
    ensures
        object(data, pos, t) matches Ok((w, p, t1)) && w == canon(v) && p == pos + emit_object(
            v,
            t.strings,
        ).bytes.len() && t1.strings == emit_object(v, t.strings).strings,
    decreases v, 0int,
{
    if v->externalizable {
        lemma_external_back(data, pos, v, t);
    } else {
        let e = emit_object(v, t.strings);
        let class = emit_text(v->class_name, t.strings);
        let n = v->sealed_names.len() as int;
        let h = object_header(n, v->dynamic);
        let head = u29_bytes(h);
        let names = emit_texts(v->sealed_names, class.strings);
        let sealed = emit_items(v->sealed_values, names.strings);
        lemma_object_parts(data, pos, v, t);
        let p = pos + head.len();
        lemma_traits_back(data, p, v->class_name, v->dynamic, v->sealed_names, t);
        let p2 = p + class.bytes.len() + names.bytes.len();
        let entry = Traits {
            class_name: v->class_name,
            dynamic: v->dynamic,
            externalizable: false,
            sealed_names: v->sealed_names,
        };
        let t2 = Tables { strings: names.strings, ..t }.with_traits(entry);
        let t3 = t2.with_object(bare_object(entry));
        lemma_items_back(data, p2, v->sealed_values, t3);
        lemma_canon_len(v->sealed_values);
        crate::amf3::decode::lemma_items_advance(data, p2, t3, n);
        if let Ok((w, p3, t4)) = items(data, p2, t3, n) {
            if v->dynamic {
                lemma_pairs_back(data, p3, v->dynamic_members, t4, Fault::Amf3EmptyDynamicKey);
            }
        }
    }
}

/// Where the parts of a written object stand.
proof fn lemma_object_parts(data: Seq<u8>, pos: int, v: Amf3Tree, t: Tables)
    requires
        v is Object,
        !v->externalizable,
        emit_object(v, t.strings).fault is None,
        at(data, pos, emit_object(v, t.strings).bytes),
    ensures
        ({
            let class = emit_text(v->class_name, t.strings);
            let n = v->sealed_names.len() as int;
            let h = object_header(n, v->dynamic);
            let head = u29_bytes(h);
            let names = emit_texts(v->sealed_names, class.strings);
            let sealed = emit_items(v->sealed_values, names.strings);
            let members = emit_pairs(
                v->dynamic_members,
                sealed.strings,
                Fault::Amf3EmptyDynamicKey,
            );
            let p = pos + head.len();
            let p2 = p + class.bytes.len() + names.bytes.len();
            let tail = if v->dynamic {
                members.bytes + u29_bytes(1)
            } else {
                Seq::empty()
            };
            &&& 0 <= pos
            &&& u29(data, pos) == Ok::<(int, int), Fault>((h, p))
            &&& at(data, p, class.bytes + names.bytes)
            &&& at(data, p2, sealed.bytes)
            &&& at(data, p2 + sealed.bytes.len(), tail)
            &&& emit_object(v, t.strings).bytes.len() == p2 - pos + sealed.bytes.len()
                + tail.len()
        }),
{
    let e = emit_object(v, t.strings);
    let class = emit_text(v->class_name, t.strings);
    let n = v->sealed_names.len() as int;
    let h = object_header(n, v->dynamic);
    let head = u29_bytes(h);
    let names = emit_texts(v->sealed_names, class.strings);
    let sealed = emit_items(v->sealed_values, names.strings);
    let members = emit_pairs(v->dynamic_members, sealed.strings, Fault::Amf3EmptyDynamicKey);
    let tail = if v->dynamic {
        members.bytes + u29_bytes(1)
    } else {
        Seq::empty()
    };
    assert(e.bytes =~= head + ((class.bytes + names.bytes) + (sealed.bytes + tail)));
    lemma_at_split(data, pos, head, (class.bytes + names.bytes) + (sealed.bytes + tail));
    law_u29_round_trip(data, pos, h);
    let p = pos + head.len();
    lemma_at_split(data, p, class.bytes + names.bytes, sealed.bytes + tail);
    let p2 = p + class.bytes.len() + names.bytes.len();
    lemma_at_split(data, p2, sealed.bytes, tail);
}

proof fn lemma_items_back(data: Seq<u8>, pos: int, s: Seq<Amf3Tree>, t: Tables)
    requires
        0 <= pos <= data.len(),
        emit_items(s, t.strings).fault is None,
        at(data, pos, emit_items(s, t.strings).bytes),
    ensures
        items_back(data, pos, t, canon_items(s), emit_items(s, t.strings)),
    decreases s, 2int,
{
    if s.len() > 0 {
        let head = emit_value(s[0], t.strings);
        let tail = emit_items(s.drop_first(), head.strings);
        lemma_at_split(data, pos, head.bytes, tail.bytes);
        lemma_value_back(data, pos, s[0], t);
        lemma_canon_len(s);
        lemma_canon_len(s.drop_first());
        crate::amf3::decode::lemma_value_advances(data, pos, t);
        if let Ok((w, p, t1)) = value(data, pos, t) {
            lemma_items_back(data, p, s.drop_first(), t1);
        }
    }
}

proof fn lemma_pairs_back(
    data: Seq<u8>,
    pos: int,
    s: Seq<(Seq<char>, Amf3Tree)>,
    t: Tables,
    empty_key: Fault,
)
    requires
        emit_pairs(s, t.strings, empty_key).fault is None,
        at(data, pos, emit_pairs(s, t.strings, empty_key).bytes + u29_bytes(1)),
    ensures
        pairs_back(data, pos, t, canon_pairs(s), emit_pairs(s, t.strings, empty_key)),
    decreases s, 2int,
{
    let e = emit_pairs(s, t.strings, empty_key);
    let end = u29_bytes(1);
    if s.len() == 0 {
        let nothing = Seq::<char>::empty();
        assert(e.bytes + end =~= end);
        lemma_text_back(data, pos, nothing, t);
    } else {
        let key = emit_text(s[0].0, t.strings);
        let val = emit_value(s[0].1, key.strings);
        let more = emit_pairs(s.drop_first(), val.strings, empty_key);
        assert(e.bytes + end =~= key.bytes + (val.bytes + (more.bytes + end)));
        lemma_at_split(data, pos, key.bytes, val.bytes + (more.bytes + end));
        lemma_text_back(data, pos, s[0].0, t);
        let p = pos + key.bytes.len();
        let t1 = Tables { strings: key.strings, ..t };
        lemma_at_split(data, p, val.bytes, more.bytes + end);
        lemma_value_back(data, p, s[0].1, t1);
        crate::amf3::decode::lemma_text_advances(data, pos, t);
        crate::amf3::decode::lemma_value_advances(data, p, t1);
        if let Ok((w, p1, t2)) = value(data, p, t1) {
            lemma_pairs_back(data, p1, s.drop_first(), t2, empty_key);
        }
    }
}

/// Reading back what was written gives the value, and reading stops where writing stopped.
pub proof fn law_read_written(data: Seq<u8>, pos: int, v: Amf3Tree)
    requires
        emit_message(v).fault is None,
        at(data, pos, emit_message(v).bytes),
    ensures
        message(data, pos) == Ok::<(Amf3Tree, int), Fault>(
            (canon(v), pos + emit_message(v).bytes.len()),
        ),
{
    lemma_value_back(data, pos, v, Tables::empty());
}

/// A message appended to a buffer reads back from where the buffer ended before.
pub proof fn law_read_write(before: Seq<u8>, v: Amf3Tree, behind: Seq<u8>)
    requires
        emit_message(v).fault is None,
    ensures
        message(before + emit_message(v).bytes + behind, before.len() as int) == Ok::<
            (Amf3Tree, int),
            Fault,
        >((canon(v), (before.len() + emit_message(v).bytes.len()) as int)),
{
    let bytes = emit_message(v).bytes;
    lemma_at_tail(before, bytes);
    lemma_at_extend(before + bytes, before.len() as int, bytes, behind);
    law_read_written(before + bytes + behind, before.len() as int, v);
}

} // verus!

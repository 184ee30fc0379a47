//! Reading and writing in turn settles at once.
use vstd::prelude::*;
use crate::amf3::decode::{array, bare_object, byte_array, date, external_object, items, message, object, pairs,
    lemma_items_advance, lemma_pairs_advance, lemma_text_advances, lemma_traits_advance, text, traits, u29,
    value, xml, Tables};
use crate::amf3::encode::{emit_array, emit_items, emit_message, emit_object, emit_pairs, emit_text, emit_texts, emit_value};
use crate::amf3::laws::{canon, canon_items, canon_pairs, law_read_write};
use crate::amf3::Amf3Tree;
use crate::error::Fault;

verus! {

/// What the wire does not carry makes no difference to what is written.
pub proof fn law_canon_writes_alike(v: Amf3Tree, strings: Seq<Seq<char>>)
    ensures
        emit_value(canon(v), strings) == emit_value(v, strings),
    decreases v,
{
    match v {
        Amf3Tree::Array { assoc, dense } => {
            lemma_pairs_alike(assoc, strings, Fault::Amf3EmptyAssocKey);
            let named = emit_pairs(assoc, strings, Fault::Amf3EmptyAssocKey);
            lemma_items_alike(dense, named.strings);
            assert(emit_array(canon(v), strings) == emit_array(v, strings));
        },
        Amf3Tree::Object {
            class_name,
            dynamic,
            externalizable,
            sealed_names,
            sealed_values,
            dynamic_members,
        } => {
            if !externalizable {
                let class = emit_text(class_name, strings);
                let names = emit_texts(sealed_names, class.strings);
                lemma_items_alike(sealed_values, names.strings);
                let sealed = emit_items(sealed_values, names.strings);
                lemma_pairs_alike(dynamic_members, sealed.strings, Fault::Amf3EmptyDynamicKey);
            }
            assert(emit_object(canon(v), strings) == emit_object(v, strings));
        },
        _ => {},
    }
}

proof fn lemma_items_alike(s: Seq<Amf3Tree>, strings: Seq<Seq<char>>)
    ensures
        canon_items(s).len() == s.len(),
        emit_items(canon_items(s), strings) == emit_items(s, strings),
    decreases s,
{
    if s.len() > 0 {
        law_canon_writes_alike(s[0], strings);
        let head = emit_value(s[0], strings);
        lemma_items_alike(s.drop_first(), head.strings);
        assert(canon_items(s).drop_first() =~= canon_items(s.drop_first()));
    }
}

proof fn lemma_pairs_alike(
    s: Seq<(Seq<char>, Amf3Tree)>,
    strings: Seq<Seq<char>>,
    empty_key: Fault,
)
    ensures
        emit_pairs(canon_pairs(s), strings, empty_key) == emit_pairs(s, strings, empty_key),
    decreases s,
{
    if s.len() > 0 {
        let key = emit_text(s[0].0, strings);
        law_canon_writes_alike(s[0].1, key.strings);
        let head = key.and(emit_value(s[0].1, key.strings));
        lemma_pairs_alike(s.drop_first(), head.strings, empty_key);
        assert(canon_pairs(s).drop_first() =~= canon_pairs(s.drop_first()));
    }
}

/// Every value in the object table is canonical.
spec fn settled(t: Tables) -> bool {
    forall|i: int| 0 <= i < t.objects.len() ==> canon(#[trigger] t.objects[i]) == t.objects[i]
}

proof fn lemma_settled_push(t: Tables, v: Amf3Tree)
    requires
        settled(t),
        canon(v) == v,
    ensures
        settled(t.with_object(v)),
{
    let u = t.with_object(v);
    assert forall|i: int| 0 <= i < u.objects.len() implies canon(#[trigger] u.objects[i])
        == u.objects[i] by {
        if i < t.objects.len() {
            assert(canon(t.objects[i]) == t.objects[i]);
        }
    }
}

proof fn lemma_settled_set(t: Tables, slot: int, v: Amf3Tree)
    requires
        0 <= slot < t.objects.len(),
        settled(t),
        canon(v) == v,
    ensures
        settled(t.set_object(slot, v)),
{
    let u = t.set_object(slot, v);
    assert forall|i: int| 0 <= i < u.objects.len() implies canon(#[trigger] u.objects[i])
        == u.objects[i] by {
        if i != slot {
            assert(canon(t.objects[i]) == t.objects[i]);
        }
    }
}

proof fn lemma_value_settled(data: Seq<u8>, pos: int, t: Tables)
    requires
        settled(t),
    ensures
        value(data, pos, t) matches Ok((v, p, t1)) ==> canon(v) == v && settled(t1),
    decreases data.len() - pos, 0int,
{
    if 0 <= pos < data.len() {
        let marker = data[pos];
        if marker == 0x09 {
            lemma_array_settled(data, pos + 1, t);
        } else if marker == 0x0A {
            lemma_object_settled(data, pos + 1, t);
        } else if marker == 0x07 {
            lemma_xml_settled(data, pos + 1, t, true);
        } else if marker == 0x0B {
            lemma_xml_settled(data, pos + 1, t, false);
        } else if marker == 0x08 || marker == 0x0C {
            lemma_leaf_settled(data, pos + 1, t);
        }
    }
}

proof fn lemma_xml_settled(data: Seq<u8>, pos: int, t: Tables, document: bool)
    requires
        settled(t),
    ensures
        xml(data, pos, t, document) matches Ok((v, p, t1)) ==> canon(v) == v && settled(t1),
{
    if let Ok((v, p, t1)) = xml(data, pos, t, document) {
        lemma_settled_push(t, v);
    }
}

proof fn lemma_leaf_settled(data: Seq<u8>, pos: int, t: Tables)
    requires
        settled(t),
    ensures
        date(data, pos, t) matches Ok((v, p, t1)) ==> canon(v) == v && settled(t1),
        byte_array(data, pos, t) matches Ok((v, p, t1)) ==> canon(v) == v && settled(t1),
{
    if let Ok((v, p, t1)) = date(data, pos, t) {
        lemma_settled_push(t, v);
    }
    if let Ok((v, p, t1)) = byte_array(data, pos, t) {
        lemma_settled_push(t, v);
    }
}

proof fn lemma_array_settled(data: Seq<u8>, pos: int, t: Tables)
    requires
        settled(t),
    ensures
        array(data, pos, t) matches Ok((v, p, t1)) ==> canon(v) == v && settled(t1),
    decreases data.len() - pos, 2int,
{
    if let Ok((u, p)) = u29(data, pos) {
        let hollow = Amf3Tree::Array { assoc: Seq::empty(), dense: Seq::empty() };
        lemma_settled_push(t, hollow);
        lemma_pairs_settled(data, p, t.with_object(hollow));
        lemma_pairs_advance(data, p, t.with_object(hollow));
        if let Ok((assoc, p1, t1)) = pairs(data, p, t.with_object(hollow)) {
            if pos < p1 <= data.len() {
                lemma_items_settled(data, p1, t1, u / 2);
                lemma_items_advance(data, p1, t1, u / 2);
                if let Ok((dense, p2, t2)) = items(data, p1, t1, u / 2) {
                    lemma_settled_set(
                        t2,
                        t.objects.len() as int,
                        Amf3Tree::Array { assoc, dense },
                    );
                }
            }
        }
    }
}

#[verifier::rlimit(30)]
proof fn lemma_object_settled(data: Seq<u8>, pos: int, t: Tables)
    requires
        settled(t),
    ensures
        object(data, pos, t) matches Ok((v, p, t1)) ==> canon(v) == v && settled(t1),
    decreases data.len() - pos, 2int,
{
    if let Ok((u, p)) = u29(data, pos) {
        if u % 2 == 1 {
            lemma_traits_advance(data, p, t, u);
            if let Ok((entry, p1, t1)) = traits(data, p, t, u) {
                assert(settled(t1));
                lemma_settled_push(t1, external_object(entry.class_name));
                if !entry.externalizable && pos < p1 <= data.len() {
                    lemma_settled_push(t1, bare_object(entry));
                    let t2 = t1.with_object(bare_object(entry));
                    let n = entry.sealed_names.len() as int;
                    let slot = t1.objects.len() as int;
                    lemma_items_settled(data, p1, t2, n);
                    lemma_items_advance(data, p1, t2, n);
                    if let Ok((sealed, p2, t3)) = items(data, p1, t2, n) {
                        if pos < p2 <= data.len() {
                            if entry.dynamic {
                                lemma_pairs_settled(data, p2, t3);
                                lemma_pairs_advance(data, p2, t3);
                                if let Ok((members, p3, t4)) = pairs(data, p2, t3) {
                                    let v = Amf3Tree::Object {
                                        class_name: entry.class_name,
                                        dynamic: true,
                                        externalizable: false,
                                        sealed_names: entry.sealed_names,
                                        sealed_values: sealed,
                                        dynamic_members: members,
                                    };
                                    lemma_settled_set(t4, slot, v);
                                }
                            } else {
                                let v = Amf3Tree::Object {
                                    class_name: entry.class_name,
                                    dynamic: false,
                                    externalizable: false,
                                    sealed_names: entry.sealed_names,
                                    sealed_values: sealed,
                                    dynamic_members: Seq::empty(),
                                };
                                lemma_settled_set(t3, slot, v);
                            }
                        }
                    }
                }
            }
        }
    }
}

proof fn lemma_items_settled(data: Seq<u8>, pos: int, t: Tables, count: int)
    requires
        settled(t),
    ensures
        items(data, pos, t, count) matches Ok((v, p, t1)) ==> canon_items(v) == v && settled(t1),
    decreases data.len() - pos, 1int,
{
    if count > 0 {
        lemma_value_settled(data, pos, t);
        if let Ok((v, p, t1)) = value(data, pos, t) {
            if pos < p <= data.len() {
                lemma_items_settled(data, p, t1, count - 1);
                if let Ok((rest, q, t2)) = items(data, p, t1, count - 1) {
                    assert((seq![v] + rest).drop_first() =~= rest);
                }
            }
        }
    }
}

proof fn lemma_pairs_settled(data: Seq<u8>, pos: int, t: Tables)
    requires
        settled(t),
    ensures
        pairs(data, pos, t) matches Ok((v, p, t1)) ==> canon_pairs(v) == v && settled(t1),
    decreases data.len() - pos, 1int,
{
    lemma_text_advances(data, pos, t);
    if let Ok((key, p, t1)) = text(data, pos, t) {
        if key.len() > 0 {
            lemma_value_settled(data, p, t1);
            if let Ok((v, p1, t2)) = value(data, p, t1) {
                if pos < p1 <= data.len() {
                    lemma_pairs_settled(data, p1, t2);
                    if let Ok((rest, q, t3)) = pairs(data, p1, t2) {
                        assert((seq![(key, v)] + rest).drop_first() =~= rest);
                    }
                }
            }
        }
    }
}

/// A value that was read holds nothing that the wire does not carry.
pub proof fn law_read_is_canonical(data: Seq<u8>, pos: int)
    ensures
        message(data, pos) matches Ok((v, p)) ==> canon(v) == v,
{
    lemma_value_settled(data, pos, Tables::empty());
}

/// Whatever was read and can be written again reads back as the same value, to the last byte
/// written, and is then written as the same bytes.
pub proof fn law_read_write_read(data: Seq<u8>, pos: int)
    ensures
        message(data, pos) matches Ok((v, p)) ==> emit_message(v).fault is None ==> message(
            emit_message(v).bytes,
            0,
        ) == Ok::<(Amf3Tree, int), Fault>((v, emit_message(v).bytes.len() as int)),
{
    law_read_is_canonical(data, pos);
    if let Ok((v, p)) = message(data, pos) {
        if emit_message(v).fault is None {
            let bytes = emit_message(v).bytes;
            law_read_write(Seq::empty(), v, Seq::empty());
            assert(Seq::<u8>::empty() + bytes + Seq::<u8>::empty() =~= bytes);
        }
    }
}

/// Writing what was read from a written message reproduces the message.
pub proof fn law_write_read_write(v: Amf3Tree)
    requires
        emit_message(v).fault is None,
    ensures
        message(emit_message(v).bytes, 0) matches Ok((w, p)) && emit_message(w) == emit_message(v),
{
    let bytes = emit_message(v).bytes;
    law_read_write(Seq::empty(), v, Seq::empty());
    assert(Seq::<u8>::empty() + bytes + Seq::<u8>::empty() =~= bytes);
    law_canon_writes_alike(v, Seq::empty());
}

} // verus!

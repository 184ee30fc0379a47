//! What references stand for: each table holds what was sent, in the order in which it was sent,
//! and a reference gives the entry that it counts to.
use vstd::prelude::*;
use crate::amf3::decode::{array, bare_object, byte_array, date, items, lemma_items_advance,
    lemma_pairs_advance, lemma_text_advances, lemma_texts_advance, lemma_traits_advance,
    lemma_u29_bounds, lemma_value_advances, message, object, pairs, text, texts, traits, u29, value,
    xml, Tables, Traits};
use crate::amf3::Amf3Tree;
use crate::double::Double;
use crate::error::Fault;
use crate::wire::u64_at;
use vstd::utf8::*;

verus! {

// ---- numbers ----------------------------------------------------------------

/// A number of one to four bytes: seven bits of each byte whose top bit says that another follows,
/// and all eight of the fourth.
pub proof fn law_number_by_bytes(data: Seq<u8>, pos: int)
    requires
        0 <= pos,
    ensures
        pos < data.len() && data[pos] < 128 ==> u29(data, pos) == Ok::<(int, int), Fault>(
            (data[pos] as int, pos + 1),
        ),
        pos + 1 < data.len() && data[pos] >= 128 && data[pos + 1] < 128 ==> u29(data, pos) == Ok::<
            (int, int),
            Fault,
        >((data[pos] as int % 128 * 128 + data[pos + 1], pos + 2)),
        pos + 2 < data.len() && data[pos] >= 128 && data[pos + 1] >= 128 && data[pos + 2] < 128
            ==> u29(data, pos) == Ok::<(int, int), Fault>(
            (
                (data[pos] as int % 128 * 128 + data[pos + 1] as int % 128) * 128 + data[pos + 2],
                pos + 3,
            ),
        ),
        pos + 3 < data.len() && data[pos] >= 128 && data[pos + 1] >= 128 && data[pos + 2] >= 128
            ==> u29(data, pos) == Ok::<(int, int), Fault>(
            (
                ((data[pos] as int % 128 * 128 + data[pos + 1] as int % 128) * 128 + data[pos + 2]
                    as int % 128) * 256 + data[pos + 3],
                pos + 4,
            ),
        ),
        u29(data, pos) is Err ==> {
            let stop = data.len() - pos;
            stop <= 0 || (stop < 4 && forall|i: int| pos <= i < data.len() ==> #[trigger] data[i]
                >= 128)
        },
{
}

// ---- tables only grow -------------------------------------------------------

/// One table starts with another.
pub open spec fn begins<A>(whole: Seq<A>, part: Seq<A>) -> bool {
    part.len() <= whole.len() && whole.take(part.len() as int) == part
}

/// Nothing that stood in the tables was changed.
pub open spec fn kept(before: Tables, after: Tables) -> bool {
    begins(after.strings, before.strings) && begins(after.objects, before.objects) && begins(
        after.traits,
        before.traits,
    )
}

proof fn lemma_kept_same(t: Tables)
    ensures
        kept(t, t),
{
    assert(t.strings.take(t.strings.len() as int) =~= t.strings);
    assert(t.objects.take(t.objects.len() as int) =~= t.objects);
    assert(t.traits.take(t.traits.len() as int) =~= t.traits);
}

proof fn lemma_begins_trans<A>(a: Seq<A>, b: Seq<A>, c: Seq<A>)
    requires
        begins(b, a),
        begins(c, b),
    ensures
        begins(c, a),
{
    assert(c.take(a.len() as int) =~= c.take(b.len() as int).take(a.len() as int));
}

proof fn lemma_kept_trans(a: Tables, b: Tables, c: Tables)
    requires
        kept(a, b),
        kept(b, c),
    ensures
        kept(a, c),
{
    lemma_begins_trans(a.strings, b.strings, c.strings);
    lemma_begins_trans(a.objects, b.objects, c.objects);
    lemma_begins_trans(a.traits, b.traits, c.traits);
}

proof fn lemma_kept_push(t: Tables, s: Seq<char>, v: Amf3Tree, e: Traits)
    ensures
        kept(t, t.with_string(s)),
        kept(t, t.with_object(v)),
        kept(t, t.with_traits(e)),
{
    lemma_kept_same(t);
    assert(t.strings.push(s).take(t.strings.len() as int) =~= t.strings);
    assert(t.objects.push(v).take(t.objects.len() as int) =~= t.objects);
    assert(t.traits.push(e).take(t.traits.len() as int) =~= t.traits);
}

proof fn lemma_kept_set(t: Tables, after: Tables, slot: int, v: Amf3Tree)
    requires
        kept(t, after),
        t.objects.len() <= slot < after.objects.len(),
    ensures
        kept(t, after.set_object(slot, v)),
{
    let n = t.objects.len() as int;
    assert(after.objects.update(slot, v).take(n) =~= after.objects.take(n));
}

proof fn lemma_text_kept(data: Seq<u8>, pos: int, t: Tables)
    ensures
        text(data, pos, t) matches Ok((s, p, t1)) ==> kept(t, t1),
{
    lemma_kept_same(t);
    if let Ok((s, p, t1)) = text(data, pos, t) {
        lemma_kept_push(t, s, Amf3Tree::Null, Traits {
            class_name: s,
            dynamic: false,
            externalizable: false,
            sealed_names: Seq::empty(),
        });
    }
}

proof fn lemma_texts_kept(data: Seq<u8>, pos: int, t: Tables, count: int)
    ensures
        texts(data, pos, t, count) matches Ok((s, p, t1)) ==> kept(t, t1),
    decreases count,
{
    lemma_kept_same(t);
    if count > 0 {
        if let Ok((s, p, t1)) = text(data, pos, t) {
            lemma_text_kept(data, pos, t);
            lemma_texts_kept(data, p, t1, count - 1);
            if let Ok((rest, q, t2)) = texts(data, p, t1, count - 1) {
                lemma_kept_trans(t, t1, t2);
            }
        }
    }
}

proof fn lemma_traits_kept(data: Seq<u8>, pos: int, t: Tables, u: int)
    ensures
        traits(data, pos, t, u) matches Ok((e, p, t1)) ==> kept(t, t1),
{
    lemma_kept_same(t);
    if u / 2 % 2 != 0 {
        if let Ok((s, p, t1)) = text(data, pos, t) {
            lemma_text_kept(data, pos, t);
            lemma_texts_kept(data, p, t1, u / 16);
            if let Ok((names, q, t2)) = texts(data, p, t1, u / 16) {
                lemma_kept_trans(t, t1, t2);
                if let Ok((e, r, t3)) = traits(data, pos, t, u) {
                    lemma_kept_push(t2, s, Amf3Tree::Null, e);
                    lemma_kept_trans(t, t2, t3);
                }
            }
        }
    }
}

proof fn lemma_leaf_kept(data: Seq<u8>, pos: int, t: Tables)
    ensures
        xml(data, pos, t, true) matches Ok((v, p, t1)) ==> kept(t, t1),
        xml(data, pos, t, false) matches Ok((v, p, t1)) ==> kept(t, t1),
        date(data, pos, t) matches Ok((v, p, t1)) ==> kept(t, t1),
        byte_array(data, pos, t) matches Ok((v, p, t1)) ==> kept(t, t1),
{
    lemma_kept_same(t);
    let e = Traits {
        class_name: Seq::empty(),
        dynamic: false,
        externalizable: false,
        sealed_names: Seq::empty(),
    };
    if let Ok((v, p, t1)) = xml(data, pos, t, true) {
        lemma_kept_push(t, Seq::empty(), v, e);
    }
    if let Ok((v, p, t1)) = xml(data, pos, t, false) {
        lemma_kept_push(t, Seq::empty(), v, e);
    }
    if let Ok((v, p, t1)) = date(data, pos, t) {
        lemma_kept_push(t, Seq::empty(), v, e);
    }
    if let Ok((v, p, t1)) = byte_array(data, pos, t) {
        lemma_kept_push(t, Seq::empty(), v, e);
    }
}

/// Reading a value adds to the tables of a message and leaves what stood in them, so that an index
/// counts the strings, objects and classes that were sent before it, from zero.
#[verifier::rlimit(30)]
pub proof fn law_tables_only_grow(data: Seq<u8>, pos: int, t: Tables)
    ensures
        value(data, pos, t) matches Ok((v, p, t1)) ==> kept(t, t1),
    decreases data.len() - pos, 0int,
{
    lemma_kept_same(t);
    if 0 <= pos < data.len() {
        let marker = data[pos];
        if marker == 0x06 {
            lemma_text_kept(data, pos + 1, t);
        } else if marker == 0x07 || marker == 0x08 || marker == 0x0B || marker == 0x0C {
            lemma_leaf_kept(data, pos + 1, t);
        } else if marker == 0x09 {
            lemma_array_kept(data, pos + 1, t);
        } else if marker == 0x0A {
            lemma_object_kept(data, pos + 1, t);
        }
    }
}

/// An array takes the next place of the object table before its entries are read, and stands there
/// whole when they are.
pub proof fn lemma_array_kept(data: Seq<u8>, pos: int, t: Tables)
    ensures
        array(data, pos, t) matches Ok((v, p, t1)) ==> kept(t, t1) && (u29(data, pos)->Ok_0.0 % 2
            == 1 ==> t1.objects.len() > t.objects.len() && t1.objects[t.objects.len() as int] == v),
    decreases data.len() - pos, 2int,
{
    lemma_kept_same(t);
    lemma_u29_bounds(data, pos);
    if let Ok((u, p)) = u29(data, pos) {
        if u % 2 != 0 {
            let hollow = Amf3Tree::Array { assoc: Seq::empty(), dense: Seq::empty() };
            let t0 = t.with_object(hollow);
            lemma_kept_push(t, Seq::empty(), hollow, Traits {
                class_name: Seq::empty(),
                dynamic: false,
                externalizable: false,
                sealed_names: Seq::empty(),
            });
            lemma_pairs_kept(data, p, t0);
            lemma_pairs_advance(data, p, t0);
            if let Ok((assoc, p1, t1)) = pairs(data, p, t0) {
                lemma_items_kept(data, p1, t1, u / 2);
                if let Ok((dense, p2, t2)) = items(data, p1, t1, u / 2) {
                    lemma_items_advance(data, p1, t1, u / 2);
                    lemma_kept_trans(t0, t1, t2);
                    lemma_kept_trans(t, t0, t2);
                    let v = Amf3Tree::Array { assoc, dense };
                    lemma_kept_set(t, t2, t.objects.len() as int, v);
                }
            }
        }
    }
}

/// An object takes the next place of the object table before its members are read, and stands
/// there whole when they are.
#[verifier::rlimit(40)]
pub proof fn lemma_object_kept(data: Seq<u8>, pos: int, t: Tables)
    ensures
        object(data, pos, t) matches Ok((v, p, t1)) ==> kept(t, t1) && (u29(data, pos)->Ok_0.0 % 2
            == 1 ==> t1.objects.len() > t.objects.len() && t1.objects[t.objects.len() as int] == v),
    decreases data.len() - pos, 2int,
{
    lemma_kept_same(t);
    lemma_u29_bounds(data, pos);
    if let Ok((u, p)) = u29(data, pos) {
        if u % 2 != 0 {
            lemma_traits_kept(data, p, t, u);
            lemma_traits_advance(data, p, t, u);
            if let Ok((entry, p1, t1)) = traits(data, p, t, u) {
                let n = entry.sealed_names.len() as int;
                let slot = t1.objects.len() as int;
                let v0 = crate::amf3::decode::external_object(entry.class_name);
                lemma_kept_push(t1, Seq::empty(), v0, entry);
                lemma_kept_trans(t, t1, t1.with_object(v0));
                lemma_kept_push(t1, Seq::empty(), bare_object(entry), entry);
                let t2 = t1.with_object(bare_object(entry));
                lemma_kept_trans(t, t1, t2);
                if !entry.externalizable {
                    lemma_items_kept(data, p1, t2, n);
                    lemma_items_advance(data, p1, t2, n);
                    if let Ok((sealed, p2, t3)) = items(data, p1, t2, n) {
                        lemma_kept_trans(t, t2, t3);
                        if let Ok((v, q, out)) = object(data, pos, t) {
                            if entry.dynamic {
                                lemma_pairs_kept(data, p2, t3);
                                lemma_pairs_advance(data, p2, t3);
                                if let Ok((members, p3, t4)) = pairs(data, p2, t3) {
                                    lemma_kept_trans(t, t3, t4);
                                    lemma_kept_set(t, t4, slot, v);
                                }
                            } else {
                                lemma_kept_set(t, t3, slot, v);
                            }
                        }
                    }
                }
            }
        }
    }
}

proof fn lemma_items_kept(data: Seq<u8>, pos: int, t: Tables, count: int)
    ensures
        items(data, pos, t, count) matches Ok((v, p, t1)) ==> kept(t, t1),
    decreases data.len() - pos, 1int,
{
    lemma_kept_same(t);
    if count > 0 {
        lemma_value_advances(data, pos, t);
        law_tables_only_grow(data, pos, t);
        if let Ok((v, p, t1)) = value(data, pos, t) {
            lemma_items_kept(data, p, t1, count - 1);
            if let Ok((rest, q, t2)) = items(data, p, t1, count - 1) {
                lemma_kept_trans(t, t1, t2);
            }
        }
    }
}

proof fn lemma_pairs_kept(data: Seq<u8>, pos: int, t: Tables)
    ensures
        pairs(data, pos, t) matches Ok((v, p, t1)) ==> kept(t, t1),
    decreases data.len() - pos, 1int,
{
    lemma_kept_same(t);
    lemma_text_kept(data, pos, t);
    lemma_text_advances(data, pos, t);
    if let Ok((key, p, t1)) = text(data, pos, t) {
        lemma_value_advances(data, p, t1);
        law_tables_only_grow(data, p, t1);
        if let Ok((v, p1, t2)) = value(data, p, t1) {
            lemma_kept_trans(t, t1, t2);
            lemma_pairs_kept(data, p1, t2);
            if let Ok((rest, q, t3)) = pairs(data, p1, t2) {
                lemma_kept_trans(t, t2, t3);
            }
        }
    }
}

// ---- what references give ---------------------------------------------------

/// A string whose number is even is the one that was sent as number `u / 2` before, and the table
/// stays as it is; one whose number is odd is itself the bytes behind, `u / 2` of them, and takes
/// the next place of the table unless it is empty.
pub proof fn law_string_reference(data: Seq<u8>, pos: int, t: Tables)
    requires
        0 <= pos < data.len(),
        data[pos] == 0x06,
        u29(data, pos + 1) is Ok,
    ensures
        ({
            let (u, p) = u29(data, pos + 1)->Ok_0;
            let i = u / 2;
            &&& u % 2 == 0 && i < t.strings.len() ==> value(data, pos, t) == Ok::<
                (Amf3Tree, int, Tables),
                Fault,
            >((Amf3Tree::String(t.strings[i]), p, t))
            &&& u % 2 == 0 && i >= t.strings.len() ==> value(data, pos, t) == Err::<
                (Amf3Tree, int, Tables),
                Fault,
            >(Fault::Amf3StringRefOutOfRange)
            &&& u % 2 == 1 && p + i <= data.len() && valid_utf8(data.subrange(p, p + i)) ==> (value(
                data,
                pos,
                t,
            ) matches Ok((v, q, t1)) && v == Amf3Tree::String(decode_utf8(data.subrange(p, p + i)))
                && q == p + i && t1.objects == t.objects && t1.traits == t.traits && t1.strings == (
            if i == 0 {
                t.strings
            } else {
                t.strings.push(decode_utf8(data.subrange(p, p + i)))
            }))
        }),
{
    lemma_u29_bounds(data, pos + 1);
    let (u, p) = u29(data, pos + 1)->Ok_0;
    let i = u / 2;
    if u % 2 == 1 && p + i <= data.len() {
        let run = data.subrange(p, p + i);
        if valid_utf8(run) {
            decode_utf8_encode_utf8(run);
            crate::text::lemma_utf8_empty(decode_utf8(run));
        }
    }
}

/// The markers of values that may be references, and the kind of entry that each asks for.
pub open spec fn of_kind(marker: u8, v: Amf3Tree) -> bool {
    ||| marker == 0x07 && v is XmlDocument
    ||| marker == 0x08 && v is Date
    ||| marker == 0x09 && v is Array
    ||| marker == 0x0A && v is Object
    ||| marker == 0x0B && v is Xml
    ||| marker == 0x0C && v is ByteArray
}

/// A reference to an object gives the entry of the table that it counts to, where that is of the
/// kind that the marker asks for, and leaves the tables as they are; any other reference is an
/// error.
pub proof fn law_object_reference(data: Seq<u8>, pos: int, t: Tables)
    requires
        0 <= pos < data.len(),
        0x07 <= data[pos] <= 0x0C,
        u29(data, pos + 1) matches Ok((u, p)) && u % 2 == 0,
    ensures
        ({
            let (u, p) = u29(data, pos + 1)->Ok_0;
            let i = u / 2;
            if i < t.objects.len() && of_kind(data[pos], t.objects[i]) {
                value(data, pos, t) == Ok::<(Amf3Tree, int, Tables), Fault>((t.objects[i], p, t))
            } else {
                value(data, pos, t) is Err
            }
        }),
{
}

/// What is sent whole takes the next place of the object table and stands there as it was read.
pub proof fn law_object_is_entered(data: Seq<u8>, pos: int, t: Tables)
    requires
        0 <= pos < data.len(),
        0x07 <= data[pos] <= 0x0C,
        u29(data, pos + 1) matches Ok((u, p)) && u % 2 == 1,
    ensures
        value(data, pos, t) matches Ok((v, q, t1)) ==> {
            &&& of_kind(data[pos], v)
            &&& t1.objects.len() > t.objects.len()
            &&& t1.objects[t.objects.len() as int] == v
        },
{
    lemma_array_kept(data, pos + 1, t);
    lemma_object_kept(data, pos + 1, t);
}

/// The class of an object.
pub open spec fn class_of(v: Amf3Tree, e: Traits) -> bool {
    v matches Amf3Tree::Object {
        class_name,
        dynamic,
        externalizable,
        sealed_names,
        sealed_values,
        dynamic_members,
    } && class_name == e.class_name && externalizable == e.externalizable && (!e.externalizable
        ==> dynamic == e.dynamic && sealed_names == e.sealed_names && sealed_values.len()
        == e.sealed_names.len() && (!e.dynamic ==> dynamic_members.len() == 0))
}

/// An object whose class is a reference is of the class that was declared as number `u / 4` before:
/// it has its name, its names of members, and a value for each. No class is entered for it before
/// its members are read.
pub proof fn law_class_reference(data: Seq<u8>, pos: int, t: Tables)
    requires
        0 <= pos < data.len(),
        data[pos] == 0x0A,
        u29(data, pos + 1) matches Ok((u, p)) && u % 4 == 1,
    ensures
        ({
            let u = u29(data, pos + 1)->Ok_0.0;
            let i = u / 4;
            &&& i >= t.traits.len() ==> value(data, pos, t) == Err::<
                (Amf3Tree, int, Tables),
                Fault,
            >(Fault::Amf3TraitsRefOutOfRange)
            &&& value(data, pos, t) matches Ok((v, q, t1)) ==> i < t.traits.len() && class_of(
                v,
                t.traits[i],
            )
        }),
{
    let (u, p) = u29(data, pos + 1)->Ok_0;
    assert(u % 2 == 1 && u / 2 % 2 == 0);
    lemma_u29_bounds(data, pos + 1);
    if let Ok((entry, p1, t1)) = traits(data, p, t, u) {
        lemma_traits_advance(data, p, t, u);
        if !entry.externalizable {
            lemma_items_advance(
                data,
                p1,
                t1.with_object(bare_object(entry)),
                entry.sealed_names.len() as int,
            );
        }
    }
}

/// An object that declares its class enters it in the next place of the table of classes: the name
/// that stands first, whether there are members by name, whether the class reads itself, and as many
/// names of members as the number says, which are those of the object.
pub proof fn law_class_is_entered(data: Seq<u8>, pos: int, t: Tables)
    requires
        0 <= pos < data.len(),
        data[pos] == 0x0A,
        u29(data, pos + 1) matches Ok((u, p)) && u % 4 == 3,
    ensures
        value(data, pos, t) matches Ok((v, q, t1)) ==> ({
            let (u, p) = u29(data, pos + 1)->Ok_0;
            let n = t.traits.len() as int;
            &&& t1.traits.len() > n
            &&& class_of(v, t1.traits[n])
            &&& t1.traits[n].externalizable <==> u / 4 % 2 == 1
            &&& t1.traits[n].dynamic <==> u / 8 % 2 == 1
            &&& t1.traits[n].sealed_names.len() == u / 16
            &&& text(data, p, t) matches Ok((name, p1, t2)) && t1.traits[n].class_name == name
                && (texts(data, p1, t2, u / 16) matches Ok((names, p2, t3))
                && t1.traits[n].sealed_names == names)
        }),
{
    let (u, p) = u29(data, pos + 1)->Ok_0;
    assert(u % 2 == 1 && u / 2 % 2 == 1);
    lemma_u29_bounds(data, pos + 1);
    if let Ok((entry, p1, t1)) = traits(data, p, t, u) {
        lemma_traits_advance(data, p, t, u);
        let (name, a, ta) = text(data, p, t)->Ok_0;
        lemma_text_advances(data, p, t);
        lemma_texts_advance(data, a, ta, u / 16);
        let n = t.traits.len() as int;
        assert(t1.traits.len() == n + 1 && t1.traits[n] == entry);
        if let Ok((v, q, out)) = value(data, pos, t) {
            if !entry.externalizable {
                let t2 = t1.with_object(bare_object(entry));
                let k = entry.sealed_names.len() as int;
                lemma_items_advance(data, p1, t2, k);
                lemma_items_kept(data, p1, t2, k);
                let (sealed, p2, t3) = items(data, p1, t2, k)->Ok_0;
                assert(t3.traits.take(n + 1)[n] == entry);
                if entry.dynamic {
                    lemma_pairs_kept(data, p2, t3);
                    let t4 = pairs(data, p2, t3)->Ok_0.2;
                    assert(t4.traits.take(t3.traits.len() as int)[n] == entry);
                }
            }
        }
    }
}

// ---- values that are no references ------------------------------------------

/// Values that refer to nothing, by their bytes.
pub proof fn law_simple_values_by_bytes(data: Seq<u8>, pos: int, t: Tables)
    requires
        0 <= pos < data.len(),
    ensures
        data[pos] == 0x00 ==> value(data, pos, t) == Ok::<(Amf3Tree, int, Tables), Fault>(
            (Amf3Tree::Undefined, pos + 1, t),
        ),
        data[pos] == 0x01 ==> value(data, pos, t) == Ok::<(Amf3Tree, int, Tables), Fault>(
            (Amf3Tree::Null, pos + 1, t),
        ),
        data[pos] == 0x02 ==> value(data, pos, t) == Ok::<(Amf3Tree, int, Tables), Fault>(
            (Amf3Tree::Boolean(false), pos + 1, t),
        ),
        data[pos] == 0x03 ==> value(data, pos, t) == Ok::<(Amf3Tree, int, Tables), Fault>(
            (Amf3Tree::Boolean(true), pos + 1, t),
        ),
        data[pos] == 0x04 ==> (u29(data, pos + 1) matches Ok((u, p)) ==> value(data, pos, t) == Ok::<
            (Amf3Tree, int, Tables),
            Fault,
        >(
            (
                Amf3Tree::Integer(
                    (if u >= 0x1000_0000 {
                        u - 0x2000_0000
                    } else {
                        u
                    }) as i32,
                ),
                p,
                t,
            ),
        )),
        data[pos] == 0x05 && pos + 9 <= data.len() ==> value(data, pos, t) == Ok::<
            (Amf3Tree, int, Tables),
            Fault,
        >((Amf3Tree::Double(Double { bits: u64_at(data, pos + 1) }), pos + 9, t)),
        data[pos] > 0x0C ==> value(data, pos, t) == Err::<(Amf3Tree, int, Tables), Fault>(
            Fault::Amf3UnknownMarker,
        ),
{
}

/// Texts, times and bytes that are sent whole, by their bytes.
pub proof fn law_whole_values_by_bytes(data: Seq<u8>, pos: int, t: Tables)
    requires
        0 <= pos < data.len(),
        u29(data, pos + 1) matches Ok((u, p)) && u % 2 == 1,
    ensures
        ({
            let (u, p) = u29(data, pos + 1)->Ok_0;
            let n = u / 2;
            let run = data.subrange(p, p + n);
            &&& data[pos] == 0x07 && p + n <= data.len() && valid_utf8(run) ==> value(data, pos, t)
                == Ok::<(Amf3Tree, int, Tables), Fault>(
                (
                    Amf3Tree::XmlDocument(decode_utf8(run)),
                    p + n,
                    t.with_object(Amf3Tree::XmlDocument(decode_utf8(run))),
                ),
            )
            &&& data[pos] == 0x0B && p + n <= data.len() && valid_utf8(run) ==> value(data, pos, t)
                == Ok::<(Amf3Tree, int, Tables), Fault>(
                (
                    Amf3Tree::Xml(decode_utf8(run)),
                    p + n,
                    t.with_object(Amf3Tree::Xml(decode_utf8(run))),
                ),
            )
            &&& data[pos] == 0x0C && p + n <= data.len() ==> value(data, pos, t) == Ok::<
                (Amf3Tree, int, Tables),
                Fault,
            >((Amf3Tree::ByteArray(run), p + n, t.with_object(Amf3Tree::ByteArray(run))))
            &&& data[pos] == 0x08 && p + 8 <= data.len() ==> ({
                let v = Amf3Tree::Date(Double { bits: u64_at(data, p) });
                value(data, pos, t) == Ok::<(Amf3Tree, int, Tables), Fault>(
                    (v, p + 8, t.with_object(v)),
                )
            })
        }),
{
}

/// An array is values by name, up to an empty name, and then as many values as the number says, each
/// read behind the one before.
pub proof fn law_array_by_bytes(data: Seq<u8>, pos: int, t: Tables)
    requires
        0 <= pos < data.len(),
        data[pos] == 0x09,
        u29(data, pos + 1) matches Ok((u, p)) && u % 2 == 1,
    ensures
        value(data, pos, t) matches Ok((v, q, t1)) ==> ({
            let (u, p) = u29(data, pos + 1)->Ok_0;
            let hollow = Amf3Tree::Array { assoc: Seq::empty(), dense: Seq::empty() };
            &&& v is Array
            &&& v->dense.len() == u / 2
            &&& pairs(data, p, t.with_object(hollow)) matches Ok((assoc, p1, t2)) && v->assoc
                == assoc && (items(data, p1, t2, u / 2) matches Ok((dense, p2, t3)) && v->dense
                == dense && q == p2)
        }),
{
    lemma_u29_bounds(data, pos + 1);
    let (u, p) = u29(data, pos + 1)->Ok_0;
    let hollow = Amf3Tree::Array { assoc: Seq::empty(), dense: Seq::empty() };
    if let Ok((assoc, p1, t2)) = pairs(data, p, t.with_object(hollow)) {
        lemma_pairs_advance(data, p, t.with_object(hollow));
        lemma_items_advance(data, p1, t2, u / 2);
    }
}

/// Values one behind another: the first is where they start, and the rest are behind it.
pub proof fn law_items_in_order(data: Seq<u8>, pos: int, t: Tables, count: int)
    requires
        count > 0,
    ensures
        items(data, pos, t, count) matches Ok((s, q, t2)) ==> s.len() == count && (value(data, pos, t)
            matches Ok((v, p, t1)) && s[0] == v && items(data, p, t1, count - 1) == Ok::<
            (Seq<Amf3Tree>, int, Tables),
            Fault,
        >((s.drop_first(), q, t2))),
    decreases count,
{
    if let Ok((s, q, t2)) = items(data, pos, t, count) {
        let (v, p, t1) = value(data, pos, t)->Ok_0;
        let rest = items(data, p, t1, count - 1)->Ok_0.0;
        assert((seq![v] + rest).drop_first() =~= rest);
        if count > 1 {
            law_items_in_order(data, p, t1, count - 1);
        } else {
            assert(rest.len() == 0);
        }
    }
}

/// Values by name, one behind another, up to an empty name.
pub proof fn law_pairs_in_order(data: Seq<u8>, pos: int, t: Tables)
    ensures
        pairs(data, pos, t) matches Ok((s, q, t3)) ==> (text(data, pos, t) matches Ok((key, p, t1))
            && if key.len() == 0 {
            s.len() == 0 && q == p && t3 == t1
        } else {
            s.len() > 0 && s[0].0 == key && (value(data, p, t1) matches Ok((v, p1, t2)) && s[0].1
                == v && pairs(data, p1, t2) == Ok::<
                (Seq<(Seq<char>, Amf3Tree)>, int, Tables),
                Fault,
            >((s.drop_first(), q, t3)))
        }),
{
    if let Ok((s, q, t3)) = pairs(data, pos, t) {
        let (key, p, t1) = text(data, pos, t)->Ok_0;
        if key.len() > 0 {
            let (v, p1, t2) = value(data, p, t1)->Ok_0;
            let rest = pairs(data, p1, t2)->Ok_0.0;
            assert((seq![(key, v)] + rest).drop_first() =~= rest);
        }
    }
}

/// A message starts with empty tables.
pub proof fn law_message_starts_afresh(data: Seq<u8>, pos: int)
    ensures
        message(data, pos) == (match value(
            data,
            pos,
            Tables { strings: Seq::empty(), objects: Seq::empty(), traits: Seq::empty() },
        ) {
            Ok((v, p, t)) => Ok((v, p)),
            Err(f) => Err(f),
        }),
{
}

} // verus!

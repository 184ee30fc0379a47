//! Reading AMF3.
use vstd::prelude::*;
use vstd::string::*;
use vstd::utf8::*;
use crate::amf3::{clone_texts, items_view, lemma_items_push, lemma_pairs_push, lemma_texts_push,
    pairs_view, texts_view, Amf3Array, Amf3Object, Amf3Tree, Amf3Value, U29_MAX};
use crate::double::Double;
use crate::error::{Error, Fault};
use crate::text::text_of_bytes;
use crate::wire::{copy_range, read_u64, u64_at};

verus! {

// ---- the grammar ----------------------------------------------------------

/// A class layout: what an object's members are called and how they are laid out.
pub struct Traits {
    pub class_name: Seq<char>,
    pub dynamic: bool,
    pub externalizable: bool,
    pub sealed_names: Seq<Seq<char>>,
}

/// The three tables of a message.
#[verifier::ext_equal]
pub struct Tables {
    pub strings: Seq<Seq<char>>,
    pub objects: Seq<Amf3Tree>,
    pub traits: Seq<Traits>,
}

impl Tables {
    /// The tables at the start of a message.
    pub open spec fn empty() -> Tables {
        Tables { strings: Seq::empty(), objects: Seq::empty(), traits: Seq::empty() }
    }

    pub open spec fn with_string(self, s: Seq<char>) -> Tables {
        Tables { strings: self.strings.push(s), ..self }
    }

    pub open spec fn with_object(self, v: Amf3Tree) -> Tables {
        Tables { objects: self.objects.push(v), ..self }
    }

    pub open spec fn with_traits(self, t: Traits) -> Tables {
        Tables { traits: self.traits.push(t), ..self }
    }

    pub open spec fn set_object(self, slot: int, v: Amf3Tree) -> Tables {
        Tables { objects: self.objects.update(slot, v), ..self }
    }
}

/// A variable-length integer at `pos`: seven bits in each byte that is followed by another, all
/// eight in the fourth.
pub open spec fn u29(data: Seq<u8>, pos: int) -> Result<(int, int), Fault> {
    if !(0 <= pos < data.len()) {
        Err(Fault::Amf3TruncatedValue)
    } else if data[pos] < 128 {
        Ok((data[pos] as int, pos + 1))
    } else if pos + 1 >= data.len() {
        Err(Fault::Amf3TruncatedValue)
    } else if data[pos + 1] < 128 {
        Ok(((data[pos] - 128) * 128 + data[pos + 1], pos + 2))
    } else if pos + 2 >= data.len() {
        Err(Fault::Amf3TruncatedValue)
    } else if data[pos + 2] < 128 {
        Ok(
            (
                (data[pos] - 128) * 16384 + (data[pos + 1] - 128) * 128 + data[pos + 2],
                pos + 3,
            ),
        )
    } else if pos + 3 >= data.len() {
        Err(Fault::Amf3TruncatedValue)
    } else {
        Ok(
            (
                (data[pos] - 128) * 0x40_0000 + (data[pos + 1] - 128) * 0x8000 + (data[pos + 2]
                    - 128) * 256 + data[pos + 3],
                pos + 4,
            ),
        )
    }
}

/// 29 bits as a signed integer.
pub open spec fn signed29(u: int) -> int {
    if u < 0x1000_0000 {
        u
    } else {
        u - 0x2000_0000
    }
}

/// `len` bytes of UTF-8 at `pos`.
pub open spec fn utf8_run(data: Seq<u8>, pos: int, len: int) -> Result<Seq<char>, Fault> {
    if pos + len > data.len() {
        Err(Fault::Amf3TruncatedText)
    } else if !valid_utf8(data.subrange(pos, pos + len)) {
        Err(Fault::Amf3TextNotUtf8)
    } else {
        Ok(decode_utf8(data.subrange(pos, pos + len)))
    }
}

/// Text: an index into the string table, or the text itself, which joins the table unless it
/// is empty.
pub open spec fn text(data: Seq<u8>, pos: int, t: Tables) -> Result<
    (Seq<char>, int, Tables),
    Fault,
> {
    match u29(data, pos) {
        Err(f) => Err(f),
        Ok((u, p)) => if u % 2 == 0 {
            if u / 2 < t.strings.len() {
                Ok((t.strings[u / 2], p, t))
            } else {
                Err(Fault::Amf3StringRefOutOfRange)
            }
        } else {
            match utf8_run(data, p, u / 2) {
                Err(f) => Err(f),
                Ok(s) => Ok(
                    (
                        s,
                        p + u / 2,
                        if s.len() == 0 {
                            t
                        } else {
                            t.with_string(s)
                        },
                    ),
                ),
            }
        },
    }
}

/// `count` texts.
pub open spec fn texts(data: Seq<u8>, pos: int, t: Tables, count: int) -> Result<
    (Seq<Seq<char>>, int, Tables),
    Fault,
>
    decreases count,
{
    if count <= 0 {
        Ok((Seq::empty(), pos, t))
    } else {
        match text(data, pos, t) {
            Err(f) => Err(f),
            Ok((s, p, t1)) => match texts(data, p, t1, count - 1) {
                Err(f) => Err(f),
                Ok((rest, q, t2)) => Ok((seq![s] + rest, q, t2)),
            },
        }
    }
}

/// A body of XML: an index into the object table, where an entry of the same kind must stand,
/// or the text itself, which joins the table.
pub open spec fn xml(data: Seq<u8>, pos: int, t: Tables, document: bool) -> Result<
    (Amf3Tree, int, Tables),
    Fault,
> {
    match u29(data, pos) {
        Err(f) => Err(f),
        Ok((u, p)) => if u % 2 == 0 {
            if u / 2 >= t.objects.len() {
                Err(Fault::Amf3ObjectRefOutOfRange)
            } else if if document {
                t.objects[u / 2] is XmlDocument
            } else {
                t.objects[u / 2] is Xml
            } {
                Ok((t.objects[u / 2], p, t))
            } else {
                Err(Fault::Amf3ObjectRefWrongType)
            }
        } else {
            match utf8_run(data, p, u / 2) {
                Err(f) => Err(f),
                Ok(s) => {
                    let v = if document {
                        Amf3Tree::XmlDocument(s)
                    } else {
                        Amf3Tree::Xml(s)
                    };
                    Ok((v, p + u / 2, t.with_object(v)))
                },
            }
        },
    }
}

/// A date: an index into the object table, or a number of milliseconds.
pub open spec fn date(data: Seq<u8>, pos: int, t: Tables) -> Result<(Amf3Tree, int, Tables), Fault> {
    match u29(data, pos) {
        Err(f) => Err(f),
        Ok((u, p)) => if u % 2 == 0 {
            if u / 2 >= t.objects.len() {
                Err(Fault::Amf3DateRefOutOfRange)
            } else if t.objects[u / 2] is Date {
                Ok((t.objects[u / 2], p, t))
            } else {
                Err(Fault::Amf3DateRefWrongType)
            }
        } else if p + 8 > data.len() {
            Err(Fault::Amf3TruncatedDouble)
        } else {
            let v = Amf3Tree::Date(Double { bits: u64_at(data, p) });
            Ok((v, p + 8, t.with_object(v)))
        },
    }
}

/// A byte array: an index into the object table, or the bytes themselves.
pub open spec fn byte_array(data: Seq<u8>, pos: int, t: Tables) -> Result<
    (Amf3Tree, int, Tables),
    Fault,
> {
    match u29(data, pos) {
        Err(f) => Err(f),
        Ok((u, p)) => if u % 2 == 0 {
            if u / 2 >= t.objects.len() {
                Err(Fault::Amf3BytesRefOutOfRange)
            } else if t.objects[u / 2] is ByteArray {
                Ok((t.objects[u / 2], p, t))
            } else {
                Err(Fault::Amf3BytesRefWrongType)
            }
        } else if p + u / 2 > data.len() {
            Err(Fault::Amf3TruncatedBytes)
        } else {
            let v = Amf3Tree::ByteArray(data.subrange(p, p + u / 2));
            Ok((v, p + u / 2, t.with_object(v)))
        },
    }
}

/// The class layout that an object header `u` announces: an index into the traits table, or a
/// class name and the names of the declared members.
pub open spec fn traits(data: Seq<u8>, pos: int, t: Tables, u: int) -> Result<
    (Traits, int, Tables),
    Fault,
> {
    if u / 2 % 2 == 0 {
        if u / 4 < t.traits.len() {
            Ok((t.traits[u / 4], pos, t))
        } else {
            Err(Fault::Amf3TraitsRefOutOfRange)
        }
    } else {
        let externalizable = u / 4 % 2 == 1;
        match text(data, pos, t) {
            Err(f) => Err(f),
            Ok((class_name, p, t1)) => if externalizable && u / 16 != 0 {
                Err(Fault::Amf3ExternalizableWithSealed)
            } else {
                match texts(data, p, t1, u / 16) {
                    Err(f) => Err(f),
                    Ok((sealed_names, q, t2)) => {
                        let entry = Traits {
                            class_name,
                            dynamic: u / 8 % 2 == 1,
                            externalizable,
                            sealed_names,
                        };
                        Ok((entry, q, t2.with_traits(entry)))
                    },
                }
            },
        }
    }
}

/// An object of the class `entry` with no members yet.
pub open spec fn bare_object(entry: Traits) -> Amf3Tree {
    Amf3Tree::Object {
        class_name: entry.class_name,
        dynamic: entry.dynamic,
        externalizable: entry.externalizable,
        sealed_names: entry.sealed_names,
        sealed_values: Seq::empty(),
        dynamic_members: Seq::empty(),
    }
}

/// An object whose class writes its own body: only the class name is known.
pub open spec fn external_object(class_name: Seq<char>) -> Amf3Tree {
    Amf3Tree::Object {
        class_name,
        dynamic: false,
        externalizable: true,
        sealed_names: Seq::empty(),
        sealed_values: Seq::empty(),
        dynamic_members: Seq::empty(),
    }
}

/// One value at `pos`.
///
/// A value always ends behind its start (`lemma_value_advances`). The tests for that in
/// `items` and `pairs` always hold; they are there so that the recursion is seen to end.
pub open spec fn value(data: Seq<u8>, pos: int, t: Tables) -> Result<(Amf3Tree, int, Tables), Fault>
    decreases data.len() - pos, 0int,
{
    if !(0 <= pos < data.len()) {
        Err(Fault::Amf3TruncatedValue)
    } else {
        let marker = data[pos];
        if marker == 0x00 {
            Ok((Amf3Tree::Undefined, pos + 1, t))
        } else if marker == 0x01 {
            Ok((Amf3Tree::Null, pos + 1, t))
        } else if marker == 0x02 {
            Ok((Amf3Tree::Boolean(false), pos + 1, t))
        } else if marker == 0x03 {
            Ok((Amf3Tree::Boolean(true), pos + 1, t))
        } else if marker == 0x04 {
            match u29(data, pos + 1) {
                Err(f) => Err(f),
                Ok((u, p)) => Ok((Amf3Tree::Integer(signed29(u) as i32), p, t)),
            }
        } else if marker == 0x05 {
            if pos + 9 > data.len() {
                Err(Fault::Amf3TruncatedDouble)
            } else {
                Ok((Amf3Tree::Double(Double { bits: u64_at(data, pos + 1) }), pos + 9, t))
            }
        } else if marker == 0x06 {
            match text(data, pos + 1, t) {
                Err(f) => Err(f),
                Ok((s, p, t1)) => Ok((Amf3Tree::String(s), p, t1)),
            }
        } else if marker == 0x07 {
            xml(data, pos + 1, t, true)
        } else if marker == 0x08 {
            date(data, pos + 1, t)
        } else if marker == 0x09 {
            array(data, pos + 1, t)
        } else if marker == 0x0A {
            object(data, pos + 1, t)
        } else if marker == 0x0B {
            xml(data, pos + 1, t, false)
        } else if marker == 0x0C {
            byte_array(data, pos + 1, t)
        } else {
            Err(Fault::Amf3UnknownMarker)
        }
    }
}

/// An array: an index into the object table, or named values up to an empty name and then as
/// many values as the header says. Its place in the object table is taken before its entries
/// are read.
pub open spec fn array(data: Seq<u8>, pos: int, t: Tables) -> Result<(Amf3Tree, int, Tables), Fault>
    decreases data.len() - pos, 2int,
{
    match u29(data, pos) {
        Err(f) => Err(f),
        Ok((u, p)) => if u % 2 == 0 {
            if u / 2 >= t.objects.len() {
                Err(Fault::Amf3ArrayRefOutOfRange)
            } else if t.objects[u / 2] is Array {
                Ok((t.objects[u / 2], p, t))
            } else {
                Err(Fault::Amf3ArrayRefWrongType)
            }
        } else {
            let slot = t.objects.len() as int;
            let hollow = Amf3Tree::Array { assoc: Seq::empty(), dense: Seq::empty() };
            match pairs(data, p, t.with_object(hollow)) {
                Err(f) => Err(f),
                Ok((assoc, p1, t1)) => if !(pos < p1 <= data.len()) {
                    Err(Fault::Amf3TruncatedValue)
                } else {
                    match items(data, p1, t1, u / 2) {
                        Err(f) => Err(f),
                        Ok((dense, p2, t2)) => {
                            let v = Amf3Tree::Array { assoc, dense };
                            Ok((v, p2, t2.set_object(slot, v)))
                        },
                    }
                },
            }
        },
    }
}

/// An object: an index into the object table, or a class layout and the members that it calls
/// for. Its place in the object table is taken before its members are read.
pub open spec fn object(data: Seq<u8>, pos: int, t: Tables) -> Result<
    (Amf3Tree, int, Tables),
    Fault,
>
    decreases data.len() - pos, 2int,
{
    match u29(data, pos) {
        Err(f) => Err(f),
        Ok((u, p)) => if u % 2 == 0 {
            if u / 2 >= t.objects.len() {
                Err(Fault::Amf3ObjectRefOutOfRange)
            } else if t.objects[u / 2] is Object {
                Ok((t.objects[u / 2], p, t))
            } else {
                Err(Fault::Amf3ObjectRefWrongType)
            }
        } else {
            match traits(data, p, t, u) {
                Err(f) => Err(f),
                Ok((entry, p1, t1)) => {
                    let slot = t1.objects.len() as int;
                    if entry.externalizable {
                        let v = external_object(entry.class_name);
                        Ok((v, p1, t1.with_object(v)))
                    } else if !(pos < p1 <= data.len()) {
                        Err(Fault::Amf3TruncatedValue)
                    } else {
                        match items(
                            data,
                            p1,
                            t1.with_object(bare_object(entry)),
                            entry.sealed_names.len() as int,
                        ) {
                            Err(f) => Err(f),
                            Ok((sealed_values, p2, t2)) => if !(pos < p2 <= data.len()) {
                                Err(Fault::Amf3TruncatedValue)
                            } else if !entry.dynamic {
                                let v = Amf3Tree::Object {
                                    class_name: entry.class_name,
                                    dynamic: false,
                                    externalizable: false,
                                    sealed_names: entry.sealed_names,
                                    sealed_values,
                                    dynamic_members: Seq::empty(),
                                };
                                Ok((v, p2, t2.set_object(slot, v)))
                            } else {
                                match pairs(data, p2, t2) {
                                    Err(f) => Err(f),
                                    Ok((dynamic_members, p3, t3)) => {
                                        let v = Amf3Tree::Object {
                                            class_name: entry.class_name,
                                            dynamic: true,
                                            externalizable: false,
                                            sealed_names: entry.sealed_names,
                                            sealed_values,
                                            dynamic_members,
                                        };
                                        Ok((v, p3, t3.set_object(slot, v)))
                                    },
                                }
                            },
                        }
                    }
                },
            }
        },
    }
}

/// `count` values.
pub open spec fn items(data: Seq<u8>, pos: int, t: Tables, count: int) -> Result<
    (Seq<Amf3Tree>, int, Tables),
    Fault,
>
    decreases data.len() - pos, 1int,
{
    if count <= 0 {
        Ok((Seq::empty(), pos, t))
    } else {
        match value(data, pos, t) {
            Err(f) => Err(f),
            Ok((v, p, t1)) => if !(pos < p <= data.len()) {
                Err(Fault::Amf3TruncatedValue)
            } else {
                match items(data, p, t1, count - 1) {
                    Err(f) => Err(f),
                    Ok((rest, q, t2)) => Ok((seq![v] + rest, q, t2)),
                }
            },
        }
    }
}

/// Named values, up to an empty name.
pub open spec fn pairs(data: Seq<u8>, pos: int, t: Tables) -> Result<
    (Seq<(Seq<char>, Amf3Tree)>, int, Tables),
    Fault,
>
    decreases data.len() - pos, 1int,
{
    match text(data, pos, t) {
        Err(f) => Err(f),
        Ok((key, p, t1)) => if key.len() == 0 {
            Ok((Seq::empty(), p, t1))
        } else {
            match value(data, p, t1) {
                Err(f) => Err(f),
                Ok((v, p1, t2)) => if !(pos < p1 <= data.len()) {
                    Err(Fault::Amf3TruncatedValue)
                } else {
                    match pairs(data, p1, t2) {
                        Err(f) => Err(f),
                        Ok((rest, q, t3)) => Ok((seq![(key, v)] + rest, q, t3)),
                    }
                },
            }
        },
    }
}

/// The value that a message starting at `pos` holds, and where it ends.
pub open spec fn message(data: Seq<u8>, pos: int) -> Result<(Amf3Tree, int), Fault> {
    match value(data, pos, Tables::empty()) {
        Err(f) => Err(f),
        Ok((v, p, _)) => Ok((v, p)),
    }
}

// ---- positions and tables only grow ----------------------------------------

/// A variable-length integer takes one to four bytes and has at most 29 bits.
pub proof fn lemma_u29_bounds(data: Seq<u8>, pos: int)
    ensures
        u29(data, pos) matches Ok((u, p)) ==> 0 <= u <= U29_MAX && pos < p <= pos + 4 && p
            <= data.len(),
{
}

/// Text ends behind its start and inside the input.
pub proof fn lemma_text_advances(data: Seq<u8>, pos: int, t: Tables)
    ensures
        text(data, pos, t) matches Ok((s, p, t1)) ==> pos < p <= data.len() && t1.objects
            == t.objects && t1.traits == t.traits,
{
}

/// A run of texts ends inside the input.
pub proof fn lemma_texts_advance(data: Seq<u8>, pos: int, t: Tables, count: int)
    requires
        pos <= data.len(),
    ensures
        texts(data, pos, t, count) matches Ok((s, p, t1)) ==> pos <= p <= data.len() && s.len() == (
        if count <= 0 {
            0
        } else {
            count
        }) && t1.objects == t.objects && t1.traits == t.traits,
    decreases count,
{
    if count > 0 {
        if let Ok((s, p, t1)) = text(data, pos, t) {
            lemma_text_advances(data, pos, t);
            lemma_texts_advance(data, p, t1, count - 1);
        }
    }
}

/// A class layout ends inside the input.
pub proof fn lemma_traits_advance(data: Seq<u8>, pos: int, t: Tables, u: int)
    requires
        pos <= data.len(),
    ensures
        traits(data, pos, t, u) matches Ok((e, p, t1)) ==> pos <= p <= data.len() && t1.objects
            == t.objects,
{
    if let Ok((s, p, t1)) = text(data, pos, t) {
        lemma_text_advances(data, pos, t);
        lemma_texts_advance(data, p, t1, u / 16);
    }
}

/// Bodies without values inside end behind their start and inside the input.
proof fn lemma_leaf_advances(data: Seq<u8>, pos: int, t: Tables)
    ensures
        xml(data, pos, t, true) matches Ok((v, p, t1)) ==> pos < p <= data.len() && t.objects.len()
            <= t1.objects.len(),
        xml(data, pos, t, false) matches Ok((v, p, t1)) ==> pos < p <= data.len()
            && t.objects.len() <= t1.objects.len(),
        date(data, pos, t) matches Ok((v, p, t1)) ==> pos < p <= data.len() && t.objects.len()
            <= t1.objects.len(),
        byte_array(data, pos, t) matches Ok((v, p, t1)) ==> pos < p <= data.len()
            && t.objects.len() <= t1.objects.len(),
{
    lemma_u29_bounds(data, pos);
}

/// A value ends behind its start and inside the input, and the object table only grows.
#[verifier::rlimit(30)]
pub proof fn lemma_value_advances(data: Seq<u8>, pos: int, t: Tables)
    ensures
        value(data, pos, t) matches Ok((v, p, t1)) ==> pos < p <= data.len() && t.objects.len()
            <= t1.objects.len(),
    decreases data.len() - pos, 0int,
{
    if 0 <= pos < data.len() {
        let marker = data[pos];
        if marker == 0x04 {
            lemma_u29_bounds(data, pos + 1);
        } else if marker == 0x06 {
            lemma_text_advances(data, pos + 1, t);
        } else if marker == 0x07 || marker == 0x08 || marker == 0x0B || marker == 0x0C {
            lemma_leaf_advances(data, pos + 1, t);
        } else if marker == 0x09 {
            lemma_array_advances(data, pos + 1, t);
        } else if marker == 0x0A {
            lemma_object_advances(data, pos + 1, t);
        }
    }
}

pub proof fn lemma_array_advances(data: Seq<u8>, pos: int, t: Tables)
    ensures
        array(data, pos, t) matches Ok((v, p, t1)) ==> pos < p <= data.len() && t.objects.len()
            <= t1.objects.len(),
    decreases data.len() - pos, 2int,
{
    lemma_u29_bounds(data, pos);
    if let Ok((u, p)) = u29(data, pos) {
        let hollow = Amf3Tree::Array { assoc: Seq::empty(), dense: Seq::empty() };
        lemma_pairs_advance(data, p, t.with_object(hollow));
        if let Ok((assoc, p1, t1)) = pairs(data, p, t.with_object(hollow)) {
            lemma_items_advance(data, p1, t1, u / 2);
        }
    }
}

pub proof fn lemma_object_advances(data: Seq<u8>, pos: int, t: Tables)
    ensures
        object(data, pos, t) matches Ok((v, p, t1)) ==> pos < p <= data.len() && t.objects.len()
            <= t1.objects.len(),
    decreases data.len() - pos, 2int,
{
    lemma_u29_bounds(data, pos);
    if let Ok((u, p)) = u29(data, pos) {
        lemma_traits_advance(data, p, t, u);
        if let Ok((entry, p1, t1)) = traits(data, p, t, u) {
            let t2 = t1.with_object(bare_object(entry));
            let n = entry.sealed_names.len() as int;
            lemma_items_advance(data, p1, t2, n);
            if let Ok((sealed, p2, t3)) = items(data, p1, t2, n) {
                lemma_pairs_advance(data, p2, t3);
            }
        }
    }
}

pub proof fn lemma_items_advance(data: Seq<u8>, pos: int, t: Tables, count: int)
    requires
        pos <= data.len(),
    ensures
        items(data, pos, t, count) matches Ok((v, p, t1)) ==> pos <= p <= data.len()
            && t.objects.len() <= t1.objects.len() && v.len() == (if count <= 0 {
            0
        } else {
            count
        }),
    decreases data.len() - pos, 1int,
{
    if count > 0 {
        lemma_value_advances(data, pos, t);
        if let Ok((v, p, t1)) = value(data, pos, t) {
            lemma_items_advance(data, p, t1, count - 1);
        }
    }
}

pub proof fn lemma_pairs_advance(data: Seq<u8>, pos: int, t: Tables)
    ensures
        pairs(data, pos, t) matches Ok((v, p, t1)) ==> pos < p <= data.len() && t.objects.len()
            <= t1.objects.len(),
    decreases data.len() - pos, 1int,
{
    lemma_text_advances(data, pos, t);
    if let Ok((key, p, t1)) = text(data, pos, t) {
        lemma_value_advances(data, p, t1);
        if let Ok((v, p1, t2)) = value(data, p, t1) {
            lemma_pairs_advance(data, p1, t2);
        }
    }
}

// ---- reading --------------------------------------------------------------

/// An entry of the traits table.
struct TraitsEntry {
    class_name: String,
    dynamic: bool,
    externalizable: bool,
    sealed_names: Vec<String>,
}

impl TraitsEntry {
    spec fn view(&self) -> Traits {
        Traits {
            class_name: self.class_name@,
            dynamic: self.dynamic,
            externalizable: self.externalizable,
            sealed_names: texts_view(self.sealed_names@),
        }
    }

    fn copy(&self) -> (r: TraitsEntry)
        ensures
            r@ == self@,
    {
        TraitsEntry {
            class_name: self.class_name.clone(),
            dynamic: self.dynamic,
            externalizable: self.externalizable,
            sealed_names: clone_texts(&self.sealed_names),
        }
    }
}

/// The tables of the message being read.
struct State {
    strings: Vec<String>,
    objects: Vec<Amf3Value>,
    traits: Vec<TraitsEntry>,
}

spec fn traits_view(s: Seq<TraitsEntry>) -> Seq<Traits> {
    Seq::new(s.len(), |i: int| s[i]@)
}

impl State {
    spec fn view(&self) -> Tables {
        Tables {
            strings: texts_view(self.strings@),
            objects: items_view(self.objects@),
            traits: traits_view(self.traits@),
        }
    }

    fn add_string(&mut self, s: String)
        ensures
            final(self)@ == old(self)@.with_string(s@),
    {
        proof {
            lemma_texts_push(self.strings@, s);
        }
        self.strings.push(s);
    }

    fn add_object(&mut self, v: Amf3Value)
        ensures
            final(self)@ == old(self)@.with_object(v@),
    {
        proof {
            lemma_items_push(self.objects@, v);
        }
        self.objects.push(v);
    }

    fn add_traits(&mut self, e: TraitsEntry)
        ensures
            final(self)@ == old(self)@.with_traits(e@),
    {
        self.traits.push(e);
        assert(traits_view(self.traits@) =~= traits_view(old(self).traits@).push(e@));
    }

    fn put_object(&mut self, slot: usize, v: Amf3Value)
        requires
            slot < old(self)@.objects.len(),
        ensures
            final(self)@ == old(self)@.set_object(slot as int, v@),
    {
        self.objects.set(slot, v);
        assert(items_view(self.objects@) =~= items_view(old(self).objects@).update(
            slot as int,
            v@,
        ));
    }
}

/// A result and the tables behind it are what the grammar gives.
spec fn read_as<T, S>(
    r: Result<(T, usize), Error>,
    view: spec_fn(T) -> S,
    after: Tables,
    s: Result<(S, int, Tables), Fault>,
) -> bool {
    match (r, s) {
        (Ok((v, p)), Ok((w, q, t))) => view(v) == w && p == q && after == t,
        (Err(e), Err(f)) => e == Error::InvalidData(f),
        _ => false,
    }
}

/// Reads a variable-length integer.
pub fn read_u29(data: &[u8], pos: usize) -> (r: Result<(u32, usize), Error>)
    ensures
        match (r, u29(data@, pos as int)) {
            (Ok((v, p)), Ok((u, q))) => v == u && p == q && v <= U29_MAX,
            (Err(e), Err(f)) => e == Error::InvalidData(f),
            _ => false,
        },
{
    if pos >= data.len() {
        return Err(Error::InvalidData(Fault::Amf3TruncatedValue));
    }
    let b0: u32 = data[pos] as u32;
    if b0 < 128 {
        return Ok((b0, pos + 1));
    }
    if data.len() - pos < 2 {
        return Err(Error::InvalidData(Fault::Amf3TruncatedValue));
    }
    let b1: u32 = data[pos + 1] as u32;
    if b1 < 128 {
        return Ok(((b0 - 128) * 128 + b1, pos + 2));
    }
    if data.len() - pos < 3 {
        return Err(Error::InvalidData(Fault::Amf3TruncatedValue));
    }
    let b2: u32 = data[pos + 2] as u32;
    if b2 < 128 {
        return Ok(((b0 - 128) * 16384 + (b1 - 128) * 128 + b2, pos + 3));
    }
    if data.len() - pos < 4 {
        return Err(Error::InvalidData(Fault::Amf3TruncatedValue));
    }
    let b3: u32 = data[pos + 3] as u32;
    Ok(((b0 - 128) * 0x40_0000 + (b1 - 128) * 0x8000 + (b2 - 128) * 256 + b3, pos + 4))
}

/// 29 bits as a signed integer. Bits beyond them give way to the sign of a negative number, and
/// stay as they are beside a positive one.
pub fn sign_extend_29(u: u32) -> (r: i32)
    ensures
        r == (if u / 0x1000_0000 % 2 == 1 {
            u % 0x1000_0000 - 0x1000_0000
        } else if u >= 0x8000_0000 {
            u - 0x1_0000_0000
        } else {
            u as int
        }),
        u <= U29_MAX ==> r == signed29(u as int),
{
    if u / 0x1000_0000 % 2 == 1 {
        (u % 0x1000_0000) as i32 - 0x1000_0000
    } else if u >= 0x8000_0000 {
        (u as i64 - 0x1_0000_0000) as i32
    } else {
        u as i32
    }
}

fn read_utf8(data: &[u8], pos: usize, len: usize) -> (r: Result<String, Error>)
    requires
        pos <= data@.len(),
    ensures
        match (r, utf8_run(data@, pos as int, len as int)) {
            (Ok(s), Ok(c)) => s@ == c && pos + len <= data@.len(),
            (Err(e), Err(f)) => e == Error::InvalidData(f),
            _ => false,
        },
{
    if len > data.len() - pos {
        return Err(Error::InvalidData(Fault::Amf3TruncatedText));
    }
    match text_of_bytes(copy_range(data, pos, pos + len)) {
        Some(s) => Ok(s),
        None => Err(Error::InvalidData(Fault::Amf3TextNotUtf8)),
    }
}

fn read_utf8_vr(data: &[u8], pos: usize, state: &mut State) -> (r: Result<(String, usize), Error>)
    ensures
        read_as(r, |s: String| s@, final(state)@, text(data@, pos as int, old(state)@)),
{
    let (u, p) = read_u29(data, pos)?;
    let n: usize = (u / 2) as usize;
    if u % 2 == 0 {
        if n >= state.strings.len() {
            return Err(Error::InvalidData(Fault::Amf3StringRefOutOfRange));
        }
        let s = state.strings[n].clone();
        Ok((s, p))
    } else {
        let s = read_utf8(data, p, n)?;
        assert(p + n <= data.len());
        if !s.as_str().is_empty() {
            state.add_string(s.clone());
        }
        Ok((s, p + n))
    }
}

fn read_xml_like(data: &[u8], pos: usize, state: &mut State, document: bool) -> (r: Result<
    (Amf3Value, usize),
    Error,
>)
    ensures
        read_as(r, |v: Amf3Value| v@, final(state)@, xml(data@, pos as int, old(state)@, document)),
{
    let (u, p) = read_u29(data, pos)?;
    let n: usize = (u / 2) as usize;
    if u % 2 == 0 {
        if n >= state.objects.len() {
            return Err(Error::InvalidData(Fault::Amf3ObjectRefOutOfRange));
        }
        let prior = &state.objects[n];
        match prior {
            Amf3Value::XmlDocument(_) if document => Ok((prior.clone(), p)),
            Amf3Value::Xml(_) if !document => Ok((prior.clone(), p)),
            _ => Err(Error::InvalidData(Fault::Amf3ObjectRefWrongType)),
        }
    } else {
        let s = read_utf8(data, p, n)?;
        assert(p + n <= data.len());
        let v = if document {
            Amf3Value::XmlDocument(s)
        } else {
            Amf3Value::Xml(s)
        };
        state.add_object(v.clone());
        Ok((v, p + n))
    }
}

fn read_date(data: &[u8], pos: usize, state: &mut State) -> (r: Result<(Amf3Value, usize), Error>)
    ensures
        read_as(r, |v: Amf3Value| v@, final(state)@, date(data@, pos as int, old(state)@)),
{
    let (u, p) = read_u29(data, pos)?;
    let n: usize = (u / 2) as usize;
    if u % 2 == 0 {
        if n >= state.objects.len() {
            return Err(Error::InvalidData(Fault::Amf3DateRefOutOfRange));
        }
        let prior = &state.objects[n];
        match prior {
            Amf3Value::Date(_) => Ok((prior.clone(), p)),
            _ => Err(Error::InvalidData(Fault::Amf3DateRefWrongType)),
        }
    } else {
        if data.len() - p < 8 {
            return Err(Error::InvalidData(Fault::Amf3TruncatedDouble));
        }
        let v = Amf3Value::Date(Double { bits: read_u64(data, p) });
        state.add_object(v.clone());
        Ok((v, p + 8))
    }
}

fn read_byte_array(data: &[u8], pos: usize, state: &mut State) -> (r: Result<
    (Amf3Value, usize),
    Error,
>)
    ensures
        read_as(r, |v: Amf3Value| v@, final(state)@, byte_array(data@, pos as int, old(state)@)),
{
    let (u, p) = read_u29(data, pos)?;
    let n: usize = (u / 2) as usize;
    if u % 2 == 0 {
        if n >= state.objects.len() {
            return Err(Error::InvalidData(Fault::Amf3BytesRefOutOfRange));
        }
        let prior = &state.objects[n];
        match prior {
            Amf3Value::ByteArray(_) => Ok((prior.clone(), p)),
            _ => Err(Error::InvalidData(Fault::Amf3BytesRefWrongType)),
        }
    } else {
        if n > data.len() - p {
            return Err(Error::InvalidData(Fault::Amf3TruncatedBytes));
        }
        let v = Amf3Value::ByteArray(copy_range(data, p, p + n));
        state.add_object(v.clone());
        Ok((v, p + n))
    }
}

/// A run of which `done` was read before the rest.
spec fn prefixed<T>(done: Seq<T>, rest: Result<(Seq<T>, int, Tables), Fault>) -> Result<
    (Seq<T>, int, Tables),
    Fault,
> {
    match rest {
        Ok((more, p, t)) => Ok((done + more, p, t)),
        Err(f) => Err(f),
    }
}

fn read_texts(data: &[u8], pos: usize, state: &mut State, count: usize) -> (r: Result<
    (Vec<String>, usize),
    Error,
>)
    ensures
        read_as(
            r,
            |v: Vec<String>| texts_view(v@),
            final(state)@,
            texts(data@, pos as int, old(state)@, count as int),
        ),
{
    let mut p: usize = pos;
    let mut out: Vec<String> = Vec::new();
    let mut i: usize = 0;
    proof {
        let whole = texts(data@, pos as int, old(state)@, count as int);
        if let Ok((more, q, t)) = whole {
            assert(texts_view(out@) + more =~= more);
        }
    }
    while i < count
        invariant
            i <= count,
            texts(data@, pos as int, old(state)@, count as int) == prefixed(
                texts_view(out@),
                texts(data@, p as int, state@, count - i),
            ),
        decreases count - i,
    {
        let (s, np) = read_utf8_vr(data, p, state)?;
        proof {
            lemma_texts_push(out@, s);
            if let Ok((more, q, t)) = texts(data@, np as int, state@, count - i - 1) {
                assert(texts_view(out@) + (seq![s@] + more) =~= texts_view(out@).push(s@) + more);
            }
        }
        out.push(s);
        p = np;
        i += 1;
    }
    assert(texts_view(out@) + Seq::<Seq<char>>::empty() =~= texts_view(out@));
    Ok((out, p))
}

fn read_traits(data: &[u8], pos: usize, state: &mut State, u: u32) -> (r: Result<
    (TraitsEntry, usize),
    Error,
>)
    requires
        u <= U29_MAX,
    ensures
        read_as(
            r,
            |e: TraitsEntry| e@,
            final(state)@,
            traits(data@, pos as int, old(state)@, u as int),
        ),
{
    if u / 2 % 2 == 0 {
        let n: usize = (u / 4) as usize;
        if n >= state.traits.len() {
            return Err(Error::InvalidData(Fault::Amf3TraitsRefOutOfRange));
        }
        return Ok((state.traits[n].copy(), pos));
    }
    let externalizable = u / 4 % 2 == 1;
    let dynamic = u / 8 % 2 == 1;
    let sealed_count: usize = (u / 16) as usize;
    let (class_name, p) = read_utf8_vr(data, pos, state)?;
    if externalizable && sealed_count != 0 {
        return Err(Error::InvalidData(Fault::Amf3ExternalizableWithSealed));
    }
    let (sealed_names, p1) = read_texts(data, p, state, sealed_count)?;
    let entry = TraitsEntry { class_name, dynamic, externalizable, sealed_names };
    state.add_traits(entry.copy());
    Ok((entry, p1))
}

fn read_items(data: &[u8], pos: usize, state: &mut State, count: usize) -> (r: Result<
    (Vec<Amf3Value>, usize),
    Error,
>)
    requires
        pos <= data@.len(),
    ensures
        read_as(
            r,
            |v: Vec<Amf3Value>| items_view(v@),
            final(state)@,
            items(data@, pos as int, old(state)@, count as int),
        ),
    decreases data@.len() - pos, 1int,
{
    let mut p: usize = pos;
    let mut out: Vec<Amf3Value> = Vec::new();
    let mut i: usize = 0;
    proof {
        if let Ok((more, q, t)) = items(data@, pos as int, old(state)@, count as int) {
            assert(items_view(out@) + more =~= more);
        }
    }
    while i < count
        invariant
            i <= count,
            pos <= p <= data@.len(),
            items(data@, pos as int, old(state)@, count as int) == prefixed(
                items_view(out@),
                items(data@, p as int, state@, count - i),
            ),
        decreases count - i,
    {
        proof {
            lemma_value_advances(data@, p as int, state@);
        }
        let (v, np) = parse_value(data, p, state)?;
        proof {
            lemma_items_push(out@, v);
            if let Ok((more, q, t)) = items(data@, np as int, state@, count - i - 1) {
                assert(items_view(out@) + (seq![v@] + more) =~= items_view(out@).push(v@) + more);
            }
        }
        out.push(v);
        p = np;
        i += 1;
    }
    assert(items_view(out@) + Seq::<Amf3Tree>::empty() =~= items_view(out@));
    Ok((out, p))
}

fn read_pairs(data: &[u8], pos: usize, state: &mut State) -> (r: Result<
    (Vec<(String, Amf3Value)>, usize),
    Error,
>)
    ensures
        read_as(
            r,
            |v: Vec<(String, Amf3Value)>| pairs_view(v@),
            final(state)@,
            pairs(data@, pos as int, old(state)@),
        ),
    decreases data@.len() - pos, 1int,
{
    let mut p: usize = pos;
    let mut out: Vec<(String, Amf3Value)> = Vec::new();
    proof {
        if let Ok((more, q, t)) = pairs(data@, pos as int, old(state)@) {
            assert(pairs_view(out@) + more =~= more);
        }
    }
    loop
        invariant
            pos <= p,
            pairs(data@, pos as int, old(state)@) == prefixed(
                pairs_view(out@),
                pairs(data@, p as int, state@),
            ),
        decreases data@.len() - p,
    {
        proof {
            lemma_text_advances(data@, p as int, state@);
        }
        let (key, np) = read_utf8_vr(data, p, state)?;
        if key.as_str().is_empty() {
            assert(pairs_view(out@) + Seq::<(Seq<char>, Amf3Tree)>::empty() =~= pairs_view(out@));
            return Ok((out, np));
        }
        proof {
            lemma_value_advances(data@, np as int, state@);
        }
        let (v, np2) = parse_value(data, np, state)?;
        proof {
            lemma_pairs_push(out@, key, v);
            if let Ok((more, q, t)) = pairs(data@, np2 as int, state@) {
                assert(pairs_view(out@) + (seq![(key@, v@)] + more) =~= pairs_view(out@).push(
                    (key@, v@),
                ) + more);
            }
        }
        out.push((key, v));
        p = np2;
    }
}

fn read_array(data: &[u8], pos: usize, state: &mut State) -> (r: Result<(Amf3Value, usize), Error>)
    ensures
        read_as(r, |v: Amf3Value| v@, final(state)@, array(data@, pos as int, old(state)@)),
    decreases data@.len() - pos, 2int,
{
    let (u, p) = read_u29(data, pos)?;
    let n: usize = (u / 2) as usize;
    if u % 2 == 0 {
        if n >= state.objects.len() {
            return Err(Error::InvalidData(Fault::Amf3ArrayRefOutOfRange));
        }
        let prior = &state.objects[n];
        match prior {
            Amf3Value::Array(_) => Ok((prior.clone(), p)),
            _ => Err(Error::InvalidData(Fault::Amf3ArrayRefWrongType)),
        }
    } else {
        let slot = state.objects.len();
        let hollow = Amf3Value::Array(Amf3Array { assoc: Vec::new(), dense: Vec::new() });
        assert(hollow@ == Amf3Tree::Array {
            assoc: Seq::<(Seq<char>, Amf3Tree)>::empty(),
            dense: Seq::<Amf3Tree>::empty(),
        }) by {
            assert(pairs_view(hollow->Array_0.assoc@) =~= Seq::empty());
            assert(items_view(hollow->Array_0.dense@) =~= Seq::empty());
        }
        state.add_object(hollow);
        proof {
            lemma_u29_bounds(data@, pos as int);
            lemma_pairs_advance(data@, p as int, state@);
        }
        let (assoc, p1) = read_pairs(data, p, state)?;
        proof {
            lemma_items_advance(data@, p1 as int, state@, n as int);
        }
        let (dense, p2) = read_items(data, p1, state, n)?;
        let v = Amf3Value::Array(Amf3Array { assoc, dense });
        state.put_object(slot, v.clone());
        Ok((v, p2))
    }
}

fn read_object(data: &[u8], pos: usize, state: &mut State) -> (r: Result<(Amf3Value, usize), Error>)
    ensures
        read_as(r, |v: Amf3Value| v@, final(state)@, object(data@, pos as int, old(state)@)),
    decreases data@.len() - pos, 2int,
{
    let (u, p) = read_u29(data, pos)?;
    let n: usize = (u / 2) as usize;
    if u % 2 == 0 {
        if n >= state.objects.len() {
            return Err(Error::InvalidData(Fault::Amf3ObjectRefOutOfRange));
        }
        let prior = &state.objects[n];
        match prior {
            Amf3Value::Object(_) => Ok((prior.clone(), p)),
            _ => Err(Error::InvalidData(Fault::Amf3ObjectRefWrongType)),
        }
    } else {
        proof {
            lemma_u29_bounds(data@, pos as int);
            lemma_traits_advance(data@, p as int, state@, u as int);
        }
        let (entry, p1) = read_traits(data, p, state, u)?;
        let slot = state.objects.len();
        let e = entry.copy();
        let bare = Amf3Object {
            class_name: e.class_name,
            dynamic: e.dynamic,
            externalizable: e.externalizable,
            sealed_names: e.sealed_names,
            sealed_values: Vec::new(),
            dynamic_members: Vec::new(),
        };
        proof {
            assert(items_view(bare.sealed_values@) =~= Seq::empty());
            assert(pairs_view(bare.dynamic_members@) =~= Seq::empty());
        }
        if entry.externalizable {
            let v = Amf3Value::Object(
                Amf3Object {
                    class_name: entry.class_name,
                    dynamic: false,
                    externalizable: true,
                    sealed_names: Vec::new(),
                    sealed_values: Vec::new(),
                    dynamic_members: Vec::new(),
                },
            );
            proof {
                assert(texts_view(v->Object_0.sealed_names@) =~= Seq::empty());
                assert(items_view(v->Object_0.sealed_values@) =~= Seq::empty());
                assert(pairs_view(v->Object_0.dynamic_members@) =~= Seq::empty());
            }
            state.add_object(v.clone());
            return Ok((v, p1));
        }
        state.add_object(Amf3Value::Object(bare));
        proof {
            lemma_items_advance(data@, p1 as int, state@, entry.sealed_names@.len() as int);
        }
        let (sealed_values, p2) = read_items(data, p1, state, entry.sealed_names.len())?;
        let mut dynamic_members: Vec<(String, Amf3Value)> = Vec::new();
        let mut p3: usize = p2;
        assert(pairs_view(dynamic_members@) =~= Seq::empty());
        if entry.dynamic {
            proof {
                lemma_pairs_advance(data@, p2 as int, state@);
            }
            let (members, np) = read_pairs(data, p2, state)?;
            dynamic_members = members;
            p3 = np;
        }
        let v = Amf3Value::Object(
            Amf3Object {
                class_name: entry.class_name,
                dynamic: entry.dynamic,
                externalizable: false,
                sealed_names: entry.sealed_names,
                sealed_values,
                dynamic_members,
            },
        );
        state.put_object(slot, v.clone());
        Ok((v, p3))
    }
}

fn parse_value(data: &[u8], pos: usize, state: &mut State) -> (r: Result<
    (Amf3Value, usize),
    Error,
>)
    ensures
        read_as(r, |v: Amf3Value| v@, final(state)@, value(data@, pos as int, old(state)@)),
    decreases data@.len() - pos, 0int,
{
    if pos >= data.len() {
        return Err(Error::InvalidData(Fault::Amf3TruncatedValue));
    }
    let p: usize = pos + 1;
    match data[pos] {
        0x00 => Ok((Amf3Value::Undefined, p)),
        0x01 => Ok((Amf3Value::Null, p)),
        0x02 => Ok((Amf3Value::Boolean(false), p)),
        0x03 => Ok((Amf3Value::Boolean(true), p)),
        0x04 => {
            let (u, np) = read_u29(data, p)?;
            Ok((Amf3Value::Integer(sign_extend_29(u)), np))
        },
        0x05 => {
            if data.len() - p < 8 {
                return Err(Error::InvalidData(Fault::Amf3TruncatedDouble));
            }
            Ok((Amf3Value::Double(Double { bits: read_u64(data, p) }), p + 8))
        },
        0x06 => {
            let (s, np) = read_utf8_vr(data, p, state)?;
            Ok((Amf3Value::String(s), np))
        },
        0x07 => read_xml_like(data, p, state, true),
        0x08 => read_date(data, p, state),
        0x09 => read_array(data, p, state),
        0x0A => read_object(data, p, state),
        0x0B => read_xml_like(data, p, state, false),
        0x0C => read_byte_array(data, p, state),
        _ => Err(Error::InvalidData(Fault::Amf3UnknownMarker)),
    }
}

/// Reads the one value of the message that starts at `pos`, with tables of its own, and says
/// where it ends.
pub fn parse_amf3_value(data: &[u8], pos: usize) -> (r: Result<(Amf3Value, usize), Error>)
    ensures
        match (r, message(data@, pos as int)) {
            (Ok((v, p)), Ok((w, q))) => v@ == w && p == q && pos < p <= data@.len(),
            (Err(e), Err(f)) => e == Error::InvalidData(f),
            _ => false,
        },
{
    let mut state = State { strings: Vec::new(), objects: Vec::new(), traits: Vec::new() };
    proof {
        assert(state@ =~= Tables::empty());
        lemma_value_advances(data@, pos as int, Tables::empty());
    }
    parse_value(data, pos, &mut state)
}

} // verus!

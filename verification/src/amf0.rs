//! AMF0, the first-generation action message format.
//!
//! A value is a one-byte marker and what the marker calls for. Script tags and commands are
//! sequences of such values.
use vstd::prelude::*;
use crate::amf3::{Amf3Tree, Amf3Value};
use crate::double::{of_int, Double};
use crate::text::same_text;

pub mod bytes;
pub mod decode;
pub mod encode;
pub mod laws;
pub mod local;

pub use decode::parse_amf0_value;
pub use encode::{write_boolean, write_date, write_ecma_array_start, write_null, write_number, write_object_end,
    write_object_start, write_property_name, write_strict_array_number, write_strict_array_start,
    write_strict_array_string, write_string, write_undefined, write_xml};

verus! {

/// A decoded AMF0 value.
#[derive(Debug, PartialEq)]
pub enum AmfValue {
    Number(Double),
    Boolean(bool),
    String(String),
    /// Named values, in order.
    Object(Vec<(String, AmfValue)>),
    Null,
    Undefined,
    /// An index into a table of earlier objects; it is kept as it stands.
    Reference(u16),
    /// Named values behind a count that is only a hint.
    EcmaArray(Vec<(String, AmfValue)>),
    StrictArray(Vec<AmfValue>),
    Date {
        /// Milliseconds since the epoch.
        time_ms: Double,
        /// Minutes east of UTC.
        tz: i16,
    },
    /// Stands for a value that its writer could not serialise.
    Unsupported,
    /// Text of an XML document.
    Xml(String),
    /// An object with a class alias.
    TypedObject { class_name: String, body: Vec<(String, AmfValue)> },
    /// One AMF3 value.
    AvmPlus(Box<Amf3Value>),
}

/// What an AMF0 value is, apart from how it is held in memory.
pub enum AmfTree {
    Number(Double),
    Boolean(bool),
    String(Seq<char>),
    Object(Seq<(Seq<char>, AmfTree)>),
    Null,
    Undefined,
    Reference(u16),
    EcmaArray(Seq<(Seq<char>, AmfTree)>),
    StrictArray(Seq<AmfTree>),
    Date { time_ms: Double, tz: i16 },
    Unsupported,
    Xml(Seq<char>),
    TypedObject { class_name: Seq<char>, body: Seq<(Seq<char>, AmfTree)> },
    AvmPlus(Amf3Tree),
}

/// The trees of a run of values.
pub open spec fn items_view(s: Seq<AmfValue>) -> Seq<AmfTree>
    decreases s,
{
    Seq::new(s.len(), |i: int| if 0 <= i < s.len() { s[i].view() } else { AmfTree::Null })
}

/// The trees of a run of named values.
pub open spec fn pairs_view(s: Seq<(String, AmfValue)>) -> Seq<(Seq<char>, AmfTree)>
    decreases s,
{
    Seq::new(
        s.len(),
        |i: int|
            if 0 <= i < s.len() {
                (s[i].0@, s[i].1.view())
            } else {
                (Seq::empty(), AmfTree::Null)
            },
    )
}

pub proof fn lemma_items_push(s: Seq<AmfValue>, v: AmfValue)
    ensures
        items_view(s.push(v)) == items_view(s).push(v.view()),
{
    assert(items_view(s.push(v)) =~= items_view(s).push(v.view()));
}

pub proof fn lemma_pairs_push(s: Seq<(String, AmfValue)>, k: String, v: AmfValue)
    ensures
        pairs_view(s.push((k, v))) == pairs_view(s).push((k@, v.view())),
{
    assert(pairs_view(s.push((k, v))) =~= pairs_view(s).push((k@, v.view())));
}

/// The first value called `key`, from the place `from` on.
pub open spec fn field(s: Seq<(Seq<char>, AmfTree)>, key: Seq<char>, from: int) -> Option<AmfTree>
    decreases s.len() - from,
{
    if !(0 <= from < s.len()) {
        None
    } else if s[from].0 == key {
        Some(s[from].1)
    } else {
        field(s, key, from + 1)
    }
}

/// The named values that a value holds, if it is of a kind that holds any.
pub open spec fn fields(v: AmfTree) -> Option<Seq<(Seq<char>, AmfTree)>> {
    match v {
        AmfTree::Object(b) => Some(b),
        AmfTree::EcmaArray(b) => Some(b),
        AmfTree::TypedObject { class_name, body } => Some(body),
        _ => None,
    }
}

/// The value called `key` in an object or associative array.
pub open spec fn member(v: AmfTree, key: Seq<char>) -> Option<AmfTree> {
    match fields(v) {
        Some(b) => field(b, key, 0),
        None => None,
    }
}

impl AmfValue {
    /// The tree that this value holds.
    pub open spec fn view(&self) -> AmfTree
        decreases self,
    {
        match self {
            AmfValue::Number(d) => AmfTree::Number(*d),
            AmfValue::Boolean(b) => AmfTree::Boolean(*b),
            AmfValue::String(s) => AmfTree::String(s@),
            AmfValue::Object(b) => AmfTree::Object(pairs_view(b@)),
            AmfValue::Null => AmfTree::Null,
            AmfValue::Undefined => AmfTree::Undefined,
            AmfValue::Reference(i) => AmfTree::Reference(*i),
            AmfValue::EcmaArray(b) => AmfTree::EcmaArray(pairs_view(b@)),
            AmfValue::StrictArray(a) => AmfTree::StrictArray(items_view(a@)),
            AmfValue::Date { time_ms, tz } => AmfTree::Date { time_ms: *time_ms, tz: *tz },
            AmfValue::Unsupported => AmfTree::Unsupported,
            AmfValue::Xml(s) => AmfTree::Xml(s@),
            AmfValue::TypedObject { class_name, body } => AmfTree::TypedObject {
                class_name: class_name@,
                body: pairs_view(body@),
            },
            AmfValue::AvmPlus(v) => AmfTree::AvmPlus(v@),
        }
    }

    /// The value as a number: numbers, and booleans as one and zero.
    pub fn as_f64(&self) -> (r: Option<Double>)
        ensures
            r == (match self@ {
                AmfTree::Number(d) => Some(d),
                AmfTree::Boolean(b) => Some(of_int(if b { 1 } else { 0 })),
                _ => None::<Double>,
            }),
    {
        match self {
            AmfValue::Number(d) => Some(*d),
            AmfValue::Boolean(b) => Some(
                if *b {
                    Double::from_u32(1)
                } else {
                    Double::from_u32(0)
                },
            ),
            _ => None,
        }
    }

    /// The value of a boolean.
    pub fn as_bool(&self) -> (r: Option<bool>)
        ensures
            r == (match self@ {
                AmfTree::Boolean(b) => Some(b),
                _ => None::<bool>,
            }),
    {
        match self {
            AmfValue::Boolean(b) => Some(*b),
            _ => None,
        }
    }

    /// The text of a string.
    pub fn as_str(&self) -> (r: Option<&str>)
        ensures
            match self@ {
                AmfTree::String(s) => r is Some && r->0@ == s,
                _ => r is None,
            },
    {
        match self {
            AmfValue::String(s) => Some(s.as_str()),
            _ => None,
        }
    }

    /// The first value called `key` in an object, a typed object or an associative array.
    pub fn get(&self, key: &str) -> (r: Option<&AmfValue>)
        ensures
            match member(self@, key@) {
                Some(v) => r is Some && r->0@ == v,
                None => r is None,
            },
    {
        let body: &Vec<(String, AmfValue)> = match self {
            AmfValue::Object(b) => b,
            AmfValue::EcmaArray(b) => b,
            AmfValue::TypedObject { class_name, body } => body,
            _ => return None,
        };
        find(body, key)
    }

    /// The class alias of a typed object.
    pub fn class_name(&self) -> (r: Option<&str>)
        ensures
            match self@ {
                AmfTree::TypedObject { class_name, body } => r is Some && r->0@ == class_name,
                _ => r is None,
            },
    {
        match self {
            AmfValue::TypedObject { class_name, body } => Some(class_name.as_str()),
            _ => None,
        }
    }
}

/// The first value called `key`.
fn find<'a>(body: &'a Vec<(String, AmfValue)>, key: &str) -> (r: Option<&'a AmfValue>)
    ensures
        match field(pairs_view(body@), key@, 0) {
            Some(v) => r is Some && r->0@ == v,
            None => r is None,
        },
{
    let mut i: usize = 0;
    while i < body.len()
        invariant
            i <= body.len(),
            field(pairs_view(body@), key@, 0) == field(pairs_view(body@), key@, i as int),
        decreases body.len() - i,
    {
        if same_text(body[i].0.as_str(), key) {
            return Some(&body[i].1);
        }
        i += 1;
    }
    None
}

fn clone_items(s: &Vec<AmfValue>) -> (r: Vec<AmfValue>)
    ensures
        items_view(r@) == items_view(s@),
    decreases s,
{
    let mut out: Vec<AmfValue> = Vec::new();
    let mut i: usize = 0;
    assert(items_view(out@) =~= items_view(s@).take(0));
    while i < s.len()
        invariant
            i <= s.len(),
            items_view(out@) == items_view(s@).take(i as int),
        decreases s.len() - i,
    {
        proof {
            assert(decreases_to!(s => s@[i as int]));
        }
        let v = s[i].clone();
        proof {
            lemma_items_push(out@, v);
            assert(items_view(s@).take(i + 1) =~= items_view(s@).take(i as int).push(s@[i as int]@));
        }
        out.push(v);
        i += 1;
    }
    assert(items_view(s@).take(i as int) =~= items_view(s@));
    out
}

fn clone_pairs(s: &Vec<(String, AmfValue)>) -> (r: Vec<(String, AmfValue)>)
    ensures
        pairs_view(r@) == pairs_view(s@),
    decreases s,
{
    let mut out: Vec<(String, AmfValue)> = Vec::new();
    let mut i: usize = 0;
    assert(pairs_view(out@) =~= pairs_view(s@).take(0));
    while i < s.len()
        invariant
            i <= s.len(),
            pairs_view(out@) == pairs_view(s@).take(i as int),
        decreases s.len() - i,
    {
        proof {
            assert(decreases_to!(s => s@[i as int].1));
        }
        let k = s[i].0.clone();
        let v = s[i].1.clone();
        proof {
            lemma_pairs_push(out@, k, v);
            assert(pairs_view(s@).take(i + 1) =~= pairs_view(s@).take(i as int).push(
                (s@[i as int].0@, s@[i as int].1@),
            ));
        }
        out.push((k, v));
        i += 1;
    }
    assert(pairs_view(s@).take(i as int) =~= pairs_view(s@));
    out
}

impl Clone for AmfValue {
    fn clone(&self) -> (r: Self)
        ensures
            r@ == self@,
        decreases self,
    {
        match self {
            AmfValue::Number(d) => AmfValue::Number(*d),
            AmfValue::Boolean(b) => AmfValue::Boolean(*b),
            AmfValue::String(s) => AmfValue::String(s.clone()),
            AmfValue::Object(b) => AmfValue::Object(clone_pairs(b)),
            AmfValue::Null => AmfValue::Null,
            AmfValue::Undefined => AmfValue::Undefined,
            AmfValue::Reference(i) => AmfValue::Reference(*i),
            AmfValue::EcmaArray(b) => AmfValue::EcmaArray(clone_pairs(b)),
            AmfValue::StrictArray(a) => AmfValue::StrictArray(clone_items(a)),
            AmfValue::Date { time_ms, tz } => AmfValue::Date { time_ms: *time_ms, tz: *tz },
            AmfValue::Unsupported => AmfValue::Unsupported,
            AmfValue::Xml(s) => AmfValue::Xml(s.clone()),
            AmfValue::TypedObject { class_name, body } => AmfValue::TypedObject {
                class_name: class_name.clone(),
                body: clone_pairs(body),
            },
            AmfValue::AvmPlus(v) => AmfValue::AvmPlus(Box::new((**v).clone())),
        }
    }
}

} // verus!

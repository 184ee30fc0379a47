//! AMF3, the second-generation action message format.
//!
//! A value is a one-byte marker and what the marker calls for. Text, complex values and object
//! layouts each have a table that lasts for one message; a value met a second time may be sent
//! as an index into its table.
use vstd::prelude::*;
use crate::double::{of_int, of_signed, Double};
pub use crate::text::texts_view;

pub mod bytes;
pub mod decode;
pub mod encode;
pub mod laws;
pub mod local;
pub mod references;
pub mod stable;

pub use decode::{parse_amf3_value, read_u29};
pub use encode::write_amf3_value;

verus! {

/// The largest variable-length integer, 29 bits of ones.
pub const U29_MAX: u32 = 0x1FFF_FFFF;

/// The largest length that fits beside the one flag bit.
pub const U29_LEN_MAX: usize = 0x0FFF_FFFF;

/// A decoded AMF3 value.
#[derive(Debug, PartialEq)]
pub enum Amf3Value {
    Undefined,
    Null,
    Boolean(bool),
    /// A signed integer of 29 bits.
    Integer(i32),
    Double(Double),
    String(String),
    /// Text of a document in the older XML class.
    XmlDocument(String),
    /// Milliseconds since the epoch, in UTC.
    Date(Double),
    Array(Amf3Array),
    Object(Amf3Object),
    /// Text of an XML value.
    Xml(String),
    ByteArray(Vec<u8>),
}

/// An array: named entries, and entries in index order.
#[derive(Debug, PartialEq)]
pub struct Amf3Array {
    pub assoc: Vec<(String, Amf3Value)>,
    pub dense: Vec<Amf3Value>,
}

/// An object with its class layout.
#[derive(Debug, PartialEq)]
pub struct Amf3Object {
    /// Class alias, empty for an anonymous object.
    pub class_name: String,
    /// Whether members may be added beside the declared ones.
    pub dynamic: bool,
    /// Whether the class writes its own body. Such a body has no known grammar: none of it is
    /// read or written.
    pub externalizable: bool,
    /// Names of the declared members.
    pub sealed_names: Vec<String>,
    /// Values of the declared members, in the same order.
    pub sealed_values: Vec<Amf3Value>,
    /// The added members.
    pub dynamic_members: Vec<(String, Amf3Value)>,
}

/// What an AMF3 value is, apart from how it is held in memory.
pub enum Amf3Tree {
    Undefined,
    Null,
    Boolean(bool),
    Integer(i32),
    Double(Double),
    String(Seq<char>),
    XmlDocument(Seq<char>),
    Date(Double),
    Array { assoc: Seq<(Seq<char>, Amf3Tree)>, dense: Seq<Amf3Tree> },
    Object {
        class_name: Seq<char>,
        dynamic: bool,
        externalizable: bool,
        sealed_names: Seq<Seq<char>>,
        sealed_values: Seq<Amf3Tree>,
        dynamic_members: Seq<(Seq<char>, Amf3Tree)>,
    },
    Xml(Seq<char>),
    ByteArray(Seq<u8>),
}

/// The trees of a run of values.
pub open spec fn items_view(s: Seq<Amf3Value>) -> Seq<Amf3Tree>
    decreases s,
{
    Seq::new(s.len(), |i: int| if 0 <= i < s.len() { s[i].view() } else { Amf3Tree::Null })
}

/// The trees of a run of named values.
pub open spec fn pairs_view(s: Seq<(String, Amf3Value)>) -> Seq<(Seq<char>, Amf3Tree)>
    decreases s,
{
    Seq::new(
        s.len(),
        |i: int|
            if 0 <= i < s.len() {
                (s[i].0@, s[i].1.view())
            } else {
                (Seq::empty(), Amf3Tree::Null)
            },
    )
}

pub proof fn lemma_items_push(s: Seq<Amf3Value>, v: Amf3Value)
    ensures
        items_view(s.push(v)) == items_view(s).push(v.view()),
{
    assert(items_view(s.push(v)) =~= items_view(s).push(v.view()));
}

pub proof fn lemma_pairs_push(s: Seq<(String, Amf3Value)>, k: String, v: Amf3Value)
    ensures
        pairs_view(s.push((k, v))) == pairs_view(s).push((k@, v.view())),
{
    assert(pairs_view(s.push((k, v))) =~= pairs_view(s).push((k@, v.view())));
}

pub proof fn lemma_texts_push(s: Seq<String>, k: String)
    ensures
        texts_view(s.push(k)) == texts_view(s).push(k@),
{
    assert(texts_view(s.push(k)) =~= texts_view(s).push(k@));
}

impl View for Amf3Array {
    type V = Amf3Tree;

    open spec fn view(&self) -> Amf3Tree {
        Amf3Tree::Array { assoc: pairs_view(self.assoc@), dense: items_view(self.dense@) }
    }
}

impl View for Amf3Object {
    type V = Amf3Tree;

    open spec fn view(&self) -> Amf3Tree {
        Amf3Tree::Object {
            class_name: self.class_name@,
            dynamic: self.dynamic,
            externalizable: self.externalizable,
            sealed_names: texts_view(self.sealed_names@),
            sealed_values: items_view(self.sealed_values@),
            dynamic_members: pairs_view(self.dynamic_members@),
        }
    }
}

impl Amf3Value {
    /// The tree that this value holds.
    pub open spec fn view(&self) -> Amf3Tree
        decreases self,
    {
        match self {
            Amf3Value::Undefined => Amf3Tree::Undefined,
            Amf3Value::Null => Amf3Tree::Null,
            Amf3Value::Boolean(b) => Amf3Tree::Boolean(*b),
            Amf3Value::Integer(i) => Amf3Tree::Integer(*i),
            Amf3Value::Double(d) => Amf3Tree::Double(*d),
            Amf3Value::String(s) => Amf3Tree::String(s@),
            Amf3Value::XmlDocument(s) => Amf3Tree::XmlDocument(s@),
            Amf3Value::Date(d) => Amf3Tree::Date(*d),
            Amf3Value::Array(a) => Amf3Tree::Array {
                assoc: pairs_view(a.assoc@),
                dense: items_view(a.dense@),
            },
            Amf3Value::Object(o) => Amf3Tree::Object {
                class_name: o.class_name@,
                dynamic: o.dynamic,
                externalizable: o.externalizable,
                sealed_names: texts_view(o.sealed_names@),
                sealed_values: items_view(o.sealed_values@),
                dynamic_members: pairs_view(o.dynamic_members@),
            },
            Amf3Value::Xml(s) => Amf3Tree::Xml(s@),
            Amf3Value::ByteArray(b) => Amf3Tree::ByteArray(b@),
        }
    }

    /// The value as a number: integers, doubles, and booleans as one and zero.
    pub fn as_f64(&self) -> (r: Option<Double>)
        ensures
            r == (match self@ {
                Amf3Tree::Integer(i) => Some(of_signed(i as int)),
                Amf3Tree::Double(d) => Some(d),
                Amf3Tree::Boolean(b) => Some(of_int(if b { 1 } else { 0 })),
                _ => None::<Double>,
            }),
    {
        match self {
            Amf3Value::Integer(i) => Some(Double::from_i32(*i)),
            Amf3Value::Double(d) => Some(*d),
            Amf3Value::Boolean(b) => Some(
                if *b {
                    Double::from_u32(1)
                } else {
                    Double::from_u32(0)
                },
            ),
            _ => None,
        }
    }

    /// The text of a string or of either kind of XML.
    pub fn as_str(&self) -> (r: Option<&str>)
        ensures
            match self@ {
                Amf3Tree::String(s) => r is Some && r->0@ == s,
                Amf3Tree::Xml(s) => r is Some && r->0@ == s,
                Amf3Tree::XmlDocument(s) => r is Some && r->0@ == s,
                _ => r is None,
            },
    {
        match self {
            Amf3Value::String(s) => Some(s.as_str()),
            Amf3Value::Xml(s) => Some(s.as_str()),
            Amf3Value::XmlDocument(s) => Some(s.as_str()),
            _ => None,
        }
    }
}

fn clone_items(s: &Vec<Amf3Value>) -> (r: Vec<Amf3Value>)
    ensures
        items_view(r@) == items_view(s@),
    decreases s,
{
    let mut out: Vec<Amf3Value> = Vec::new();
    let mut i: usize = 0;
    assert(items_view(out@) =~= items_view(s@).take(0));
    while i < s.len()
        invariant
            i <= s.len(),
            items_view(out@) == items_view(s@).take(i as int),
        decreases s.len() - i,
    {
        proof {
            assert(decreases_to!(s => s@[i as int]));
        }
        let v = s[i].clone();
        proof {
            lemma_items_push(out@, v);
            assert(items_view(s@).take(i + 1) =~= items_view(s@).take(i as int).push(s@[i as int]@));
        }
        out.push(v);
        i += 1;
    }
    assert(items_view(s@).take(i as int) =~= items_view(s@));
    out
}

fn clone_pairs(s: &Vec<(String, Amf3Value)>) -> (r: Vec<(String, Amf3Value)>)
    ensures
        pairs_view(r@) == pairs_view(s@),
    decreases s,
{
    let mut out: Vec<(String, Amf3Value)> = Vec::new();
    let mut i: usize = 0;
    assert(pairs_view(out@) =~= pairs_view(s@).take(0));
    while i < s.len()
        invariant
            i <= s.len(),
            pairs_view(out@) == pairs_view(s@).take(i as int),
        decreases s.len() - i,
    {
        proof {
            assert(decreases_to!(s => s@[i as int].1));
        }
        let k = s[i].0.clone();
        let v = s[i].1.clone();
        proof {
            lemma_pairs_push(out@, k, v);
            assert(pairs_view(s@).take(i + 1) =~= pairs_view(s@).take(i as int).push(
                (s@[i as int].0@, s@[i as int].1@),
            ));
        }
        out.push((k, v));
        i += 1;
    }
    assert(pairs_view(s@).take(i as int) =~= pairs_view(s@));
    out
}

/// A copy of a run of strings.
pub(crate) fn clone_texts(s: &Vec<String>) -> (r: Vec<String>)
    ensures
        texts_view(r@) == texts_view(s@),
{
    let mut out: Vec<String> = Vec::new();
    let mut i: usize = 0;
    assert(texts_view(out@) =~= texts_view(s@).take(0));
    while i < s.len()
        invariant
            i <= s.len(),
            texts_view(out@) == texts_view(s@).take(i as int),
        decreases s.len() - i,
    {
        let k = s[i].clone();
        proof {
            lemma_texts_push(out@, k);
            assert(texts_view(s@).take(i + 1) =~= texts_view(s@).take(i as int).push(s@[i as int]@));
        }
        out.push(k);
        i += 1;
    }
    assert(texts_view(s@).take(i as int) =~= texts_view(s@));
    out
}

impl Clone for Amf3Value {
    fn clone(&self) -> (r: Self)
        ensures
            r@ == self@,
        decreases self,
    {
        match self {
            Amf3Value::Undefined => Amf3Value::Undefined,
            Amf3Value::Null => Amf3Value::Null,
            Amf3Value::Boolean(b) => Amf3Value::Boolean(*b),
            Amf3Value::Integer(i) => Amf3Value::Integer(*i),
            Amf3Value::Double(d) => Amf3Value::Double(*d),
            Amf3Value::String(s) => Amf3Value::String(s.clone()),
            Amf3Value::XmlDocument(s) => Amf3Value::XmlDocument(s.clone()),
            Amf3Value::Date(d) => Amf3Value::Date(*d),
            Amf3Value::Array(a) => Amf3Value::Array(
                Amf3Array { assoc: clone_pairs(&a.assoc), dense: clone_items(&a.dense) },
            ),
            Amf3Value::Object(o) => Amf3Value::Object(
                Amf3Object {
                    class_name: o.class_name.clone(),
                    dynamic: o.dynamic,
                    externalizable: o.externalizable,
                    sealed_names: clone_texts(&o.sealed_names),
                    sealed_values: clone_items(&o.sealed_values),
                    dynamic_members: clone_pairs(&o.dynamic_members),
                },
            ),
            Amf3Value::Xml(s) => Amf3Value::Xml(s.clone()),
            Amf3Value::ByteArray(b) => {
                let c = b.clone();
                assert(c@ =~= b@);
                Amf3Value::ByteArray(c)
            },
        }
    }
}

impl Clone for Amf3Array {
    fn clone(&self) -> (r: Self)
        ensures
            r@ == self@,
    {
        Amf3Array { assoc: clone_pairs(&self.assoc), dense: clone_items(&self.dense) }
    }
}

impl Clone for Amf3Object {
    fn clone(&self) -> (r: Self)
        ensures
            r@ == self@,
    {
        Amf3Object {
            class_name: self.class_name.clone(),
            dynamic: self.dynamic,
            externalizable: self.externalizable,
            sealed_names: clone_texts(&self.sealed_names),
            sealed_values: clone_items(&self.sealed_values),
            dynamic_members: clone_pairs(&self.dynamic_members),
        }
    }
}

} // verus!
